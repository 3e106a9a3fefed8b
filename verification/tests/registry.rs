use voxel_core::canvas::flat_texture;
use voxel_core::catalog::{next_file, Catalog, Problem, RegistryError, Source};
use voxel_core::block::Field;
use voxel_core::document::{Document, Member};
use voxel_core::json::parse;
use voxel_core::registry::{find_texture, Registry, Texture, UnknownBlock};
use voxel_core::types::{Face, UV};
use image::GenericImageView;

const BASE: &str = r#"{"isBlock":true,"isEmpty":false,"isFluid":false,"isLight":false,
    "isPlant":false,"isSolid":true,"isTransparent":false,"lightLevel":0,
    "transparentStandalone":false,"textures":{"top":"stone.png","side":"stone.png"}}"#;

fn source(file: &str, text: &str) -> Source {
    Source { file: file.to_string(), text: text.to_string() }
}

fn sources() -> Vec<Source> {
    vec![
        source("base.json", BASE),
        source("air.json", r#"{"name":"Air","isEmpty":true,"isSolid":false}"#),
        source("stone.json", r#"{"name":"Stone","base":"base.json"}"#),
        source(
            "grass.json",
            r#"{"name":"Grass","base":"base.json","textures":{"top":"grass.png","bottom":"dirt"}}"#,
        ),
        source(
            "water.json",
            r#"{"name":"Water","base":"base.json","isFluid":true,"isSolid":false,
                "textures":{"top":"water","side":"water"}}"#,
        ),
        source(
            "lamp.json",
            r#"{"name":"Lamp","base":"base.json","isLight":true,"lightLevel":15}"#,
        ),
        source("fern.json", r#"{"name":"Fern","base":"base.json","isPlant":true}"#),
    ]
}

const INDEX: &str = r#"{"0":"air.json","1":"stone.json","2":"grass.json","3":"water.json",
    "4":"lamp.json","5":"fern.json"}"#;

fn texture(source: &str, shade: u8) -> Texture {
    Texture { source: source.to_string(), image: flat_texture(shade, shade, shade) }
}

fn textures() -> Vec<Texture> {
    vec![
        texture("water", 40),
        texture("dirt", 80),
        texture("stone.png", 120),
        texture("grass.png", 160),
        texture("unused.png", 200),
    ]
}

fn registry() -> Registry {
    Registry::new(Catalog::read(INDEX, &sources()).unwrap(), &textures()).unwrap()
}

fn failure(index: &str, sources: &Vec<Source>) -> RegistryError {
    match Catalog::read(index, sources) {
        Ok(_) => panic!("the catalog was made"),
        Err(error) => error,
    }
}

#[test]
fn catalog_pools_each_texture_source_once_in_the_order_of_first_use() {
    let catalog = Catalog::read(INDEX, &sources()).unwrap();
    assert_eq!(catalog.pool(), &vec!["stone.png", "dirt", "grass.png", "water"]);
}

#[test]
fn catalog_build_takes_documents() {
    let index = parse(r#"{"9":"a.json"}"#).unwrap();
    let definitions = vec![
        Member { key: "a.json".to_string(), value: parse(r#"{"base":"b.json","name":"A"}"#).unwrap() },
        Member { key: "b.json".to_string(), value: parse(BASE).unwrap() },
    ];
    let catalog = match Catalog::build(&index, &definitions) {
        Ok(catalog) => catalog,
        Err(error) => panic!("{:?}", error),
    };
    assert_eq!(catalog.pool(), &vec!["stone.png"]);
    let registry = Registry::new(catalog, &textures()).unwrap_or_else(|e| panic!("{:?}", e));
    assert_eq!(registry.get_block_by_id(9).unwrap().name, "A");
}

#[test]
fn merged_block_takes_the_fields_of_the_child_and_the_rest_from_its_base() {
    let registry = registry();
    let grass = registry.get_block_by_id(2).unwrap();
    assert_eq!(grass.name, "Grass");
    assert_eq!(
        grass.textures,
        vec![
            Face { side: "bottom".to_string(), source: "dirt".to_string() },
            Face { side: "top".to_string(), source: "grass.png".to_string() },
            Face { side: "side".to_string(), source: "stone.png".to_string() },
        ]
    );
    assert!(grass.is_block && grass.is_solid);
    assert!(!grass.is_empty && !grass.is_fluid && !grass.is_light && !grass.is_plant);
    assert!(!grass.is_transparent && !grass.transparent_standalone);
    assert_eq!(grass.light_level, 0);
    let lamp = registry.get_block_by_id(4).unwrap();
    assert!(lamp.is_light);
    assert_eq!(lamp.light_level, 15);
    assert!(lamp.is_solid);
    assert_eq!(
        lamp.textures,
        vec![
            Face { side: "side".to_string(), source: "stone.png".to_string() },
            Face { side: "top".to_string(), source: "stone.png".to_string() },
        ]
    );
}

#[test]
fn definition_without_textures_is_in_no_index() {
    let registry = registry();
    assert!(registry.get_block_by_id(0).is_none());
    assert!(registry.get_block_by_name("Air".to_string()).is_none());
    assert_eq!(registry.get_id_by_name("Air"), None);
    assert!(!registry.is_plantable(0));
}

#[test]
fn definition_without_textures_is_skipped_before_its_key_is_read() {
    let catalog = Catalog::read(r#"{"not a number":"air.json","1":"stone.json"}"#, &sources());
    let registry = Registry::new(catalog.unwrap(), &textures()).unwrap_or_else(|e| panic!("{:?}", e));
    assert_eq!(registry.get_id_by_name("Stone"), Some(1));
    assert_eq!(registry.get_id_by_name("Air"), None);
}

#[test]
fn every_block_is_found_by_its_name_and_by_its_identifier() {
    let registry = registry();
    let expected = [(1u32, "Stone"), (2, "Grass"), (3, "Water"), (4, "Lamp"), (5, "Fern")];
    for (id, name) in expected {
        let by_id = registry.get_block_by_id(id).unwrap();
        let by_name = registry.get_block_by_name(name.to_string()).unwrap();
        assert_eq!(by_id, by_name);
        assert!(std::ptr::eq(by_id, by_name));
        assert_eq!(by_id.name, name);
        assert_eq!(registry.get_id_by_name(name), Some(id));
    }
}

#[test]
fn lookup_of_what_is_not_there_gives_nothing() {
    let registry = registry();
    assert!(registry.get_block_by_id(6).is_none());
    assert!(registry.get_block_by_id(u32::MAX).is_none());
    assert!(registry.get_block_by_name("Gold".to_string()).is_none());
    assert!(registry.get_block_by_name(String::new()).is_none());
    assert_eq!(registry.get_id_by_name("stone"), None);
    assert_eq!(registry.get_uv("unused.png"), None);
}

#[test]
fn identifier_is_the_number_that_the_key_writes() {
    let catalog = Catalog::read(r#"{"007":"stone.json","+8":"grass.json"}"#, &sources()).unwrap();
    let registry = Registry::new(catalog, &textures()).unwrap_or_else(|e| panic!("{:?}", e));
    assert_eq!(registry.get_block_by_id(7).unwrap().name, "Stone");
    assert_eq!(registry.get_block_by_id(8).unwrap().name, "Grass");
    assert_eq!(registry.get_id_by_name("Stone"), Some(7));
}

#[test]
fn is_plantable_takes_solid_ground_only() {
    let registry = registry();
    assert!(registry.is_plantable(1));
    assert!(registry.is_plantable(2));
    assert!(!registry.is_plantable(3));
    assert!(!registry.is_plantable(4));
    assert!(!registry.is_plantable(5));
    assert!(!registry.is_plantable(0));
    assert!(!registry.is_plantable(77));
}

#[test]
fn is_plantable_refuses_an_empty_block() {
    let mut files = sources();
    files.push(source("void.json", r#"{"name":"Void","base":"base.json","isEmpty":true}"#));
    let catalog = Catalog::read(r#"{"1":"void.json"}"#, &files).unwrap();
    let registry = Registry::new(catalog, &textures()).unwrap_or_else(|e| panic!("{:?}", e));
    assert!(registry.get_block_by_id(1).unwrap().is_solid);
    assert!(!registry.is_plantable(1));
}

#[test]
fn get_type_map_gives_the_identifier_of_every_name() {
    let registry = registry();
    let types = registry.get_type_map(&vec!["Grass", "Stone", "Fern", "Grass"]).unwrap();
    assert_eq!(types.get("Grass"), Some(&2));
    assert_eq!(types.get("Stone"), Some(&1));
    assert_eq!(types.get("Fern"), Some(&5));
    assert_eq!(types.get("Water"), None);
    assert_eq!(types.len(), 3);
    assert_eq!(registry.get_type_map(&vec![]).unwrap().len(), 0);
}

#[test]
fn get_type_map_fails_on_the_first_name_of_no_block() {
    let registry = registry();
    assert_eq!(
        registry.get_type_map(&vec!["Grass", "Gold", "Stone", "Silver"]).err(),
        Some(UnknownBlock { place: 1 })
    );
    assert_eq!(registry.get_type_map(&vec!["Air"]).err(), Some(UnknownBlock { place: 0 }));
}

#[test]
fn ranges_follow_the_pool_row_by_row() {
    let registry = registry();
    assert_eq!(registry.sources(), &vec!["stone.png", "dirt", "grass.png", "water"]);
    let tile = |column: u32, row: u32| UV {
        start_u: column * 64,
        end_u: column * 64 + 64,
        start_v: row * 64,
        end_v: row * 64 + 64,
        extent: 128,
    };
    assert_eq!(registry.get_uv("stone.png"), Some(tile(0, 0)));
    assert_eq!(registry.get_uv("dirt"), Some(tile(1, 0)));
    assert_eq!(registry.get_uv("grass.png"), Some(tile(0, 1)));
    assert_eq!(registry.get_uv("water"), Some(tile(1, 1)));
}

#[test]
fn every_texture_of_every_block_has_a_range() {
    let registry = registry();
    for id in 1..=5 {
        for face in &registry.get_block_by_id(id).unwrap().textures {
            let uv = registry.get_uv(&face.source).unwrap();
            assert!(uv.start_u < uv.end_u && uv.end_u <= uv.extent);
            assert!(uv.start_v < uv.end_v && uv.end_v <= uv.extent);
        }
    }
}

#[test]
fn atlas_shows_each_texture_in_its_range() {
    let registry = registry();
    let atlas = registry.atlas().to_image();
    assert_eq!(atlas.dimensions(), (128, 128));
    let shades = [("stone.png", 120u8), ("dirt", 80), ("grass.png", 160), ("water", 40)];
    for (source, shade) in shades {
        let uv = registry.get_uv(source).unwrap();
        for y in uv.start_v..uv.end_v {
            for x in uv.start_u..uv.end_u {
                assert_eq!(atlas.get_pixel(x, y), image::Rgba([shade, shade, shade, 255]));
            }
        }
    }
}

#[test]
fn atlas_of_five_textures_has_four_tiles_a_side() {
    let mut files = sources();
    files.push(source(
        "ore.json",
        r#"{"name":"Ore","base":"base.json","textures":{"top":"unused.png"}}"#,
    ));
    let index = r#"{"1":"stone.json","2":"grass.json","3":"water.json","4":"ore.json"}"#;
    let registry =
        Registry::new(Catalog::read(index, &files).unwrap(), &textures()).unwrap_or_else(|e| panic!("{:?}", e));
    assert_eq!(registry.atlas().to_image().dimensions(), (256, 256));
    assert_eq!(registry.get_uv("unused.png").unwrap().extent, 256);
    assert_eq!(
        registry.get_uv("unused.png"),
        Some(UV { start_u: 0, end_u: 64, start_v: 64, end_v: 128, extent: 256 })
    );
}

#[test]
fn registry_of_no_blocks_has_an_empty_atlas() {
    let registry = Registry::new(Catalog::read("{}", &vec![]).unwrap(), &vec![]).unwrap_or_else(|e| panic!("{:?}", e));
    assert_eq!(registry.atlas().to_image().dimensions(), (0, 0));
    assert!(registry.get_block_by_id(0).is_none());
}

#[test]
fn first_texture_of_a_source_is_taken() {
    let mut given = textures();
    given.push(texture("dirt", 255));
    assert_eq!(find_texture(&given, "dirt"), Some(1));
    assert_eq!(find_texture(&given, "gold"), None);
    let registry = Registry::new(Catalog::read(INDEX, &sources()).unwrap(), &given).unwrap_or_else(|e| panic!("{:?}", e));
    let uv = registry.get_uv("dirt").unwrap();
    let atlas = registry.atlas().to_image();
    assert_eq!(atlas.get_pixel(uv.start_u, uv.start_v), image::Rgba([80, 80, 80, 255]));
}

#[test]
fn read_refuses_text_that_is_not_json() {
    assert_eq!(failure("{", &sources()), RegistryError::MalformedIndex);
    let mut files = sources();
    files.insert(2, source("broken.json", "{\"name\": "));
    files.push(source("worse.json", "]"));
    assert_eq!(failure(INDEX, &files), RegistryError::MalformedDefinition(2));
    assert_eq!(failure("{", &files), RegistryError::MalformedIndex);
}

#[test]
fn index_must_be_an_object() {
    assert_eq!(failure("[]", &sources()), RegistryError::InvalidIndex);
    assert_eq!(failure("null", &sources()), RegistryError::InvalidIndex);
    assert_eq!(
        Catalog::build(&Document::Text("x".to_string()), &vec![]).err(),
        Some(RegistryError::InvalidIndex)
    );
}

#[test]
fn entry_with_a_problem_is_the_error() {
    let entry = |entry: usize, problem: Problem| RegistryError::InvalidEntry { entry, problem };
    assert_eq!(failure(r#"{"1":"stone.json","2":5}"#, &sources()), entry(1, Problem::NotAFile));
    assert_eq!(failure(r#"{"1":"gold.json"}"#, &sources()), entry(0, Problem::MissingFile));
    let mut files = sources();
    files.push(source("orphan.json", r#"{"name":"Orphan","base":"lost.json"}"#));
    files.push(source("nameless.json", r#"{"base":"base.json"}"#));
    files.push(source("murky.json", r#"{"name":"Murky","base":"base.json","isFluid":"no"}"#));
    files.push(source("twin.json", r#"{"name":"Stone","base":"base.json"}"#));
    assert_eq!(failure(r#"{"1":"orphan.json"}"#, &files), entry(0, Problem::MissingBase));
    assert_eq!(
        failure(r#"{"1":"stone.json","2":"nameless.json"}"#, &files),
        entry(1, Problem::Field(Field::Name))
    );
    assert_eq!(
        failure(r#"{"1":"murky.json"}"#, &files),
        entry(0, Problem::Field(Field::IsFluid))
    );
    assert_eq!(failure(r#"{"1":"stone.json","x2":"grass.json"}"#, &files), entry(1, Problem::InvalidId));
    assert_eq!(failure(r#"{"-1":"stone.json"}"#, &files), entry(0, Problem::InvalidId));
    assert_eq!(
        failure(r#"{"1":"stone.json","3":"grass.json","5":"twin.json"}"#, &files),
        entry(2, Problem::DuplicateName)
    );
    assert_eq!(
        failure(r#"{"01":"stone.json","1":"grass.json"}"#, &files),
        entry(1, Problem::DuplicateId)
    );
    assert_eq!(
        failure(r#"{"1":"gold.json","2":"orphan.json"}"#, &files),
        entry(0, Problem::MissingFile)
    );
}

#[test]
fn texture_that_is_missing_or_empty_is_the_error() {
    let catalog = || Catalog::read(INDEX, &sources()).unwrap();
    let mut given = textures();
    given.remove(3);
    assert_eq!(Registry::new(catalog(), &given).err(), Some(RegistryError::MissingTexture(2)));
    given.remove(0);
    assert_eq!(Registry::new(catalog(), &given).err(), Some(RegistryError::MissingTexture(2)));
    assert_eq!(Registry::new(catalog(), &vec![]).err(), Some(RegistryError::MissingTexture(0)));
    let mut given = textures();
    given[1] = Texture { source: "dirt".to_string(), image: image::DynamicImage::new_rgb8(0, 0) };
    given.remove(0);
    assert_eq!(Registry::new(catalog(), &given).err(), Some(RegistryError::UnusableTexture(1)));
}

#[test]
fn child_without_textures_is_skipped_though_its_base_has_them() {
    let mut files = sources();
    files.push(source("ghost.json", r#"{"name":"Ghost","base":"base.json","textures":null}"#));
    let catalog = Catalog::read(r#"{"1":"ghost.json","2":"stone.json"}"#, &files).unwrap();
    let registry = Registry::new(catalog, &textures()).unwrap_or_else(|e| panic!("{:?}", e));
    assert!(registry.get_block_by_id(1).is_none());
    assert_eq!(registry.get_id_by_name("Ghost"), None);
    assert_eq!(registry.get_id_by_name("Stone"), Some(2));
    assert_eq!(registry.sources(), &vec!["stone.png"]);
}

#[test]
fn next_file_asks_for_each_definition_and_then_for_its_base() {
    let index = parse(INDEX).unwrap();
    let given = sources();
    let text_of = |file: &str| given.iter().find(|s| s.file == file).unwrap().text.clone();
    let mut definitions: Vec<Member> = Vec::new();
    let mut asked = Vec::new();
    while let Some(file) = next_file(&index, &definitions) {
        definitions.push(Member { key: file.clone(), value: parse(&text_of(&file)).unwrap() });
        asked.push(file);
    }
    assert_eq!(
        asked,
        vec![
            "air.json",
            "stone.json",
            "base.json",
            "grass.json",
            "water.json",
            "lamp.json",
            "fern.json"
        ]
    );
    assert_eq!(next_file(&index, &definitions), None);
    let registry = Registry::new(Catalog::build(&index, &definitions).unwrap(), &textures());
    assert_eq!(registry.unwrap_or_else(|e| panic!("{:?}", e)).get_id_by_name("Fern"), Some(5));
}

#[test]
fn next_file_asks_for_nothing_where_nothing_is_named() {
    assert_eq!(next_file(&parse("{}").unwrap(), &vec![]), None);
    assert_eq!(next_file(&parse("[\"a.json\"]").unwrap(), &vec![]), None);
    assert_eq!(next_file(&parse(r#"{"1":5,"2":null}"#).unwrap(), &vec![]), None);
    let index = parse(r#"{"1":7,"2":"b.json"}"#).unwrap();
    assert_eq!(next_file(&index, &vec![]), Some("b.json".to_string()));
    let nameless = Member { key: "b.json".to_string(), value: parse(r#"{"base":3}"#).unwrap() };
    assert_eq!(next_file(&index, &vec![nameless]), None);
    let based = Member { key: "b.json".to_string(), value: parse(r#"{"base":"c"}"#).unwrap() };
    assert_eq!(next_file(&index, &vec![based]), Some("c".to_string()));
}
