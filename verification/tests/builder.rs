use voxel_core::builder::{BuildError, Builder, Feature, Probe, VoxelUpdate};
use voxel_core::canvas::flat_texture;
use voxel_core::catalog::{Catalog, Source};
use voxel_core::chunk::Chunk;
use voxel_core::noise::{Noise, NoiseTest, Recipe, Sampler, Spread, PARTS};
use voxel_core::registry::{Registry, Texture};
use voxel_core::types::Coords3;

const DIRT: u32 = 1;
const GRASS: u32 = 2;
const TAN_GRASS: u32 = 3;
const BROWN_GRASS: u32 = 4;
const BROWN_MUSHROOM: u32 = 5;
const RED_MUSHROOM: u32 = 6;
const TAN_MUSHROOM: u32 = 7;
const TRUNK: u32 = 8;
const LEAVES: u32 = 9;
const LEAVES_ORANGE: u32 = 10;
const STONE: u32 = 11;
const YELLOW: u32 = 12;
const WATER: u32 = 13;

fn kinds() -> Vec<(u32, &'static str, &'static str)> {
    let ground = r#""isSolid":true"#;
    let plant = r#""isSolid":false,"isPlant":true"#;
    vec![
        (DIRT, "Dirt", ground),
        (GRASS, "Grass", ground),
        (TAN_GRASS, "Tan Grass", plant),
        (BROWN_GRASS, "Brown Grass", plant),
        (BROWN_MUSHROOM, "Brown Mushroom", plant),
        (RED_MUSHROOM, "Red Mushroom", plant),
        (TAN_MUSHROOM, "Tan Mushroom", plant),
        (TRUNK, "Trunk", ground),
        (LEAVES, "Leaves", ground),
        (LEAVES_ORANGE, "Leaves Orange", ground),
        (STONE, "Stone", ground),
        (YELLOW, "Yellow", r#""isSolid":true,"isLight":true,"lightLevel":15"#),
        (WATER, "Water", r#""isSolid":false,"isFluid":true"#),
    ]
}

fn registry_without(left_out: &[&str]) -> Registry {
    let base = r#"{"isBlock":true,"isEmpty":false,"isFluid":false,"isLight":false,
        "isPlant":false,"isSolid":true,"isTransparent":false,"lightLevel":0,
        "transparentStandalone":false,"textures":{"all":"plain"}}"#;
    let mut sources = vec![Source { file: "base.json".to_string(), text: base.to_string() }];
    let mut entries = Vec::new();
    for (id, name, flags) in kinds() {
        if left_out.contains(&name) {
            continue;
        }
        sources.push(Source {
            file: format!("{}.json", id),
            text: format!(r#"{{"name":"{}","base":"base.json",{}}}"#, name, flags),
        });
        entries.push(format!(r#""{}":"{}.json""#, id, id));
    }
    let index = format!("{{{}}}", entries.join(","));
    let catalog = Catalog::read(&index, &sources).unwrap();
    let textures = vec![Texture { source: "plain".to_string(), image: flat_texture(9, 9, 9) }];
    Registry::new(catalog, &textures).unwrap_or_else(|e| panic!("{:?}", e))
}

fn registry() -> Registry {
    registry_without(&[])
}

fn column_chunk(x: i32, z: i32, stack: Vec<u32>) -> Chunk {
    let top = stack.len() as i32 - 1;
    Chunk::new(Coords3(x, 0, z), Coords3(x, top, z), vec![top], stack).unwrap()
}

fn update(x: i32, y: i32, z: i32, id: u32) -> VoxelUpdate {
    VoxelUpdate { voxel: Coords3(x, y, z), id }
}

fn canopy(top: Coords3<i32>, height: i32, bush_height: i32, leaves: u32, gaps: &[Coords3<i32>]) -> Vec<VoxelUpdate> {
    let mut expected = Vec::new();
    for layer in 0..=bush_height {
        let wide_rest = if height == 2 { 0 } else { 2 };
        let wide = layer % 3 == 1 || (layer % 3 == wide_rest && layer != bush_height);
        let limit: i32 = if wide { 2 } else { 1 };
        for i in -limit..=limit {
            for k in -limit..=limit {
                if i.abs() == limit && k.abs() == limit {
                    continue;
                }
                let at = Coords3(top.0 + i, top.1 + layer, top.2 + k);
                let center = i == 0 && k == 0;
                if !center && gaps.contains(&at) {
                    continue;
                }
                let id = if center && layer != bush_height { TRUNK } else { leaves };
                expected.push(VoxelUpdate { voxel: at, id });
            }
        }
    }
    expected
}

fn tree_noise(x: i32, z: i32, tests: &[NoiseTest]) -> Noise {
    let mut noise = Noise::new();
    noise.mark(NoiseTest::TreeSite, Coords3(x, 0, z));
    for test in tests {
        noise.mark(*test, Coords3(x, 0, z));
    }
    noise
}

fn plant_for(tests: &[NoiseTest], stand: u32) -> Vec<VoxelUpdate> {
    let mut noise = Noise::new();
    noise.mark(NoiseTest::PlantSite, Coords3(0, 0, 0));
    for test in tests {
        noise.mark(*test, Coords3(0, 4, 0));
    }
    let chunk = column_chunk(0, 0, vec![STONE, STONE, STONE, stand]);
    Builder::new(registry(), noise).build(&chunk)
}

#[test]
fn single_column_with_default_noise_grows_grass_above_the_surface() {
    let mut noise = Noise::new();
    noise.mark(NoiseTest::PlantSite, Coords3(3, 0, -2));
    let chunk = column_chunk(3, -2, vec![DIRT, GRASS]);
    let builder = Builder::new(registry(), noise);
    assert_eq!(builder.build(&chunk), vec![update(3, 2, -2, GRASS)]);
}

#[test]
fn build_gives_the_same_list_every_time() {
    let mut noise = Noise::new();
    for x in 0..3 {
        for z in 0..3 {
            noise.mark(NoiseTest::PlantSite, Coords3(x, 0, z));
            noise.mark(NoiseTest::TreeSite, Coords3(x, 0, (z + x) % 3));
        }
    }
    noise.mark(NoiseTest::LampSite, Coords3(1, 0, 1));
    noise.mark(NoiseTest::TanGrass, Coords3(2, 1, 2));
    let chunk = Chunk::new(Coords3(0, 0, 0), Coords3(2, 0, 2), vec![0; 9], vec![DIRT; 9]).unwrap();
    let builder = Builder::new(registry(), noise);
    let first = builder.build(&chunk);
    let second = builder.build(&chunk);
    assert_eq!(first, second);
    assert_eq!(first.len(), 9 + 9 * 49 + 1);
}

#[test]
fn red_mushroom_comes_before_every_other_plant() {
    let all = [
        NoiseTest::RedMushroom,
        NoiseTest::BrownMushroom,
        NoiseTest::TanGrass,
        NoiseTest::TanMushroom,
        NoiseTest::BrownGrass,
    ];
    assert_eq!(plant_for(&all, DIRT), vec![update(0, 4, 0, RED_MUSHROOM)]);
    assert_eq!(plant_for(&all, STONE), vec![update(0, 4, 0, RED_MUSHROOM)]);
    assert_eq!(plant_for(&[NoiseTest::RedMushroom], GRASS), vec![update(0, 4, 0, RED_MUSHROOM)]);
}

#[test]
fn red_mushroom_at_every_anchor_where_the_noise_passes_its_test() {
    let mut noise = Noise::new();
    let heights = vec![0, 1, 1, 0];
    let voxels = vec![DIRT, 0, STONE, GRASS, DIRT, DIRT, GRASS, 0];
    for (x, z, y) in [(5, 5, 1), (5, 6, 2), (6, 5, 2), (6, 6, 1)] {
        noise.mark(NoiseTest::PlantSite, Coords3(x, 0, z));
        noise.mark(NoiseTest::RedMushroom, Coords3(x, y, z));
        noise.mark(NoiseTest::TanGrass, Coords3(x, y, z));
        noise.mark(NoiseTest::BrownMushroom, Coords3(x, y, z));
    }
    let chunk = Chunk::new(Coords3(5, 0, 5), Coords3(6, 1, 6), heights, voxels).unwrap();
    let builder = Builder::new(registry(), noise);
    assert_eq!(
        builder.generate_plants(&chunk),
        vec![
            update(5, 1, 5, RED_MUSHROOM),
            update(5, 2, 6, RED_MUSHROOM),
            update(6, 2, 5, RED_MUSHROOM),
            update(6, 1, 6, RED_MUSHROOM),
        ]
    );
}

#[test]
fn plant_is_decided_by_the_first_test_that_is_passed() {
    let (brown_grass, brown_mushroom, tan_grass, tan_mushroom) = (
        NoiseTest::BrownGrass,
        NoiseTest::BrownMushroom,
        NoiseTest::TanGrass,
        NoiseTest::TanMushroom,
    );
    let plant = |tests: &[NoiseTest], stand: u32| plant_for(tests, stand)[0].id;
    assert_eq!(plant(&[], DIRT), GRASS);
    assert_eq!(plant(&[], STONE), GRASS);
    assert_eq!(plant(&[brown_mushroom, tan_grass, tan_mushroom, brown_grass], DIRT), BROWN_MUSHROOM);
    assert_eq!(plant(&[brown_mushroom, tan_grass, tan_mushroom, brown_grass], GRASS), TAN_GRASS);
    assert_eq!(plant(&[brown_mushroom], GRASS), GRASS);
    assert_eq!(plant(&[tan_grass, tan_mushroom, brown_grass], DIRT), TAN_GRASS);
    assert_eq!(plant(&[tan_mushroom, brown_grass], DIRT), TAN_MUSHROOM);
    assert_eq!(plant(&[brown_mushroom, tan_mushroom], STONE), TAN_MUSHROOM);
    assert_eq!(plant(&[brown_grass], DIRT), BROWN_GRASS);
    assert_eq!(plant(&[brown_grass], STONE), GRASS);
    assert_eq!(plant(&[brown_mushroom, brown_grass], STONE), GRASS);
}

#[test]
fn plant_tests_are_made_at_the_anchor() {
    let mut noise = Noise::new();
    noise.mark(NoiseTest::PlantSite, Coords3(0, 0, 0));
    noise.mark(NoiseTest::RedMushroom, Coords3(0, 1, 0));
    noise.mark(NoiseTest::RedMushroom, Coords3(0, 3, 0));
    noise.mark(NoiseTest::RedMushroom, Coords3(0, 0, 0));
    let chunk = column_chunk(0, 0, vec![DIRT, DIRT]);
    let builder = Builder::new(registry(), noise);
    assert_eq!(builder.build(&chunk), vec![update(0, 2, 0, GRASS)]);
}

#[test]
fn sampling_walks_every_column_row_by_row() {
    let mut noise = Noise::new();
    for x in -1..=1 {
        for z in 7..=8 {
            noise.mark(NoiseTest::PlantSite, Coords3(x, 0, z));
            noise.mark(NoiseTest::TreeSite, Coords3(x, 0, z));
            noise.mark(NoiseTest::LampSite, Coords3(x, 0, z));
        }
    }
    let heights = vec![10, 11, 12, 10, 11, 12];
    let mut voxels = Vec::new();
    for _column in 0..6 {
        voxels.extend([STONE, DIRT, GRASS]);
    }
    let chunk = Chunk::new(Coords3(-1, 10, 7), Coords3(1, 12, 8), heights, voxels).unwrap();
    let builder = Builder::new(registry(), noise);
    let columns = [(-1, 10, 7), (-1, 11, 8), (0, 12, 7), (0, 10, 8), (1, 11, 7), (1, 12, 8)];
    let above: Vec<_> = columns.iter().map(|&(x, y, z)| Coords3(x, y + 1, z)).collect();
    let level: Vec<_> = columns.iter().map(|&(x, y, z)| Coords3(x, y, z)).collect();
    assert_eq!(builder.sample_plants(&chunk), above);
    assert_eq!(builder.sample_lamps(&chunk), above);
    assert_eq!(builder.sample_trees(&chunk), level);
    assert_eq!(builder.sample(&chunk, Feature::Trees), level);
}

#[test]
fn sampling_takes_only_ground_that_can_be_planted_and_that_the_noise_accepts() {
    let mut noise = Noise::new();
    for z in 0..5 {
        noise.mark(NoiseTest::PlantSite, Coords3(0, 0, z));
    }
    noise.mark(NoiseTest::TreeSite, Coords3(0, 0, 4));
    noise.mark(NoiseTest::PlantSite, Coords3(0, 0, 5));
    noise.mark(NoiseTest::PlantSite, Coords3(1, 0, 0));
    let surface = vec![WATER, RED_MUSHROOM, YELLOW, 0, STONE];
    let chunk = Chunk::new(Coords3(0, 0, 0), Coords3(0, 0, 4), vec![0; 5], surface).unwrap();
    let builder = Builder::new(registry(), noise);
    assert_eq!(builder.sample_plants(&chunk), vec![Coords3(0, 1, 4)]);
    assert_eq!(builder.sample_trees(&chunk), vec![Coords3(0, 0, 4)]);
    assert_eq!(builder.sample_lamps(&chunk), vec![]);
}

#[test]
fn sampling_reads_the_voxel_at_the_height_of_the_column() {
    let mut noise = Noise::new();
    noise.mark(NoiseTest::LampSite, Coords3(0, 0, 0));
    let chunk = |height: i32| {
        Chunk::new(Coords3(0, 0, 0), Coords3(0, 2, 0), vec![height], vec![DIRT, WATER, STONE])
            .unwrap()
    };
    let builder = Builder::new(registry(), noise);
    assert_eq!(builder.sample_lamps(&chunk(0)), vec![Coords3(0, 1, 0)]);
    assert_eq!(builder.sample_lamps(&chunk(1)), vec![]);
    assert_eq!(builder.sample_lamps(&chunk(2)), vec![Coords3(0, 3, 0)]);
}

#[test]
fn lamp_is_a_yellow_light_above_the_surface() {
    let mut noise = Noise::new();
    noise.mark(NoiseTest::LampSite, Coords3(4, 0, 4));
    let chunk = column_chunk(4, 4, vec![STONE, STONE, DIRT]);
    let builder = Builder::new(registry(), noise);
    assert_eq!(builder.generate_lamps(&chunk), vec![update(4, 3, 4, YELLOW)]);
    assert_eq!(builder.build(&chunk), vec![update(4, 3, 4, YELLOW)]);
}

#[test]
fn small_tree_has_a_short_trunk_and_three_layers() {
    let chunk = column_chunk(0, 0, vec![DIRT, DIRT]);
    let builder = Builder::new(registry(), tree_noise(0, 0, &[]));
    let tree = builder.generate_trees(&chunk);
    let mut expected = vec![update(0, 1, 0, TRUNK), update(0, 2, 0, TRUNK)];
    expected.extend(canopy(Coords3(0, 3, 0), 2, 2, LEAVES, &[]));
    assert_eq!(tree, expected);
    assert_eq!(tree.len(), 2 + 21 + 21 + 5);
    assert_eq!(tree[2], update(-2, 3, -1, LEAVES));
    assert_eq!(tree[2 + 10], update(0, 3, 0, TRUNK));
    assert_eq!(tree[2 + 21 + 10], update(0, 4, 0, TRUNK));
    assert_eq!(
        tree[44..],
        [
            update(-1, 5, 0, LEAVES),
            update(0, 5, -1, LEAVES),
            update(0, 5, 0, LEAVES),
            update(0, 5, 1, LEAVES),
            update(1, 5, 0, LEAVES),
        ]
    );
}

#[test]
fn tree_shape_follows_the_noise() {
    let (tall, grand, broad, orange) = (
        NoiseTest::TallTrunk,
        NoiseTest::GrandCanopy,
        NoiseTest::BroadCanopy,
        NoiseTest::OrangeLeaves,
    );
    let chunk = column_chunk(7, -7, vec![DIRT]);
    let grown = |tests: &[NoiseTest]| {
        Builder::new(registry(), tree_noise(7, -7, tests)).generate_trees(&chunk)
    };
    let expected = |height: i32, bush_height: i32, leaves: u32| {
        let mut all: Vec<_> = (0..height).map(|step| update(7, step, -7, TRUNK)).collect();
        all.extend(canopy(Coords3(7, height, -7), height, bush_height, leaves, &[]));
        all
    };
    assert_eq!(grown(&[]), expected(2, 2, LEAVES));
    assert_eq!(grown(&[tall]), expected(3, 3, LEAVES));
    assert_eq!(grown(&[broad]), expected(2, 5, LEAVES));
    assert_eq!(grown(&[tall, broad]), expected(3, 5, LEAVES));
    assert_eq!(grown(&[grand]), expected(2, 8, LEAVES));
    assert_eq!(grown(&[grand, broad, tall]), expected(3, 8, LEAVES));
    assert_eq!(grown(&[orange]), expected(2, 2, LEAVES_ORANGE));
    assert_eq!(grown(&[grand, orange]), expected(2, 8, LEAVES_ORANGE));
    assert_eq!(grown(&[grand]).len(), 2 + 6 * 21 + 3 * 5);
    assert_eq!(grown(&[grand, tall]).len(), 3 + 5 * 21 + 4 * 5);
}

#[test]
fn canopy_leaves_the_corners_of_every_layer_empty() {
    let (tall, grand) = (NoiseTest::TallTrunk, NoiseTest::GrandCanopy);
    let chunk = column_chunk(0, 0, vec![DIRT]);
    for tests in [vec![], vec![tall], vec![grand], vec![grand, tall]] {
        let height: i32 = if tests.contains(&tall) { 3 } else { 2 };
        let bush_height: i32 = if tests.contains(&grand) { 8 } else { height };
        let tree =
            Builder::new(registry(), tree_noise(0, 0, &tests)).generate_trees(&chunk);
        for placed in &tree[height as usize..] {
            let Coords3(x, y, z) = placed.voxel;
            let layer = y - height;
            assert!(0 <= layer && layer <= bush_height);
            let wide_rest = if height == 2 { 0 } else { 2 };
            let wide = layer % 3 == 1 || (layer % 3 == wide_rest && layer != bush_height);
            let limit = if wide { 2 } else { 1 };
            assert!(x.abs() <= limit && z.abs() <= limit);
            assert!(!(x.abs() == limit && z.abs() == limit));
        }
        for layer in 0..=bush_height {
            for (x, z) in [(2, 2), (2, -2), (-2, 2), (-2, -2)] {
                assert!(!tree.iter().any(|u| u.voxel == Coords3(x, height + layer, z)));
            }
        }
    }
}

#[test]
fn canopy_has_a_gap_where_the_noise_says_so_but_never_in_the_middle() {
    let gaps = [Coords3(1, 2, 0), Coords3(0, 2, 0), Coords3(0, 4, 0), Coords3(-2, 3, 1), Coords3(1, 4, 1)];
    let mut noise = tree_noise(0, 0, &[]);
    for gap in gaps {
        noise.mark(NoiseTest::CanopyGap, gap);
    }
    noise.mark(NoiseTest::CanopyGap, Coords3(1, 0, 0));
    let chunk = column_chunk(0, 0, vec![DIRT]);
    let tree = Builder::new(registry(), noise).generate_trees(&chunk);
    let mut expected = vec![update(0, 0, 0, TRUNK), update(0, 1, 0, TRUNK)];
    expected.extend(canopy(Coords3(0, 2, 0), 2, 2, LEAVES, &gaps));
    assert_eq!(tree, expected);
    assert_eq!(tree.len(), 49 - 2);
    assert!(tree.contains(&update(0, 2, 0, TRUNK)));
    assert!(tree.contains(&update(0, 4, 0, LEAVES)));
    assert!(!tree.iter().any(|u| u.voxel == Coords3(1, 2, 0)));
    assert!(!tree.iter().any(|u| u.voxel == Coords3(-2, 3, 1)));
}

#[test]
fn build_lists_plants_then_trees_then_lamps() {
    let mut noise = Noise::new();
    noise.mark(NoiseTest::LampSite, Coords3(0, 0, 0));
    noise.mark(NoiseTest::TreeSite, Coords3(0, 0, 0));
    noise.mark(NoiseTest::PlantSite, Coords3(0, 0, 0));
    let chunk = column_chunk(0, 0, vec![DIRT]);
    let builder = Builder::new(registry(), noise);
    let all = builder.build(&chunk);
    let mut expected = builder.generate_plants(&chunk);
    expected.extend(builder.generate_trees(&chunk));
    expected.extend(builder.generate_lamps(&chunk));
    assert_eq!(all, expected);
    assert_eq!(all.len(), 1 + 49 + 1);
    assert_eq!(all[0], update(0, 1, 0, GRASS));
    assert_eq!(all[1], update(0, 0, 0, TRUNK));
    assert_eq!(all[50], update(0, 1, 0, YELLOW));
}

#[test]
fn build_of_a_chunk_that_the_noise_leaves_bare_is_empty() {
    let chunk = column_chunk(0, 0, vec![DIRT]);
    assert_eq!(Builder::new(registry(), Noise::new()).build(&chunk), vec![]);
}

#[test]
fn missing_names_the_first_block_type_that_is_unknown() {
    let missing = |left_out: &[&str]| {
        Builder::new(registry_without(left_out), Noise::new()).missing()
    };
    let error = |feature: Feature, place: usize| Some(BuildError { feature, place });
    assert_eq!(missing(&["Tan Mushroom"]), error(Feature::Plants, 6));
    assert_eq!(missing(&["Dirt", "Grass"]), error(Feature::Plants, 0));
    assert_eq!(missing(&["Brown Grass", "Stone"]), error(Feature::Plants, 3));
    assert_eq!(missing(&["Leaves"]), error(Feature::Trees, 1));
    assert_eq!(missing(&["Stone"]), error(Feature::Lamps, 0));
    assert_eq!(missing(&["Yellow"]), error(Feature::Lamps, 1));
    assert_eq!(missing(&["Yellow", "Leaves Orange"]), error(Feature::Trees, 2));
    assert_eq!(missing(&["Yellow", "Trunk", "Red Mushroom"]), error(Feature::Plants, 5));
    assert_eq!(missing(&["Water"]), None);
    assert_eq!(missing(&[]), None);
}

#[test]
fn builder_that_misses_nothing_builds() {
    let chunk = column_chunk(0, 0, vec![DIRT]);
    let builder = Builder::new(registry_without(&["Water"]), Noise::new());
    assert_eq!(builder.missing(), None);
    assert_eq!(builder.build(&chunk), vec![]);
}

#[test]
fn generating_one_feature_needs_only_its_own_block_types() {
    let chunk = column_chunk(0, 0, vec![DIRT]);
    let mut noise = Noise::new();
    noise.mark(NoiseTest::TreeSite, Coords3(0, 0, 0));
    noise.mark(NoiseTest::LampSite, Coords3(0, 0, 0));
    let builder = Builder::new(registry_without(&["Brown Grass", "Stone"]), noise);
    assert_eq!(builder.generate_trees(&chunk).len(), 49);
    let mut noise = Noise::new();
    noise.mark(NoiseTest::LampSite, Coords3(0, 0, 0));
    let builder = Builder::new(registry_without(&["Brown Grass", "Trunk"]), noise);
    assert_eq!(builder.generate_lamps(&chunk), vec![update(0, 1, 0, YELLOW)]);
}

#[test]
fn chunk_must_fill_its_box() {
    let min = Coords3(0, 0, 0);
    let max = Coords3(1, 2, 0);
    assert!(Chunk::new(min, max, vec![0, 2], vec![0; 6]).is_some());
    assert!(Chunk::new(min, max, vec![0], vec![0; 6]).is_none());
    assert!(Chunk::new(min, max, vec![0, 2], vec![0; 5]).is_none());
    assert!(Chunk::new(min, max, vec![0, 3], vec![0; 6]).is_none());
    assert!(Chunk::new(min, max, vec![-1, 0], vec![0; 6]).is_none());
    assert!(Chunk::new(max, min, vec![0, 2], vec![0; 6]).is_none());
    assert!(Chunk::new(Coords3(0, 0, 0), Coords3(0, -1, 0), vec![], vec![]).is_none());
}

#[test]
fn chunk_must_leave_room_for_decorations() {
    let one = |min: Coords3<i32>, max: Coords3<i32>| {
        Chunk::new(min, max, vec![min.1], vec![0]).is_some()
    };
    let at = |x: i32, y: i32, z: i32| one(Coords3(x, y, z), Coords3(x, y, z));
    assert!(at(i32::MAX - 2, i32::MAX - 11, i32::MAX - 2));
    assert!(at(i32::MIN + 2, i32::MIN, i32::MIN + 2));
    assert!(!at(i32::MAX - 1, 0, 0));
    assert!(!at(0, 0, i32::MAX - 1));
    assert!(!at(i32::MIN + 1, 0, 0));
    assert!(!at(0, 0, i32::MIN + 1));
    assert!(!at(0, i32::MAX - 10, 0));
}

#[test]
fn decorations_at_the_edge_of_the_world_keep_within_it() {
    let mut noise = Noise::new();
    let x = i32::MAX - 2;
    let y = i32::MAX - 11;
    let z = i32::MIN + 2;
    for test in [
        NoiseTest::PlantSite,
        NoiseTest::TreeSite,
        NoiseTest::LampSite,
        NoiseTest::TallTrunk,
        NoiseTest::GrandCanopy,
    ] {
        noise.mark(test, Coords3(x, 0, z));
    }
    let chunk = Chunk::new(Coords3(x, y, z), Coords3(x, y, z), vec![y], vec![DIRT]).unwrap();
    let all = Builder::new(registry(), noise).build(&chunk);
    assert_eq!(all.len(), 1 + 3 + 5 * 21 + 4 * 5 + 1);
    assert_eq!(all[0], update(x, y + 1, z, GRASS));
    assert!(all.contains(&update(x, i32::MAX, z, LEAVES)));
    assert!(all.contains(&update(i32::MAX, y + 4, z, LEAVES)));
    assert!(all.contains(&update(x, y + 4, i32::MIN, LEAVES)));
}

#[test]
fn chunk_answers_for_its_own_voxels_only() {
    let heights = vec![5, 6, 7, 5];
    let voxels: Vec<u32> = (100..112).collect();
    let chunk = Chunk::new(Coords3(-1, 5, 2), Coords3(0, 7, 3), heights, voxels).unwrap();
    assert_eq!(chunk.min(), Coords3(-1, 5, 2));
    assert_eq!(chunk.max(), Coords3(0, 7, 3));
    assert_eq!(chunk.get_max_height(-1, 2), Some(5));
    assert_eq!(chunk.get_max_height(-1, 3), Some(6));
    assert_eq!(chunk.get_max_height(0, 2), Some(7));
    assert_eq!(chunk.get_max_height(0, 3), Some(5));
    assert_eq!(chunk.get_max_height(1, 2), None);
    assert_eq!(chunk.get_max_height(-2, 2), None);
    assert_eq!(chunk.get_max_height(0, 4), None);
    assert_eq!(chunk.get_max_height(0, 1), None);
    assert_eq!(chunk.get_voxel(-1, 5, 2), Some(100));
    assert_eq!(chunk.get_voxel(-1, 7, 2), Some(102));
    assert_eq!(chunk.get_voxel(-1, 5, 3), Some(103));
    assert_eq!(chunk.get_voxel(0, 6, 2), Some(107));
    assert_eq!(chunk.get_voxel(0, 7, 3), Some(111));
    assert_eq!(chunk.get_voxel(0, 8, 3), None);
    assert_eq!(chunk.get_voxel(0, 4, 3), None);
    assert_eq!(chunk.get_voxel(1, 5, 3), None);
    assert_eq!(chunk.get_voxel(0, 5, 4), None);
}

#[test]
fn noise_passes_a_test_where_it_was_marked() {
    let mut noise = Noise::new();
    assert!(!noise.check(NoiseTest::PlantSite, Coords3(0, 0, 0)));
    noise.mark(NoiseTest::PlantSite, Coords3(1, 2, 3));
    noise.mark(NoiseTest::CanopyGap, Coords3(i32::MIN, i32::MAX, -1));
    assert!(noise.check(NoiseTest::PlantSite, Coords3(1, 2, 3)));
    assert!(noise.check(NoiseTest::CanopyGap, Coords3(i32::MIN, i32::MAX, -1)));
    assert!(!noise.check(NoiseTest::TreeSite, Coords3(1, 2, 3)));
    assert!(!noise.check(NoiseTest::PlantSite, Coords3(3, 2, 1)));
    assert!(!noise.check(NoiseTest::PlantSite, Coords3(1, 2, 4)));
    assert!(!noise.check(NoiseTest::PlantSite, Coords3(1, 3, 3)));
    assert!(!noise.check(NoiseTest::PlantSite, Coords3(2, 2, 3)));
    assert!(!noise.check(NoiseTest::CanopyGap, Coords3(i32::MAX, i32::MIN, -1)));
    noise.mark(NoiseTest::PlantSite, Coords3(1, 2, 3));
    assert!(noise.check(NoiseTest::PlantSite, Coords3(1, 2, 3)));
}

#[test]
fn probes_list_every_test_of_every_column_that_can_be_planted() {
    let chunk =
        Chunk::new(Coords3(0, 0, 0), Coords3(0, 1, 1), vec![1, 0], vec![DIRT, STONE, WATER, 0])
            .unwrap();
    let builder = Builder::new(registry(), Noise::new());
    let probes = builder.probes(&chunk);
    assert_eq!(probes.len(), 7 + 5 + 10 * 25);
    let column_tests = [
        NoiseTest::PlantSite,
        NoiseTest::TreeSite,
        NoiseTest::LampSite,
        NoiseTest::TallTrunk,
        NoiseTest::GrandCanopy,
        NoiseTest::BroadCanopy,
        NoiseTest::OrangeLeaves,
    ];
    let plant_tests = [
        NoiseTest::RedMushroom,
        NoiseTest::BrownMushroom,
        NoiseTest::TanGrass,
        NoiseTest::TanMushroom,
        NoiseTest::BrownGrass,
    ];
    for test in column_tests {
        assert!(probes.contains(&Probe { test, at: Coords3(0, 0, 0) }));
        assert!(!probes.contains(&Probe { test, at: Coords3(0, 0, 1) }));
        assert!(!probes.contains(&Probe { test, at: Coords3(0, 2, 0) }));
    }
    for test in plant_tests {
        assert!(probes.contains(&Probe { test, at: Coords3(0, 2, 0) }));
        assert!(!probes.contains(&Probe { test, at: Coords3(0, 1, 0) }));
        assert!(!probes.contains(&Probe { test, at: Coords3(0, 0, 0) }));
    }
    for up in 3..=12 {
        for across in -2..=2 {
            for along in -2..=2 {
                let at = Coords3(across, up, along);
                assert!(probes.contains(&Probe { test: NoiseTest::CanopyGap, at }));
            }
        }
    }
    assert!(!probes.contains(&Probe { test: NoiseTest::CanopyGap, at: Coords3(0, 2, 0) }));
    assert!(!probes.contains(&Probe { test: NoiseTest::CanopyGap, at: Coords3(0, 13, 0) }));
    assert!(!probes.contains(&Probe { test: NoiseTest::CanopyGap, at: Coords3(3, 5, 0) }));
    assert!(!probes.contains(&Probe { test: NoiseTest::CanopyGap, at: Coords3(0, 5, -3) }));
}

#[test]
fn noise_that_answers_the_probes_decides_the_decorations() {
    let chunk = Chunk::new(Coords3(0, 0, 0), Coords3(2, 0, 2), vec![0; 9], vec![DIRT; 9]).unwrap();
    let answer = |probe: &Probe| {
        let Coords3(x, y, z) = probe.at;
        (x * 7 + y * 3 + z * 5 + probe.test as i32).rem_euclid(3) == 0
    };
    let builder = Builder::new(registry(), Noise::new());
    let mut exact = Noise::new();
    let mut wider = Noise::new();
    for probe in builder.probes(&chunk) {
        if answer(&probe) {
            exact.mark(probe.test, probe.at);
            wider.mark(probe.test, probe.at);
        }
    }
    for far in 50..60 {
        wider.mark(NoiseTest::RedMushroom, Coords3(far, 1, far));
        wider.mark(NoiseTest::CanopyGap, Coords3(0, far, 0));
        wider.mark(NoiseTest::TreeSite, Coords3(far, 0, 0));
    }
    let first = builder.build_with(&exact, &chunk);
    let second = builder.build_with(&wider, &chunk);
    assert_eq!(first, second);
    assert!(first.len() > 9);
    assert_eq!(Builder::new(registry(), exact).build(&chunk), first);
}

#[test]
fn build_with_decides_by_the_noise_that_is_given() {
    let chunk = column_chunk(0, 0, vec![DIRT]);
    let mut own = Noise::new();
    own.mark(NoiseTest::PlantSite, Coords3(0, 0, 0));
    let builder = Builder::new(registry(), own);
    let mut given = Noise::new();
    given.mark(NoiseTest::LampSite, Coords3(0, 0, 0));
    assert_eq!(builder.build_with(&given, &chunk), vec![update(0, 1, 0, YELLOW)]);
    assert_eq!(builder.build_with(&Noise::new(), &chunk), vec![]);
    assert_eq!(builder.build(&chunk), vec![update(0, 1, 0, GRASS)]);
}

#[test]
fn recipe_tells_how_each_test_is_made() {
    let recipe = |sampler, spread, factor, octaves, threshold| Recipe {
        sampler,
        spread,
        factor,
        octaves,
        threshold,
    };
    assert_eq!(PARTS, 10_000);
    assert_eq!(
        NoiseTest::PlantSite.recipe(),
        recipe(Sampler::CentralFractalPerlin, Spread::Plants, 10_000, 5, 0)
    );
    assert_eq!(
        NoiseTest::TreeSite.recipe(),
        recipe(Sampler::CentralPerlin, Spread::Trees, 10_000, 0, 0)
    );
    assert_eq!(
        NoiseTest::LampSite.recipe(),
        recipe(Sampler::CentralPerlin, Spread::Fixed, 200, 0, 0)
    );
    assert_eq!(
        NoiseTest::TallTrunk.recipe(),
        recipe(Sampler::Perlin2, Spread::Trees, 53_425, 0, 600)
    );
    assert_eq!(
        NoiseTest::GrandCanopy.recipe(),
        recipe(Sampler::Perlin2, Spread::Fixed, 50, 0, 1_000)
    );
    assert_eq!(
        NoiseTest::BroadCanopy.recipe(),
        recipe(Sampler::Perlin2, Spread::Trees, 14_240, 0, 1_000)
    );
    assert_eq!(NoiseTest::OrangeLeaves.recipe(), NoiseTest::GrandCanopy.recipe());
    assert_eq!(
        NoiseTest::RedMushroom.recipe(),
        recipe(Sampler::FractalPerlin3, Spread::Plants, 24_600, 3, 3_000)
    );
    assert_eq!(
        NoiseTest::BrownMushroom.recipe(),
        recipe(Sampler::FractalPerlin3, Spread::Plants, 108_520, 6, 3_300)
    );
    assert_eq!(
        NoiseTest::TanGrass.recipe(),
        recipe(Sampler::FractalPerlin3, Spread::Plants, 90_120, 4, 3_000)
    );
    assert_eq!(
        NoiseTest::TanMushroom.recipe(),
        recipe(Sampler::FractalPerlin3, Spread::Plants, 64_500, 2, 3_600)
    );
    assert_eq!(
        NoiseTest::BrownGrass.recipe(),
        recipe(Sampler::FractalPerlin3, Spread::Plants, 44_400, 1, 2_500)
    );
    assert_eq!(
        NoiseTest::CanopyGap.recipe(),
        recipe(Sampler::FractalPerlin3, Spread::Trees, 24_100, 9, 4_000)
    );
    assert_eq!(24_600f64 / PARTS as f64, 2.46);
    assert_eq!(53_425f64 / PARTS as f64, 5.3425);
    assert_eq!(108_520f64 / PARTS as f64, 10.852);
    assert_eq!(50f64 / PARTS as f64, 0.005);
    assert_eq!(3_300f64 / PARTS as f64, 0.33);
}
