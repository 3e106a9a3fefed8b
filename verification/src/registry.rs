//! The block registry: the blocks by identifier and by name, the rectangle
//! of every texture in the atlas, and the atlas itself.
use vstd::prelude::*;
use std::collections::HashMap;
use vstd::hash_map::StringHashMap;
use crate::atlas::{
    cell,
    grid_side,
    holds_atlas,
    is_grid_side,
    layout,
    lemma_cell_in_grid,
    lemma_tile_normalized,
    tile_uv,
    TILE,
};
use crate::canvas::{
    blended,
    canvas_pixels,
    clear,
    compose,
    images,
    is_usable,
    lemma_tile_at,
    depicts,
    resampled,
    shows,
    tiles_of,
    usable,
    Canvas,
};
use crate::catalog::{block_views, one_to_one, texts, Catalog, RegistryError};
use crate::types::{Block, BlockView, UV};

verus! {

broadcast use vstd::std_specs::hash::group_hash_axioms;

/// A texture as it was loaded: the source that blocks name it by, and the image.
pub struct Texture {
    pub source: String,
    pub image: image::DynamicImage,
}

/// `place` is the first place in `textures` of a texture of that source.
pub open spec fn first_texture(textures: Seq<Texture>, source: Seq<char>, place: int) -> bool {
    &&& 0 <= place < textures.len()
    &&& textures[place].source@ == source
    &&& forall|j: int| 0 <= j < place ==> (#[trigger] textures[j]).source@ != source
}

/// No texture of that source was supplied.
pub open spec fn no_texture(textures: Seq<Texture>, source: Seq<char>) -> bool {
    forall|j: int| 0 <= j < textures.len() ==> (#[trigger] textures[j]).source@ != source
}

/// The image for a source: that of the first texture of the source.
pub open spec fn image_for(textures: Seq<Texture>, source: Seq<char>) -> image::DynamicImage {
    textures[choose|place: int| first_texture(textures, source, place)].image
}

/// A texture of the source was supplied, and the first such can be made
/// into a tile.
pub open spec fn fits(textures: Seq<Texture>, source: Seq<char>) -> bool {
    !no_texture(textures, source) && usable(image_for(textures, source))
}

/// The images for the sources of a pool, in the order of the pool.
pub open spec fn images_for(textures: Seq<Texture>, pool: Seq<Seq<char>>) -> Seq<
    image::DynamicImage,
> {
    Seq::new(pool.len(), |k: int| image_for(textures, pool[k]))
}

/// The first place of a source is unique.
pub proof fn lemma_first_texture(textures: Seq<Texture>, source: Seq<char>, place: int)
    requires
        first_texture(textures, source, place),
    ensures
        !no_texture(textures, source),
        image_for(textures, source) == textures[place].image,
{
    let other = choose|other: int| first_texture(textures, source, other);
    if other < place {
        assert(textures[other].source@ != source);
    }
    if place < other {
        assert(textures[place].source@ != source);
    }
}

/// The place of the first texture of a source.
pub fn find_texture(textures: &Vec<Texture>, source: &str) -> (found: Option<usize>)
    ensures
        match found {
            Some(place) => first_texture(textures@, source@, place as int),
            None => no_texture(textures@, source@),
        },
{
    let wanted = source.to_owned();
    let mut i: usize = 0;
    while i < textures.len()
        invariant
            i <= textures.len(),
            wanted@ == source@,
            forall|j: int| 0 <= j < i ==> (#[trigger] textures@[j]).source@ != source@,
        decreases textures.len() - i,
    {
        if textures[i].source == wanted {
            return Some(i);
        }
        i = i + 1;
    }
    None
}

/// A registry as a mathematical value: the blocks by identifier, the
/// identifiers by block name, and the rectangles by texture source.
pub ghost struct RegistryView {
    pub blocks: Map<u32, BlockView>,
    pub names: Map<Seq<char>, u32>,
    pub ranges: Map<Seq<char>, UV>,
}

impl RegistryView {
    /// The registry is sound: names and identifiers stand one to one,
    /// every texture source that a block names has a rectangle, every
    /// rectangle lies in the unit square, and no two of them share a pixel.
    pub open spec fn wf(self) -> bool {
        &&& one_to_one(self.blocks, self.names)
        &&& forall|id: u32, k: int| #[trigger]
            self.blocks.contains_key(id) && 0 <= k < self.blocks[id].textures.len()
                ==> self.ranges.contains_key(#[trigger] self.blocks[id].textures[k].source)
        &&& forall|source: Seq<char>| #[trigger]
            self.ranges.contains_key(source) ==> self.ranges[source].normalized()
        &&& forall|one: Seq<char>, other: Seq<char>|
            self.ranges.contains_key(one) && self.ranges.contains_key(other) && one != other ==> (
            #[trigger] self.ranges[one]).disjoint(#[trigger] self.ranges[other])
    }

    /// The block of an identifier.
    pub open spec fn by_id(self, id: u32) -> Option<BlockView> {
        if self.blocks.contains_key(id) {
            Some(self.blocks[id])
        } else {
            None
        }
    }

    /// The identifier of a block name.
    pub open spec fn id_of(self, name: Seq<char>) -> Option<u32> {
        if self.names.contains_key(name) {
            Some(self.names[name])
        } else {
            None
        }
    }

    /// The block of a name: the block of the identifier of the name.
    pub open spec fn by_name(self, name: Seq<char>) -> Option<BlockView> {
        match self.id_of(name) {
            Some(id) => self.by_id(id),
            None => None,
        }
    }

    /// Something can be planted on a voxel of this kind: a block that is
    /// solid and not empty, no fluid, no plant and no light.
    pub open spec fn plantable(self, id: u32) -> bool {
        match self.by_id(id) {
            Some(block) => block.is_solid && !block.is_empty && !block.is_fluid && !block.is_plant
                && !block.is_light,
            None => false,
        }
    }

    /// Every name of the list is the name of a block.
    pub open spec fn knows(self, names: Seq<Seq<char>>) -> bool {
        forall|k: int| 0 <= k < names.len() ==> self.names.contains_key(#[trigger] names[k])
    }

    /// `place` is the first place in the list of a name of no block.
    pub open spec fn first_unknown(self, names: Seq<Seq<char>>, place: int) -> bool {
        &&& 0 <= place < names.len()
        &&& !self.names.contains_key(names[place])
        &&& forall|j: int| 0 <= j < place ==> self.names.contains_key(#[trigger] names[j])
    }
}

/// In a sound registry every block is found under its identifier and under
/// its name, and the two lookups give the same block.
pub proof fn lemma_lookups_agree(registry: RegistryView, id: u32)
    requires
        registry.wf(),
        registry.blocks.contains_key(id),
    ensures
        registry.by_id(id) == Some(registry.blocks[id]),
        registry.id_of(registry.blocks[id].name) == Some(id),
        registry.by_name(registry.blocks[id].name) == registry.by_id(id),
{
}

/// In a sound registry a name that is found leads to a block of that name,
/// the same that its identifier leads to.
pub proof fn lemma_name_leads_to_block(registry: RegistryView, name: Seq<char>)
    requires
        registry.wf(),
        registry.names.contains_key(name),
    ensures
        registry.by_name(name) is Some,
        registry.by_name(name) == registry.by_id(registry.names[name]),
        registry.by_name(name)->Some_0.name == name,
{
}

/// The rectangles are those of the pool: every source of the pool, and
/// nothing else, has a rectangle, that of the tile numbered by its place.
pub open spec fn lays_out(ranges: Map<Seq<char>, UV>, pool: Seq<Seq<char>>, side: nat) -> bool {
    &&& forall|source: Seq<char>| ranges.contains_key(source) <==> pool.contains(source)
    &&& forall|k: int| 0 <= k < pool.len() ==> ranges[#[trigger] pool[k]] == tile_uv(k as nat, side)
}

/// Within the rectangle of a tile the atlas shows the texture of that
/// tile, resampled to a tile and blended onto a clear pixel.
pub proof fn lemma_range_shows_texture(
    atlas: Canvas,
    tiles: Seq<Canvas>,
    textures: Seq<image::DynamicImage>,
    side: nat,
    tile: int,
    x: int,
    y: int,
)
    requires
        shows(atlas, tiles, side),
        tiles_of(tiles, textures),
        side * side >= tiles.len(),
        side * TILE <= u32::MAX,
        0 <= tile < tiles.len(),
        tile_uv(tile as nat, side).start_u <= x < tile_uv(tile as nat, side).end_u,
        tile_uv(tile as nat, side).start_v <= y < tile_uv(tile as nat, side).end_v,
    ensures
        canvas_pixels(atlas)[(x, y)] == blended(
            clear(),
            resampled(textures[tile], TILE as nat)[(
                x - tile_uv(tile as nat, side).start_u,
                y - tile_uv(tile as nat, side).start_v,
            )],
        ),
{
    lemma_tile_normalized(tiles.len(), side, tile as nat);
    lemma_cell_in_grid(tiles.len(), side, tile as nat);
    let (column, row) = cell(tile as nat, side);
    assert(column * TILE + TILE <= side * TILE) by (nonlinear_arith)
        requires
            column < side,
    ;
    assert(row * TILE + TILE <= side * TILE) by (nonlinear_arith)
        requires
            row < side,
    ;
    lemma_tile_at(side, tile as nat, x, y);
    assert(depicts(tiles[tile], textures[tile]));
}

/// The names as mathematical values.
pub open spec fn labels(names: Seq<&str>) -> Seq<Seq<char>> {
    Seq::new(names.len(), |k: int| names[k]@)
}

/// The name of a block type that a caller asked for is the name of no block.
#[derive(Clone, Copy, Debug, PartialEq, Eq)]
pub struct UnknownBlock {
    /// The place of the name in the list that was asked for.
    pub place: usize,
}

/// The block registry.
pub struct Registry {
    atlas: Canvas,
    ranges: StringHashMap<UV>,
    blocks: HashMap<u32, Block>,
    name_map: StringHashMap<u32>,
    sources: Vec<String>,
}

impl Registry {
    pub closed spec fn view(&self) -> RegistryView {
        RegistryView {
            blocks: block_views(self.blocks@),
            names: self.name_map@,
            ranges: self.ranges@,
        }
    }

    /// The atlas of the registry.
    pub closed spec fn atlas_view(&self) -> Canvas {
        self.atlas
    }

    /// The texture sources of the registry, in the order of their tiles.
    pub closed spec fn pool(&self) -> Seq<Seq<char>> {
        texts(self.sources@)
    }

    /// The block that is stored under an identifier.
    pub closed spec fn stored(&self, id: u32) -> Option<Block> {
        if self.blocks@.contains_key(id) {
            Some(self.blocks@[id])
        } else {
            None
        }
    }

    #[verifier::type_invariant]
    closed spec fn sound(&self) -> bool {
        self@.wf()
    }

    /// Makes the registry of a catalog. `textures` holds the textures that
    /// were loaded; for each source of the catalog's pool the first texture
    /// of that source is taken. The textures are laid out in the order of
    /// the pool, in a square grid whose side is the least even number that
    /// holds them all, and the atlas is composed of them, each resampled to
    /// a tile. The first source
    /// of the pool that has no texture, or one that cannot be made into a
    /// tile, is the error; after those, an atlas too large to be held.
    pub fn new(catalog: Catalog, textures: &Vec<Texture>) -> (outcome: Result<
        Registry,
        RegistryError,
    >)
        ensures
            match outcome {
                Ok(registry) => {
                    &&& registry@.blocks == catalog@.blocks
                    &&& registry@.names == catalog@.names
                    &&& registry.pool() == catalog@.pool
                    &&& forall|k: int|
                        0 <= k < catalog@.pool.len() ==> fits(textures@, #[trigger] catalog@.pool[k])
                    &&& exists|side: nat, tiles: Seq<Canvas>|
                        {
                            &&& is_grid_side(catalog@.pool.len(), side)
                            &&& holds_atlas(side)
                            &&& lays_out(registry@.ranges, catalog@.pool, side)
                            &&& tiles_of(tiles, images_for(textures@, catalog@.pool))
                            &&& #[trigger] shows(registry.atlas_view(), tiles, side)
                        }
                    &&& registry@.wf()
                },
                Err(RegistryError::MissingTexture(slot)) => {
                    &&& slot < catalog@.pool.len()
                    &&& no_texture(textures@, catalog@.pool[slot as int])
                    &&& forall|k: int| 0 <= k < slot ==> fits(textures@, #[trigger] catalog@.pool[k])
                },
                Err(RegistryError::UnusableTexture(slot)) => {
                    &&& slot < catalog@.pool.len()
                    &&& !no_texture(textures@, catalog@.pool[slot as int])
                    &&& !usable(image_for(textures@, catalog@.pool[slot as int]))
                    &&& forall|k: int| 0 <= k < slot ==> fits(textures@, #[trigger] catalog@.pool[k])
                },
                Err(RegistryError::AtlasTooLarge) => {
                    &&& forall|k: int|
                        0 <= k < catalog@.pool.len() ==> fits(textures@, #[trigger] catalog@.pool[k])
                    &&& forall|side: nat|
                        is_grid_side(catalog@.pool.len(), side) ==> !holds_atlas(side)
                },
                Err(_) => false,
            },
    {
        let ghost wanted = catalog@.pool;
        let (blocks, name_map, pool) = catalog.into_parts();
        let mut pictures: Vec<&image::DynamicImage> = Vec::new();
        let mut slot: usize = 0;
        while slot < pool.len()
            invariant
                slot <= pool.len(),
                wanted == texts(pool@),
                wanted == catalog@.pool,
                pictures@.len() == slot,
                forall|k: int| 0 <= k < slot ==> fits(textures@, #[trigger] wanted[k]),
                forall|k: int|
                    0 <= k < slot ==> *(#[trigger] pictures@[k]) == image_for(textures@, wanted[k]),
            decreases pool.len() - slot,
        {
            assert(wanted[slot as int] == pool@[slot as int]@);
            match find_texture(textures, pool[slot].as_str()) {
                None => {
                    return Err(RegistryError::MissingTexture(slot));
                },
                Some(place) => {
                    proof {
                        lemma_first_texture(textures@, wanted[slot as int], place as int);
                    }
                    if !is_usable(&textures[place].image) {
                        return Err(RegistryError::UnusableTexture(slot));
                    }
                    pictures.push(&textures[place].image);
                },
            }
            slot = slot + 1;
        }
        let side = match grid_side(pool.len()) {
            Some(side) => side,
            None => {
                return Err(RegistryError::AtlasTooLarge);
            },
        };
        let tiles = layout(pool.len(), side);
        let mut ranges: StringHashMap<UV> = StringHashMap::new();
        let mut k: usize = 0;
        while k < pool.len()
            invariant
                k <= pool.len(),
                wanted == texts(pool@),
                wanted.no_duplicates(),
                tiles@.len() == pool@.len(),
                forall|source: Seq<char>|
                    ranges@.contains_key(source) <==> wanted.take(k as int).contains(source),
                forall|j: int|
                    0 <= j < k ==> ranges@.contains_key(#[trigger] wanted[j]) && ranges@[wanted[j]]
                        == tiles@[j],
            decreases pool.len() - k,
        {
            let ghost before = ranges@;
            ranges.insert(pool[k].clone(), tiles[k]);
            proof {
                let source = wanted[k as int];
                assert(source == pool@[k as int]@);
                assert(wanted.take(k as int + 1) =~= wanted.take(k as int).push(source));
                assert forall|other: Seq<char>|
                    ranges@.contains_key(other) <==> wanted.take(k as int + 1).contains(other) by {
                    if wanted.take(k as int).contains(other) {
                        let at = choose|at: int|
                            0 <= at < k && wanted.take(k as int)[at] == other;
                        assert(wanted.take(k as int + 1)[at] == other);
                    }
                    if other == source {
                        assert(wanted.take(k as int + 1)[k as int] == other);
                    }
                }
                assert forall|j: int| 0 <= j < k + 1 implies ranges@.contains_key(
                    #[trigger] wanted[j],
                ) && ranges@[wanted[j]] == tiles@[j] by {
                    if j < k {
                        assert(wanted[j] != wanted[k as int]);
                    }
                }
            }
            k = k + 1;
        }
        let atlas = compose(&pictures, side);
        let ghost patches = choose|patches: Seq<Canvas>|
            tiles_of(patches, images(pictures@)) && #[trigger] shows(atlas, patches, side as nat);
        proof {
            assert(wanted.take(pool@.len() as int) =~= wanted);
            assert(images(pictures@) =~= images_for(textures@, wanted));
            assert(lays_out(ranges@, wanted, side as nat));
            let view = RegistryView {
                blocks: block_views(blocks@),
                names: name_map@,
                ranges: ranges@,
            };
            assert forall|id: u32, face: int| #[trigger]
                view.blocks.contains_key(id) && 0 <= face < view.blocks[id].textures.len() implies (
            view.ranges.contains_key(#[trigger] view.blocks[id].textures[face].source)) by {
                assert(wanted.contains(view.blocks[id].textures[face].source));
            }
            assert forall|source: Seq<char>| #[trigger]
                view.ranges.contains_key(source) implies view.ranges[source].normalized() by {
                let at = choose|at: int| 0 <= at < wanted.len() && wanted[at] == source;
                assert(view.ranges[wanted[at]] == tiles@[at]);
            }
            assert forall|one: Seq<char>, other: Seq<char>|
                view.ranges.contains_key(one) && view.ranges.contains_key(other) && one
                    != other implies (#[trigger] view.ranges[one]).disjoint(
                #[trigger] view.ranges[other],
            ) by {
                let a = choose|a: int| 0 <= a < wanted.len() && wanted[a] == one;
                let b = choose|b: int| 0 <= b < wanted.len() && wanted[b] == other;
                assert(view.ranges[wanted[a]] == tiles@[a]);
                assert(view.ranges[wanted[b]] == tiles@[b]);
            }
        }
        let registry = Registry { atlas, ranges, blocks, name_map, sources: pool };
        proof {
            assert(is_grid_side(catalog@.pool.len(), side as nat));
            assert(holds_atlas(side as nat));
            assert(lays_out(registry@.ranges, catalog@.pool, side as nat));
            assert(tiles_of(patches, images_for(textures@, catalog@.pool)));
            assert(shows(registry.atlas_view(), patches, side as nat));
        }
        Ok(registry)
    }

    /// The identifiers of the named block types, each under its name. Where
    /// a name of the list is the name of no block, the first such is the
    /// error.
    pub fn get_type_map(&self, names: &Vec<&str>) -> (outcome: Result<
        StringHashMap<u32>,
        UnknownBlock,
    >)
        ensures
            match outcome {
                Ok(types) => {
                    &&& self@.knows(labels(names@))
                    &&& forall|name: Seq<char>|
                        types@.contains_key(name) <==> labels(names@).contains(name)
                    &&& forall|name: Seq<char>| #[trigger]
                        types@.contains_key(name) ==> self@.names.contains_key(name)
                            && self@.names[name] == types@[name]
                },
                Err(unknown) => self@.first_unknown(labels(names@), unknown.place as int),
            },
    {
        let ghost asked = labels(names@);
        let mut types: StringHashMap<u32> = StringHashMap::new();
        let mut k: usize = 0;
        while k < names.len()
            invariant
                k <= names.len(),
                asked == labels(names@),
                forall|j: int| 0 <= j < k ==> self@.names.contains_key(#[trigger] asked[j]),
                forall|name: Seq<char>|
                    types@.contains_key(name) <==> asked.take(k as int).contains(name),
                forall|name: Seq<char>| #[trigger]
                    types@.contains_key(name) ==> self@.names.contains_key(name)
                        && self@.names[name] == types@[name],
            decreases names.len() - k,
        {
            assert(asked[k as int] == names@[k as int]@);
            match self.get_id_by_name(names[k]) {
                None => {
                    return Err(UnknownBlock { place: k });
                },
                Some(id) => {
                    types.insert(names[k].to_owned(), id);
                    proof {
                        let name = asked[k as int];
                        assert(asked.take(k as int + 1) =~= asked.take(k as int).push(name));
                        assert forall|other: Seq<char>|
                            types@.contains_key(other) <==> asked.take(k as int + 1).contains(
                                other,
                            ) by {
                            if asked.take(k as int).contains(other) {
                                let at = choose|at: int|
                                    0 <= at < k && asked.take(k as int)[at] == other;
                                assert(asked.take(k as int + 1)[at] == other);
                            }
                            if other == name {
                                assert(asked.take(k as int + 1)[k as int] == other);
                            }
                        }
                    }
                },
            }
            k = k + 1;
        }
        assert(asked.take(names@.len() as int) =~= asked);
        Ok(types)
    }

    /// The block of an identifier, if there is one.
    pub fn get_block_by_id(&self, id: u32) -> (found: Option<&Block>)
        ensures
            match found {
                Some(block) => self.stored(id) == Some(*block) && self@.by_id(id) == Some(block@),
                None => self.stored(id) is None && self@.by_id(id) is None,
            },
    {
        self.blocks.get(&id)
    }

    /// The identifier of a block name, if there is a block of that name.
    pub fn get_id_by_name(&self, name: &str) -> (found: Option<u32>)
        ensures
            found == self@.id_of(name@),
    {
        match self.name_map.get(name) {
            Some(id) => Some(*id),
            None => None,
        }
    }

    /// The block of a name, if there is one: the block that
    /// `get_block_by_id` gives for the identifier of the name.
    pub fn get_block_by_name(&self, name: String) -> (found: Option<&Block>)
        ensures
            match found {
                Some(block) => self@.by_name(name@) == Some(block@) && block.name@ == name@,
                None => self@.by_name(name@) is None && self@.id_of(name@) is None,
            },
            match self@.id_of(name@) {
                Some(id) => found is Some && self.stored(id) == Some(*found->Some_0),
                None => found is None,
            },
            self@.wf(),
    {
        proof {
            use_type_invariant(self);
        }
        match self.name_map.get(name.as_str()) {
            Some(id) => self.get_block_by_id(*id),
            None => None,
        }
    }

    /// Whether something can be planted on a voxel of this kind.
    pub fn is_plantable(&self, id: u32) -> (plantable: bool)
        ensures
            plantable == self@.plantable(id),
    {
        match self.get_block_by_id(id) {
            Some(block) => block.is_solid && !block.is_empty && !block.is_fluid && !block.is_plant
                && !block.is_light,
            None => false,
        }
    }

    /// The rectangle of a texture source in the atlas, if the source has one.
    pub fn get_uv(&self, source: &str) -> (found: Option<UV>)
        ensures
            match found {
                Some(uv) => self@.ranges.contains_key(source@) && self@.ranges[source@] == uv
                    && uv.normalized(),
                None => !self@.ranges.contains_key(source@),
            },
    {
        proof {
            use_type_invariant(self);
        }
        match self.ranges.get(source) {
            Some(uv) => Some(*uv),
            None => None,
        }
    }

    /// The texture sources that have a rectangle, in the order of their tiles.
    pub fn sources(&self) -> (sources: &Vec<String>)
        ensures
            texts(sources@) == self.pool(),
    {
        &self.sources
    }

    /// The atlas.
    pub fn atlas(&self) -> (atlas: &Canvas)
        ensures
            *atlas == self.atlas_view(),
    {
        &self.atlas
    }
}

} // verus!
