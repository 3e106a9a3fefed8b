//! The catalog of blocks: what the block index and the block definitions
//! say, before any texture is loaded.
use vstd::prelude::*;
use std::collections::HashMap;
use vstd::hash_map::StringHashMap;
use vstd::hash_set::StringHashSet;
use crate::block::{decode, decoded, Field};
use crate::document::{find, lookup, members_view, merged, Document, Json, JsonMember, Member};
use crate::ident::{id_value, parse_id};
use crate::json::{json_syntax, parse};
use crate::types::{Block, BlockView, Face, FaceView};

verus! {

broadcast use vstd::std_specs::hash::group_hash_axioms;

/// What is wrong with an entry of the block index.
#[derive(Clone, Copy, Debug, PartialEq, Eq)]
pub enum Problem {
    /// The entry does not name a definition file.
    NotAFile,
    /// The definition file that the entry names was not supplied.
    MissingFile,
    /// The base that the definition names was not supplied.
    MissingBase,
    /// The definition lacks a field, or holds a value of the wrong kind in it.
    Field(Field),
    /// The key of the entry is no block identifier.
    InvalidId,
    /// An earlier entry has the same identifier.
    DuplicateId,
    /// An earlier entry has a block of the same name.
    DuplicateName,
}

/// Why no registry could be made.
#[derive(Clone, Copy, Debug, PartialEq, Eq)]
pub enum RegistryError {
    /// The text of the block index is not valid JSON.
    MalformedIndex,
    /// The text of the definition at this place is not valid JSON.
    MalformedDefinition(usize),
    /// The block index is not an object.
    InvalidIndex,
    /// The entry at this place of the block index cannot be used.
    InvalidEntry { entry: usize, problem: Problem },
    /// No texture was supplied for the source at this place of the pool.
    MissingTexture(usize),
    /// The texture for the source at this place of the pool is empty or too wide.
    UnusableTexture(usize),
    /// The atlas would be larger than an image can be.
    AtlasTooLarge,
}

/// A catalog as a mathematical value: the blocks by identifier, the
/// identifiers by block name, and the texture sources in the order in which
/// the blocks first name them.
pub ghost struct CatalogView {
    pub blocks: Map<u32, BlockView>,
    pub names: Map<Seq<char>, u32>,
    pub pool: Seq<Seq<char>>,
}

/// The key under which a definition names its base.
pub open spec fn base_key() -> Seq<char> {
    "base"@
}

/// The pool with the sources of `faces` added, each once, in their order.
pub open spec fn pooled(pool: Seq<Seq<char>>, faces: Seq<FaceView>) -> Seq<Seq<char>>
    decreases faces.len(),
{
    if faces.len() == 0 {
        pool
    } else {
        let before = pooled(pool, faces.drop_last());
        if before.contains(faces.last().source) {
            before
        } else {
            before.push(faces.last().source)
        }
    }
}

/// A definition laid over its base, where it names one.
pub open spec fn resolved(definition: Json, definitions: Seq<JsonMember>) -> Result<Json, Problem> {
    match definition.get(base_key()) {
        Some(Json::Text(base)) => match lookup(definitions, base) {
            Some(below) => Ok(merged(definition, below)),
            None => Err(Problem::MissingBase),
        },
        _ => Ok(definition),
    }
}

/// The block of an entry of the index, with its identifier. An entry whose
/// definition has no textures gives no block, and its key is not read.
pub open spec fn entry_block(entry: JsonMember, definitions: Seq<JsonMember>) -> Result<
    Option<(u32, BlockView)>,
    Problem,
> {
    match entry.value {
        Json::Text(file) => match lookup(definitions, file) {
            None => Err(Problem::MissingFile),
            Some(definition) => match resolved(definition, definitions) {
                Err(problem) => Err(problem),
                Ok(full) => match decoded(full) {
                    Err(field) => Err(Problem::Field(field)),
                    Ok(None) => Ok(None),
                    Ok(Some(block)) => match id_value(entry.key) {
                        None => Err(Problem::InvalidId),
                        Some(id) => Ok(Some((id, block))),
                    },
                },
            },
        },
        _ => Err(Problem::NotAFile),
    }
}

/// The catalog with one more block. An identifier or a name that the
/// catalog has already is refused.
pub open spec fn enrolled(catalog: CatalogView, id: u32, block: BlockView) -> Result<
    CatalogView,
    Problem,
> {
    if catalog.blocks.contains_key(id) {
        Err(Problem::DuplicateId)
    } else if catalog.names.contains_key(block.name) {
        Err(Problem::DuplicateName)
    } else {
        Ok(
            CatalogView {
                blocks: catalog.blocks.insert(id, block),
                names: catalog.names.insert(block.name, id),
                pool: pooled(catalog.pool, block.textures),
            },
        )
    }
}

/// The catalog with nothing in it.
pub open spec fn empty_catalog() -> CatalogView {
    CatalogView { blocks: Map::empty(), names: Map::empty(), pool: Seq::empty() }
}

/// The catalog of the first `count` entries of the index, or the problem
/// of the first entry that has one.
pub open spec fn catalog_of(
    entries: Seq<JsonMember>,
    definitions: Seq<JsonMember>,
    count: nat,
) -> Result<CatalogView, RegistryError>
    decreases count,
{
    if count == 0 {
        Ok(empty_catalog())
    } else {
        let entry = (count - 1) as usize;
        match catalog_of(entries, definitions, (count - 1) as nat) {
            Err(error) => Err(error),
            Ok(catalog) => match entry_block(entries[count - 1], definitions) {
                Err(problem) => Err(RegistryError::InvalidEntry { entry, problem }),
                Ok(None) => Ok(catalog),
                Ok(Some((id, block))) => match enrolled(catalog, id, block) {
                    Err(problem) => Err(RegistryError::InvalidEntry { entry, problem }),
                    Ok(next) => Ok(next),
                },
            },
        }
    }
}

/// The catalog of a block index and the definitions supplied with it.
pub open spec fn cataloged(index: Json, definitions: Seq<JsonMember>) -> Result<
    CatalogView,
    RegistryError,
> {
    match index {
        Json::Object(entries) => catalog_of(entries, definitions, entries.len()),
        _ => Err(RegistryError::InvalidIndex),
    }
}

/// Names and identifiers stand one to one: every name leads to a block of
/// that name, and the name of every block leads to its identifier.
pub open spec fn one_to_one(blocks: Map<u32, BlockView>, names: Map<Seq<char>, u32>) -> bool {
    &&& forall|name: Seq<char>| #[trigger]
        names.contains_key(name) ==> blocks.contains_key(names[name]) && blocks[names[name]].name
            == name
    &&& forall|id: u32| #[trigger]
        blocks.contains_key(id) ==> names.contains_key(blocks[id].name) && names[blocks[id].name]
            == id
}

impl CatalogView {
    /// Names and identifiers stand one to one.
    pub open spec fn bijective(self) -> bool {
        one_to_one(self.blocks, self.names)
    }

    /// Every texture source that a block names stands in the pool.
    pub open spec fn covered(self) -> bool {
        forall|id: u32, k: int| #[trigger]
            self.blocks.contains_key(id) && 0 <= k < self.blocks[id].textures.len()
                ==> self.pool.contains(#[trigger] self.blocks[id].textures[k].source)
    }

    /// The catalog is sound: names and identifiers stand one to one, the
    /// pool holds every source that a block names, and none twice.
    pub open spec fn wf(self) -> bool {
        &&& self.bijective()
        &&& self.covered()
        &&& self.pool.no_duplicates()
    }
}

/// One of the faces names the source.
pub open spec fn names_source(faces: Seq<FaceView>, source: Seq<char>) -> bool {
    exists|k: int| 0 <= k < faces.len() && (#[trigger] faces[k]).source == source
}

/// Adding the sources of faces keeps what the pool held, in place, adds
/// every source of the faces and nothing else, and adds nothing twice.
pub proof fn lemma_pooled(pool: Seq<Seq<char>>, faces: Seq<FaceView>)
    requires
        pool.no_duplicates(),
    ensures
        pooled(pool, faces).no_duplicates(),
        pool.len() <= pooled(pool, faces).len(),
        forall|i: int| 0 <= i < pool.len() ==> pooled(pool, faces)[i] == pool[i],
        forall|k: int| 0 <= k < faces.len() ==> pooled(pool, faces).contains(#[trigger] faces[k].source),
        forall|i: int|
            pool.len() <= i < pooled(pool, faces).len() ==> names_source(
                faces,
                #[trigger] pooled(pool, faces)[i],
            ),
    decreases faces.len(),
{
    if faces.len() > 0 {
        let front = faces.drop_last();
        let before = pooled(pool, front);
        let after = pooled(pool, faces);
        let source = faces.last().source;
        lemma_pooled(pool, front);
        assert forall|k: int| 0 <= k < faces.len() implies after.contains(
            #[trigger] faces[k].source,
        ) by {
            if k < front.len() {
                assert(front[k] == faces[k]);
                let at = choose|at: int| 0 <= at < before.len() && before[at] == front[k].source;
                assert(after[at] == front[k].source);
            } else if before.contains(source) {
            } else {
                assert(after[before.len() as int] == source);
            }
        }
        assert forall|i: int| pool.len() <= i < after.len() implies names_source(
            faces,
            #[trigger] after[i],
        ) by {
            if i < before.len() {
                assert(names_source(front, before[i]));
                let k = choose|k: int|
                    0 <= k < front.len() && (#[trigger] front[k]).source == before[i];
                assert(faces[k] == front[k]);
            } else {
                assert(faces[faces.len() - 1].source == after[i]);
            }
        }
    }
}

/// Enrolling a block keeps a sound catalog sound.
pub proof fn lemma_enrolled_wf(catalog: CatalogView, id: u32, block: BlockView)
    requires
        catalog.wf(),
        enrolled(catalog, id, block) is Ok,
    ensures
        enrolled(catalog, id, block)->Ok_0.wf(),
{
    let next = enrolled(catalog, id, block)->Ok_0;
    lemma_pooled(catalog.pool, block.textures);
    assert forall|name: Seq<char>| #[trigger] next.names.contains_key(name) implies (
    next.blocks.contains_key(next.names[name]) && next.blocks[next.names[name]].name == name) by {
        if name != block.name {
            assert(catalog.names.contains_key(name));
        }
    }
    assert forall|other: u32| #[trigger] next.blocks.contains_key(other) implies (
    next.names.contains_key(next.blocks[other].name) && next.names[next.blocks[other].name]
        == other) by {
        if other != id {
            assert(catalog.blocks.contains_key(other));
        }
    }
    assert forall|other: u32, k: int| #[trigger]
        next.blocks.contains_key(other) && 0 <= k < next.blocks[other].textures.len() implies (
    next.pool.contains(#[trigger] next.blocks[other].textures[k].source)) by {
        if other != id {
            assert(catalog.blocks.contains_key(other));
            let source = catalog.blocks[other].textures[k].source;
            assert(catalog.pool.contains(source));
            let at = choose|at: int| 0 <= at < catalog.pool.len() && catalog.pool[at] == source;
            assert(next.pool[at] == source);
        }
    }
}

/// The catalog of any number of entries is sound.
pub proof fn lemma_catalog_wf(entries: Seq<JsonMember>, definitions: Seq<JsonMember>, count: nat)
    ensures
        catalog_of(entries, definitions, count) matches Ok(catalog) ==> catalog.wf(),
    decreases count,
{
    if count > 0 {
        lemma_catalog_wf(entries, definitions, (count - 1) as nat);
        match catalog_of(entries, definitions, (count - 1) as nat) {
            Ok(catalog) => match entry_block(entries[count - 1], definitions) {
                Ok(Some((id, block))) => {
                    if enrolled(catalog, id, block) is Ok {
                        lemma_enrolled_wf(catalog, id, block);
                    }
                },
                _ => {},
            },
            _ => {},
        }
    }
}

/// The problem of an entry stays the outcome, whatever entries follow.
pub proof fn lemma_catalog_fails(
    entries: Seq<JsonMember>,
    definitions: Seq<JsonMember>,
    count: nat,
    more: nat,
)
    requires
        count <= more,
        catalog_of(entries, definitions, count) is Err,
    ensures
        catalog_of(entries, definitions, more) == catalog_of(entries, definitions, count),
    decreases more,
{
    if count < more {
        lemma_catalog_fails(entries, definitions, count, (more - 1) as nat);
    }
}

/// A block of the catalog comes from an entry of the index: one whose
/// definition decodes to that block, so that it has textures, and whose key
/// is the block's identifier.
pub proof fn lemma_block_from_entry(
    entries: Seq<JsonMember>,
    definitions: Seq<JsonMember>,
    count: nat,
    id: u32,
) -> (place: int)
    requires
        catalog_of(entries, definitions, count) is Ok,
        catalog_of(entries, definitions, count)->Ok_0.blocks.contains_key(id),
    ensures
        0 <= place < count,
        entry_block(entries[place], definitions) == Ok::<Option<(u32, BlockView)>, Problem>(
            Some((id, catalog_of(entries, definitions, count)->Ok_0.blocks[id])),
        ),
    decreases count,
{
    let before = catalog_of(entries, definitions, (count - 1) as nat)->Ok_0;
    match entry_block(entries[count - 1], definitions) {
        Ok(Some((last, block))) => {
            if last == id {
                count - 1
            } else {
                lemma_block_from_entry(entries, definitions, (count - 1) as nat, id)
            }
        },
        _ => lemma_block_from_entry(entries, definitions, (count - 1) as nat, id),
    }
}

/// An entry whose definition has no textures leaves the catalog as it was:
/// it adds no block, no name and no texture source.
pub proof fn lemma_skip(entries: Seq<JsonMember>, definitions: Seq<JsonMember>, count: nat)
    requires
        count > 0,
        entry_block(entries[count - 1], definitions) == Ok::<Option<(u32, BlockView)>, Problem>(
            None,
        ),
    ensures
        catalog_of(entries, definitions, count) == catalog_of(
            entries,
            definitions,
            (count - 1) as nat,
        ),
{
}

/// The entry of a block in the catalog.
pub proof fn lemma_entry_in_catalog(
    entries: Seq<JsonMember>,
    definitions: Seq<JsonMember>,
    count: nat,
    place: int,
)
    requires
        0 <= place < count,
        catalog_of(entries, definitions, count) is Ok,
        entry_block(entries[place], definitions) matches Ok(Some(_)),
    ensures
        ({
            let (id, block) = entry_block(entries[place], definitions)->Ok_0->Some_0;
            let catalog = catalog_of(entries, definitions, count)->Ok_0;
            catalog.blocks.contains_key(id) && catalog.blocks[id] == block
        }),
    decreases count,
{
    if place < count - 1 {
        lemma_entry_in_catalog(entries, definitions, (count - 1) as nat, place);
    }
}

/// The blocks of a map as mathematical values.
pub open spec fn block_views(blocks: Map<u32, Block>) -> Map<u32, BlockView> {
    Map::new(|id: u32| blocks.contains_key(id), |id: u32| blocks[id]@)
}

/// The strings as mathematical values.
pub open spec fn texts(strings: Seq<String>) -> Seq<Seq<char>> {
    Seq::new(strings.len(), |i: int| strings[i]@)
}

/// The block of an entry of the index, with its identifier.
fn entry(member: &Member, definitions: &Vec<Member>) -> (outcome: Result<
    Option<(u32, Block)>,
    Problem,
>)
    ensures
        match outcome {
            Ok(Some((id, block))) => entry_block(member@, members_view(definitions@)) == Ok::<
                Option<(u32, BlockView)>,
                Problem,
            >(Some((id, block@))),
            Ok(None) => entry_block(member@, members_view(definitions@)) == Ok::<
                Option<(u32, BlockView)>,
                Problem,
            >(None),
            Err(problem) => entry_block(member@, members_view(definitions@)) == Err::<
                Option<(u32, BlockView)>,
                Problem,
            >(problem),
        },
{
    let file = match &member.value {
        Document::Text(file) => file,
        _ => {
            return Err(Problem::NotAFile);
        },
    };
    let definition = match find(definitions, file.as_str()) {
        Some(definition) => definition,
        None => {
            return Err(Problem::MissingFile);
        },
    };
    let outcome = match definition.get("base") {
        Some(Document::Text(base)) => match find(definitions, base.as_str()) {
            Some(below) => {
                let full = Document::merge(definition, below);
                decode(&full)
            },
            None => {
                return Err(Problem::MissingBase);
            },
        },
        _ => decode(definition),
    };
    match outcome {
        Err(field) => Err(Problem::Field(field)),
        Ok(None) => Ok(None),
        Ok(Some(block)) => match parse_id(member.key.as_str()) {
            None => Err(Problem::InvalidId),
            Some(id) => Ok(Some((id, block))),
        },
    }
}

/// The file that an entry still needs: the definition that it names,
/// where that was not read yet, and else the base that the definition
/// names, where that was not read yet.
pub open spec fn needed(entry: JsonMember, definitions: Seq<JsonMember>) -> Option<Seq<char>> {
    match entry.value {
        Json::Text(file) => match lookup(definitions, file) {
            None => Some(file),
            Some(definition) => match definition.get(base_key()) {
                Some(Json::Text(base)) => if lookup(definitions, base) is None {
                    Some(base)
                } else {
                    None
                },
                _ => None,
            },
        },
        _ => None,
    }
}

/// The entry at `place` is the first that still needs a file.
pub open spec fn first_needing(
    entries: Seq<JsonMember>,
    definitions: Seq<JsonMember>,
    place: int,
) -> bool {
    &&& 0 <= place < entries.len()
    &&& needed(entries[place], definitions) is Some
    &&& forall|j: int| 0 <= j < place ==> needed(#[trigger] entries[j], definitions) is None
}

/// The first entry that still needs a file needs the file of this name.
pub open spec fn asks_for(
    entries: Seq<JsonMember>,
    definitions: Seq<JsonMember>,
    name: Seq<char>,
) -> bool {
    exists|place: int| #[trigger]
        first_needing(entries, definitions, place) && needed(entries[place], definitions)
            == Some(name)
}

/// No entry needs a file: every definition that the index names was read,
/// and so was every base that one of them names.
pub open spec fn complete(entries: Seq<JsonMember>, definitions: Seq<JsonMember>) -> bool {
    forall|i: int| 0 <= i < entries.len() ==> needed(#[trigger] entries[i], definitions) is None
}

/// Where no entry needs a file, no entry fails for want of one.
pub proof fn lemma_complete(entries: Seq<JsonMember>, definitions: Seq<JsonMember>, place: int)
    requires
        complete(entries, definitions),
        0 <= place < entries.len(),
    ensures
        entry_block(entries[place], definitions) != Err::<Option<(u32, BlockView)>, Problem>(
            Problem::MissingFile,
        ),
        entry_block(entries[place], definitions) != Err::<Option<(u32, BlockView)>, Problem>(
            Problem::MissingBase,
        ),
{
    assert(needed(entries[place], definitions) is None);
}

/// The name of the next file to read for a block index, given the
/// definitions read so far: what the first entry that needs a file needs.
/// Nothing where no entry needs a file, or the index is no object.
pub fn next_file(index: &Document, definitions: &Vec<Member>) -> (file: Option<String>)
    ensures
        match index@ {
            Json::Object(entries) => match file {
                Some(name) => asks_for(entries, members_view(definitions@), name@),
                None => complete(entries, members_view(definitions@)),
            },
            _ => file is None,
        },
{
    let entries = match index {
        Document::Object(entries) => entries,
        _ => {
            return None;
        },
    };
    let ghost listed = members_view(entries@);
    let ghost read = members_view(definitions@);
    assert(index@->Object_0 =~= listed);
    let mut i: usize = 0;
    while i < entries.len()
        invariant
            i <= entries.len(),
            listed == members_view(entries@),
            read == members_view(definitions@),
            index@ == Json::Object(listed),
            forall|j: int| 0 <= j < i ==> needed(#[trigger] listed[j], read) is None,
        decreases entries.len() - i,
    {
        assert(listed[i as int] == entries@[i as int]@);
        match &entries[i].value {
            Document::Text(file) => match find(definitions, file.as_str()) {
                None => {
                    proof {
                        assert(listed[i as int].value == Json::Text(file@));
                        assert(needed(listed[i as int], read) == Some(file@));
                        assert(first_needing(listed, read, i as int));
                        assert(asks_for(listed, read, file@));
                    }
                    return Some(file.clone());
                },
                Some(definition) => match definition.get("base") {
                    Some(Document::Text(base)) => {
                        if find(definitions, base.as_str()).is_none() {
                            proof {
                                assert(listed[i as int].value == Json::Text(file@));
                                assert(definition@.get(base_key()) == Some(Json::Text(base@)));
                                assert(needed(listed[i as int], read) == Some(base@));
                                assert(first_needing(listed, read, i as int));
                                assert(asks_for(listed, read, base@));
                            }
                            return Some(base.clone());
                        }
                    },
                    _ => {},
                },
            },
            _ => {},
        }
        i = i + 1;
    }
    None
}

/// A file as it was read: its name and its text.
#[derive(Debug, PartialEq, Eq)]
pub struct Source {
    pub file: String,
    pub text: String,
}

/// The text of the file at `place` is the first that is not valid JSON.
pub open spec fn first_malformed(sources: Seq<Source>, place: int) -> bool {
    &&& 0 <= place < sources.len()
    &&& json_syntax(sources[place].text@) is None
    &&& forall|j: int| 0 <= j < place ==> json_syntax((#[trigger] sources[j]).text@) is Some
}

/// The text of every file is valid JSON.
pub open spec fn all_parse(sources: Seq<Source>) -> bool {
    forall|j: int| 0 <= j < sources.len() ==> json_syntax((#[trigger] sources[j]).text@) is Some
}

/// The documents that the files hold, each under the name of its file.
pub open spec fn parsed(sources: Seq<Source>) -> Seq<JsonMember> {
    Seq::new(
        sources.len(),
        |i: int|
            JsonMember { key: sources[i].file@, value: json_syntax(sources[i].text@)->Some_0 },
    )
}

/// The blocks that the block index lists, by identifier and by name, and
/// the texture sources that they name.
pub struct Catalog {
    blocks: HashMap<u32, Block>,
    name_map: StringHashMap<u32>,
    pool: Vec<String>,
}

impl Catalog {
    pub closed spec fn view(&self) -> CatalogView {
        CatalogView {
            blocks: block_views(self.blocks@),
            names: self.name_map@,
            pool: texts(self.pool@),
        }
    }

    #[verifier::type_invariant]
    closed spec fn sound(&self) -> bool {
        self@.wf()
    }

    /// Makes the catalog of a block index. Each entry of the index names a
    /// definition by its file; `definitions` holds the definitions that
    /// were read, each under the name of its file. A definition that names
    /// a base is laid over it. The first entry that cannot be used is the
    /// error.
    pub fn build(index: &Document, definitions: &Vec<Member>) -> (outcome: Result<
        Catalog,
        RegistryError,
    >)
        ensures
            match outcome {
                Ok(catalog) => cataloged(index@, members_view(definitions@)) == Ok::<
                    CatalogView,
                    RegistryError,
                >(catalog@) && catalog@.wf(),
                Err(error) => cataloged(index@, members_view(definitions@)) == Err::<
                    CatalogView,
                    RegistryError,
                >(error),
            },
    {
        let entries = match index {
            Document::Object(entries) => entries,
            _ => {
                return Err(RegistryError::InvalidIndex);
            },
        };
        let ghost listed = members_view(entries@);
        let ghost supplied = members_view(definitions@);
        assert(index@->Object_0 =~= listed);
        let mut blocks: HashMap<u32, Block> = HashMap::new();
        let mut name_map: StringHashMap<u32> = StringHashMap::new();
        let mut pool: Vec<String> = Vec::new();
        let mut seen: StringHashSet = StringHashSet::new();
        let mut i: usize = 0;
        assert(block_views(blocks@) =~= Map::<u32, BlockView>::empty());
        assert(texts(pool@) =~= Seq::<Seq<char>>::empty());
        while i < entries.len()
            invariant
                i <= entries.len(),
                listed == members_view(entries@),
                supplied == members_view(definitions@),
                index@ == Json::Object(listed),
                catalog_of(listed, supplied, i as nat) == Ok::<CatalogView, RegistryError>(
                    CatalogView {
                        blocks: block_views(blocks@),
                        names: name_map@,
                        pool: texts(pool@),
                    },
                ),
                forall|source: Seq<char>| seen@.contains(source) <==> texts(pool@).contains(source),
            decreases entries.len() - i,
        {
            let ghost before = CatalogView {
                blocks: block_views(blocks@),
                names: name_map@,
                pool: texts(pool@),
            };
            assert(listed[i as int] == entries@[i as int]@);
            match entry(&entries[i], definitions) {
                Err(problem) => {
                    proof {
                        lemma_catalog_fails(listed, supplied, (i + 1) as nat, listed.len());
                    }
                    return Err(RegistryError::InvalidEntry { entry: i, problem });
                },
                Ok(None) => {},
                Ok(Some((id, block))) => {
                    if blocks.contains_key(&id) {
                        proof {
                            lemma_catalog_fails(listed, supplied, (i + 1) as nat, listed.len());
                        }
                        return Err(
                            RegistryError::InvalidEntry { entry: i, problem: Problem::DuplicateId },
                        );
                    }
                    if name_map.contains_key(block.name.as_str()) {
                        proof {
                            lemma_catalog_fails(listed, supplied, (i + 1) as nat, listed.len());
                        }
                        return Err(
                            RegistryError::InvalidEntry {
                                entry: i,
                                problem: Problem::DuplicateName,
                            },
                        );
                    }
                    let mut j: usize = 0;
                    assert(block@.textures.take(0) =~= Seq::<FaceView>::empty());
                    while j < block.textures.len()
                        invariant
                            j <= block.textures.len(),
                            texts(pool@) == pooled(before.pool, block@.textures.take(j as int)),
                            forall|source: Seq<char>|
                                seen@.contains(source) <==> texts(pool@).contains(source),
                        decreases block.textures.len() - j,
                    {
                        let ghost faces = block@.textures;
                        let ghost held = texts(pool@);
                        proof {
                            assert(faces.take(j as int + 1).drop_last() =~= faces.take(j as int));
                            assert(faces.take(j as int + 1).last() == block.textures@[j as int]@);
                        }
                        if !seen.contains(block.textures[j].source.as_str()) {
                            seen.insert(block.textures[j].source.clone());
                            pool.push(block.textures[j].source.clone());
                            proof {
                                let source = block.textures@[j as int].source@;
                                assert(texts(pool@) =~= held.push(source));
                                assert forall|other: Seq<char>|
                                    seen@.contains(other) <==> texts(pool@).contains(other) by {
                                    if held.contains(other) {
                                        let at = choose|at: int|
                                            0 <= at < held.len() && held[at] == other;
                                        assert(texts(pool@)[at] == other);
                                    }
                                    if other == source {
                                        assert(texts(pool@)[held.len() as int] == other);
                                    }
                                }
                            }
                        }
                        j = j + 1;
                    }
                    proof {
                        assert(block@.textures.take(block.textures@.len() as int)
                            =~= block@.textures);
                    }
                    let ghost old_blocks = blocks@;
                    name_map.insert(block.name.clone(), id);
                    blocks.insert(id, block);
                    proof {
                        assert(block_views(blocks@) =~= block_views(old_blocks).insert(id, block@));
                    }
                },
            }
            i = i + 1;
        }
        proof {
            lemma_catalog_wf(listed, supplied, listed.len());
        }
        Ok(Catalog { blocks, name_map, pool })
    }

    /// Makes the catalog from the text of the block index and the texts of
    /// the definition files. The index is read first, then every file in
    /// its order; the first text that is not valid JSON is the error. What
    /// the texts hold is then handed to `build`.
    pub fn read(index: &str, sources: &Vec<Source>) -> (outcome: Result<Catalog, RegistryError>)
        ensures
            json_syntax(index@) is None ==> (outcome matches Err(error) && error
                == RegistryError::MalformedIndex),
            json_syntax(index@) is Some ==> forall|place: int|
                first_malformed(sources@, place) ==> (outcome matches Err(error) && error
                    == RegistryError::MalformedDefinition(place as usize)),
            json_syntax(index@) is Some && all_parse(sources@) ==> match outcome {
                Ok(catalog) => cataloged(json_syntax(index@)->Some_0, parsed(sources@)) == Ok::<
                    CatalogView,
                    RegistryError,
                >(catalog@) && catalog@.wf(),
                Err(error) => cataloged(json_syntax(index@)->Some_0, parsed(sources@)) == Err::<
                    CatalogView,
                    RegistryError,
                >(error),
            },
    {
        let listed = match parse(index) {
            Ok(listed) => listed,
            Err(_) => {
                return Err(RegistryError::MalformedIndex);
            },
        };
        let mut definitions: Vec<Member> = Vec::new();
        let mut i: usize = 0;
        while i < sources.len()
            invariant
                i <= sources.len(),
                definitions@.len() == i,
                json_syntax(index@) == Some(listed@),
                forall|j: int| 0 <= j < i ==> json_syntax((#[trigger] sources@[j]).text@) is Some,
                forall|j: int| 0 <= j < i ==> (#[trigger] definitions@[j])@ == parsed(sources@)[j],
            decreases sources.len() - i,
        {
            match parse(sources[i].text.as_str()) {
                Ok(document) => {
                    definitions.push(Member { key: sources[i].file.clone(), value: document });
                },
                Err(_) => {
                    assert(first_malformed(sources@, i as int));
                    assert forall|place: int| first_malformed(sources@, place) implies place
                        == i by {
                        if place < i {
                            assert(json_syntax(sources@[place].text@) is Some);
                        }
                        if i < place {
                            assert(json_syntax(sources@[i as int].text@) is Some);
                        }
                    }
                    return Err(RegistryError::MalformedDefinition(i));
                },
            }
            i = i + 1;
        }
        assert(members_view(definitions@) =~= parsed(sources@));
        assert forall|place: int| !first_malformed(sources@, place) by {
            if 0 <= place < sources@.len() {
                assert(json_syntax(sources@[place].text@) is Some);
            }
        }
        Catalog::build(&listed, &definitions)
    }

    /// The texture sources that the blocks name, each once, in the order in
    /// which the blocks first name them.
    pub fn pool(&self) -> (pool: &Vec<String>)
        ensures
            texts(pool@) == self@.pool,
    {
        &self.pool
    }

    /// Takes the catalog apart: the blocks, the name index and the pool.
    pub(crate) fn into_parts(self) -> (parts: (
        HashMap<u32, Block>,
        StringHashMap<u32>,
        Vec<String>,
    ))
        ensures
            block_views(parts.0@) == self@.blocks,
            parts.1@ == self@.names,
            texts(parts.2@) == self@.pool,
            self@.wf(),
    {
        proof {
            use_type_invariant(&self);
        }
        (self.blocks, self.name_map, self.pool)
    }
}

} // verus!
