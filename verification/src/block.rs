//! Decoding a block definition document into a block record.
use vstd::prelude::*;
use crate::document::{Document, Json, JsonMember};
use crate::types::{Block, BlockView, Face, FaceView};

verus! {

/// The fields of a block definition that a block is made from.
#[derive(Clone, Copy, Debug, PartialEq, Eq)]
pub enum Field {
    Textures,
    Name,
    IsBlock,
    IsEmpty,
    IsFluid,
    IsLight,
    IsPlant,
    IsSolid,
    IsTransparent,
    LightLevel,
    TransparentStandalone,
}

impl Field {
    /// The key under which the field stands in a definition.
    pub open spec fn key(self) -> Seq<char> {
        match self {
            Field::Textures => "textures"@,
            Field::Name => "name"@,
            Field::IsBlock => "isBlock"@,
            Field::IsEmpty => "isEmpty"@,
            Field::IsFluid => "isFluid"@,
            Field::IsLight => "isLight"@,
            Field::IsPlant => "isPlant"@,
            Field::IsSolid => "isSolid"@,
            Field::IsTransparent => "isTransparent"@,
            Field::LightLevel => "lightLevel"@,
            Field::TransparentStandalone => "transparentStandalone"@,
        }
    }

    /// The key under which the field stands in a definition.
    pub fn label(self) -> (label: &'static str)
        ensures
            label@ == self.key(),
    {
        match self {
            Field::Textures => "textures",
            Field::Name => "name",
            Field::IsBlock => "isBlock",
            Field::IsEmpty => "isEmpty",
            Field::IsFluid => "isFluid",
            Field::IsLight => "isLight",
            Field::IsPlant => "isPlant",
            Field::IsSolid => "isSolid",
            Field::IsTransparent => "isTransparent",
            Field::LightLevel => "lightLevel",
            Field::TransparentStandalone => "transparentStandalone",
        }
    }
}

/// The definition has no textures, so it stands for no block.
pub open spec fn skipped(definition: Json) -> bool {
    match definition.get(Field::Textures.key()) {
        None => true,
        Some(Json::Null) => true,
        Some(_) => false,
    }
}

/// Every member holds a text.
pub open spec fn all_text(members: Seq<JsonMember>) -> bool {
    forall|i: int| 0 <= i < members.len() ==> (#[trigger] members[i]).value is Text
}

/// The texture references that the members of a `textures` object stand for.
pub open spec fn faces_of(members: Seq<JsonMember>) -> Seq<FaceView> {
    Seq::new(
        members.len(),
        |i: int| FaceView { side: members[i].key, source: members[i].value->Text_0 },
    )
}

/// The flag that the definition holds under the field's key, if it holds one.
pub open spec fn flag(definition: Json, field: Field) -> Option<bool> {
    match definition.get(field.key()) {
        Some(Json::Bool(value)) => Some(value),
        _ => None,
    }
}

/// The definition holds a value of the right kind for the field.
pub open spec fn holds(definition: Json, field: Field) -> bool {
    match field {
        Field::Textures => match definition.get(field.key()) {
            Some(Json::Object(sides)) => all_text(sides),
            _ => false,
        },
        Field::Name => definition.get(field.key()) matches Some(Json::Text(_)),
        Field::LightLevel => match definition.get(field.key()) {
            Some(Json::Integer(level)) => i64::MIN <= level <= i64::MAX,
            _ => false,
        },
        _ => flag(definition, field) is Some,
    }
}

/// The first field, in the order in which a block is made, for which the
/// definition holds no value of the right kind.
pub open spec fn first_fault(definition: Json) -> Option<Field> {
    if !holds(definition, Field::Textures) {
        Some(Field::Textures)
    } else if !holds(definition, Field::Name) {
        Some(Field::Name)
    } else if !holds(definition, Field::IsBlock) {
        Some(Field::IsBlock)
    } else if !holds(definition, Field::IsEmpty) {
        Some(Field::IsEmpty)
    } else if !holds(definition, Field::IsFluid) {
        Some(Field::IsFluid)
    } else if !holds(definition, Field::IsLight) {
        Some(Field::IsLight)
    } else if !holds(definition, Field::IsPlant) {
        Some(Field::IsPlant)
    } else if !holds(definition, Field::IsSolid) {
        Some(Field::IsSolid)
    } else if !holds(definition, Field::IsTransparent) {
        Some(Field::IsTransparent)
    } else if !holds(definition, Field::LightLevel) {
        Some(Field::LightLevel)
    } else if !holds(definition, Field::TransparentStandalone) {
        Some(Field::TransparentStandalone)
    } else {
        None
    }
}

/// The block that a definition with a value for every field stands for.
pub open spec fn block_of(definition: Json) -> BlockView {
    BlockView {
        name: definition.get(Field::Name.key())->Some_0->Text_0,
        is_block: flag(definition, Field::IsBlock)->Some_0,
        is_empty: flag(definition, Field::IsEmpty)->Some_0,
        is_fluid: flag(definition, Field::IsFluid)->Some_0,
        is_light: flag(definition, Field::IsLight)->Some_0,
        is_plant: flag(definition, Field::IsPlant)->Some_0,
        is_solid: flag(definition, Field::IsSolid)->Some_0,
        is_transparent: flag(definition, Field::IsTransparent)->Some_0,
        light_level: definition.get(Field::LightLevel.key())->Some_0->Integer_0,
        textures: faces_of(definition.get(Field::Textures.key())->Some_0->Object_0),
        transparent_standalone: flag(definition, Field::TransparentStandalone)->Some_0,
    }
}

/// What a definition decodes to: no block where it has no textures, the
/// faulty field where one is missing or of the wrong kind, and else a block.
#[verifier::opaque]
pub open spec fn decoded(definition: Json) -> Result<Option<BlockView>, Field> {
    if skipped(definition) {
        Ok(None)
    } else {
        match first_fault(definition) {
            Some(field) => Err(field),
            None => Ok(Some(block_of(definition))),
        }
    }
}

/// The flag under the field's key.
fn read_flag(definition: &Document, field: Field) -> (found: Option<bool>)
    ensures
        found == flag(definition@, field),
{
    match definition.get(field.label()) {
        Some(Document::Bool(value)) => Some(*value),
        _ => None,
    }
}

/// The texture references of a `textures` object, where every member of it
/// holds a text.
fn read_faces(sides: &Vec<crate::document::Member>) -> (found: Option<Vec<Face>>)
    ensures
        match found {
            Some(faces) => {
                &&& all_text(Seq::new(sides@.len(), |i: int| sides@[i]@))
                &&& Seq::new(faces@.len(), |i: int| faces@[i]@) == faces_of(
                    Seq::new(sides@.len(), |i: int| sides@[i]@),
                )
            },
            None => !all_text(Seq::new(sides@.len(), |i: int| sides@[i]@)),
        },
{
    let ghost members = Seq::new(sides@.len(), |i: int| sides@[i]@);
    let mut faces: Vec<Face> = Vec::new();
    let mut i: usize = 0;
    while i < sides.len()
        invariant
            i <= sides.len(),
            faces@.len() == i,
            members == Seq::new(sides@.len(), |i: int| sides@[i]@),
            forall|k: int| 0 <= k < i ==> (#[trigger] members[k]).value is Text,
            forall|k: int| 0 <= k < i ==> (#[trigger] faces@[k])@ == faces_of(members)[k],
        decreases sides.len() - i,
    {
        assert(members[i as int] == sides@[i as int]@);
        match &sides[i].value {
            Document::Text(source) => {
                faces.push(Face { side: sides[i].key.clone(), source: source.clone() });
            },
            _ => {
                return None;
            },
        }
        i = i + 1;
    }
    assert(Seq::new(faces@.len(), |i: int| faces@[i]@) =~= faces_of(members));
    Some(faces)
}

/// Decodes a block definition. A definition without textures stands for no
/// block. Any other must hold a value of the right kind for every field:
/// the first that it lacks is the error.
pub fn decode(definition: &Document) -> (outcome: Result<Option<Block>, Field>)
    ensures
        match outcome {
            Ok(Some(block)) => decoded(definition@) == Ok::<Option<BlockView>, Field>(
                Some(block@),
            ),
            Ok(None) => decoded(definition@) == Ok::<Option<BlockView>, Field>(None),
            Err(field) => decoded(definition@) == Err::<Option<BlockView>, Field>(field),
        },
{
    reveal(decoded);
    let textures = match definition.get(Field::Textures.label()) {
        None => {
            return Ok(None);
        },
        Some(Document::Null) => {
            return Ok(None);
        },
        Some(Document::Object(sides)) => {
            assert(definition@.get(Field::Textures.key())->Some_0->Object_0 =~= Seq::new(
                sides@.len(),
                |i: int| sides@[i]@,
            ));
            match read_faces(sides) {
                Some(faces) => faces,
                None => {
                    return Err(Field::Textures);
                },
            }
        },
        Some(_) => {
            return Err(Field::Textures);
        },
    };
    let name = match definition.get(Field::Name.label()) {
        Some(Document::Text(name)) => name.clone(),
        _ => {
            return Err(Field::Name);
        },
    };
    let is_block = match read_flag(definition, Field::IsBlock) {
        Some(value) => value,
        None => {
            return Err(Field::IsBlock);
        },
    };
    let is_empty = match read_flag(definition, Field::IsEmpty) {
        Some(value) => value,
        None => {
            return Err(Field::IsEmpty);
        },
    };
    let is_fluid = match read_flag(definition, Field::IsFluid) {
        Some(value) => value,
        None => {
            return Err(Field::IsFluid);
        },
    };
    let is_light = match read_flag(definition, Field::IsLight) {
        Some(value) => value,
        None => {
            return Err(Field::IsLight);
        },
    };
    let is_plant = match read_flag(definition, Field::IsPlant) {
        Some(value) => value,
        None => {
            return Err(Field::IsPlant);
        },
    };
    let is_solid = match read_flag(definition, Field::IsSolid) {
        Some(value) => value,
        None => {
            return Err(Field::IsSolid);
        },
    };
    let is_transparent = match read_flag(definition, Field::IsTransparent) {
        Some(value) => value,
        None => {
            return Err(Field::IsTransparent);
        },
    };
    let light_level = match definition.get(Field::LightLevel.label()) {
        Some(Document::Integer(level)) => *level,
        _ => {
            return Err(Field::LightLevel);
        },
    };
    let transparent_standalone = match read_flag(definition, Field::TransparentStandalone) {
        Some(value) => value,
        None => {
            return Err(Field::TransparentStandalone);
        },
    };
    let block = Block {
        name,
        is_block,
        is_empty,
        is_fluid,
        is_light,
        is_plant,
        is_solid,
        is_transparent,
        light_level,
        textures,
        transparent_standalone,
    };
    assert(block@.textures =~= block_of(definition@).textures);
    Ok(Some(block))
}

} // verus!
