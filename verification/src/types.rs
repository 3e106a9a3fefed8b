//! Plain value types shared by the registry and the builder.
use vstd::prelude::*;

verus! {

/// A triple of voxel coordinates.
#[derive(Clone, Copy, Debug, PartialEq, Eq)]
pub struct Coords3<T>(pub T, pub T, pub T);

/// A triple of continuous coordinates.
#[derive(Clone, Copy, Debug, PartialEq, Eq)]
pub struct Vec3<T>(pub T, pub T, pub T);

/// One texture reference of a block: the face it covers and the texture source.
#[derive(Debug, PartialEq, Eq)]
pub struct Face {
    pub side: String,
    pub source: String,
}

/// A texture reference as a mathematical value.
pub ghost struct FaceView {
    pub side: Seq<char>,
    pub source: Seq<char>,
}

impl Face {
    pub open spec fn view(self) -> FaceView {
        FaceView { side: self.side@, source: self.source@ }
    }
}

/// The metadata of one block type.
#[derive(Debug, PartialEq, Eq)]
pub struct Block {
    pub name: String,
    pub is_block: bool,
    pub is_empty: bool,
    pub is_fluid: bool,
    pub is_light: bool,
    pub is_plant: bool,
    pub is_solid: bool,
    pub is_transparent: bool,
    pub light_level: i64,
    pub textures: Vec<Face>,
    pub transparent_standalone: bool,
}

/// A block as a mathematical value.
pub ghost struct BlockView {
    pub name: Seq<char>,
    pub is_block: bool,
    pub is_empty: bool,
    pub is_fluid: bool,
    pub is_light: bool,
    pub is_plant: bool,
    pub is_solid: bool,
    pub is_transparent: bool,
    pub light_level: int,
    pub textures: Seq<FaceView>,
    pub transparent_standalone: bool,
}

impl Block {
    pub open spec fn view(self) -> BlockView {
        BlockView {
            name: self.name@,
            is_block: self.is_block,
            is_empty: self.is_empty,
            is_fluid: self.is_fluid,
            is_light: self.is_light,
            is_plant: self.is_plant,
            is_solid: self.is_solid,
            is_transparent: self.is_transparent,
            light_level: self.light_level as int,
            textures: Seq::new(self.textures@.len(), |i: int| self.textures@[i]@),
            transparent_standalone: self.transparent_standalone,
        }
    }
}

/// A tile's rectangle in the atlas, as exact fractions: each bound is a
/// number of pixels over `extent`, the side of the atlas in pixels.
#[derive(Clone, Copy, Debug, PartialEq, Eq)]
pub struct UV {
    pub start_u: u32,
    pub end_u: u32,
    pub start_v: u32,
    pub end_v: u32,
    pub extent: u32,
}

impl UV {
    /// The rectangle lies in the unit square and is not empty.
    pub open spec fn normalized(self) -> bool {
        &&& self.start_u < self.end_u <= self.extent
        &&& self.start_v < self.end_v <= self.extent
    }

    /// The two rectangles share no pixel.
    pub open spec fn disjoint(self, other: UV) -> bool {
        ||| self.end_u <= other.start_u
        ||| other.end_u <= self.start_u
        ||| self.end_v <= other.start_v
        ||| other.end_v <= self.start_v
    }
}

} // verus!
