//! A chunk of voxels: a box of the world with the kind of every voxel in it
//! and the height of the surface in every column.
use vstd::prelude::*;
use crate::types::Coords3;

verus! {

/// How far a decoration reaches sideways from the column it stands in.
pub const REACH_SIDE: i32 = 2;

/// How far a decoration reaches up from the surface.
pub const REACH_UP: i32 = 11;

/// The number of voxels along an axis of a chunk from `low` to `high`.
pub open spec fn span(low: i32, high: i32) -> int {
    high - low + 1
}

/// The place of the column (`x`, `z`) among the columns of a chunk.
pub open spec fn column_index(min: Coords3<i32>, max: Coords3<i32>, x: int, z: int) -> int {
    (x - min.0) * span(min.2, max.2) + (z - min.2)
}

/// The place of the voxel (`x`, `y`, `z`) among the voxels of a chunk.
pub open spec fn voxel_index(min: Coords3<i32>, max: Coords3<i32>, x: int, y: int, z: int) -> int {
    column_index(min, max, x, z) * span(min.1, max.1) + (y - min.1)
}

/// The corners bound a box that is not empty, and decorations on its
/// surface keep within the coordinates that 32 bits can write.
pub open spec fn bounded(min: Coords3<i32>, max: Coords3<i32>) -> bool {
    &&& min.0 <= max.0
    &&& min.1 <= max.1
    &&& min.2 <= max.2
    &&& i32::MIN + REACH_SIDE <= min.0
    &&& max.0 <= i32::MAX - REACH_SIDE
    &&& i32::MIN + REACH_SIDE <= min.2
    &&& max.2 <= i32::MAX - REACH_SIDE
    &&& max.1 <= i32::MAX - REACH_UP
}

/// The heights and the voxels fill the box: one height for every column,
/// within the box, and one voxel for every place.
pub open spec fn fills(
    min: Coords3<i32>,
    max: Coords3<i32>,
    heights: Seq<i32>,
    voxels: Seq<u32>,
) -> bool {
    &&& bounded(min, max)
    &&& heights.len() == span(min.0, max.0) * span(min.2, max.2)
    &&& voxels.len() == span(min.0, max.0) * span(min.2, max.2) * span(min.1, max.1)
    &&& forall|i: int| 0 <= i < heights.len() ==> min.1 <= #[trigger] heights[i] <= max.1
}

/// The column of a box has its place among the columns.
pub proof fn lemma_column_index(min: Coords3<i32>, max: Coords3<i32>, x: int, z: int)
    requires
        min.0 <= x <= max.0,
        min.2 <= z <= max.2,
    ensures
        0 <= column_index(min, max, x, z) < span(min.0, max.0) * span(min.2, max.2),
{
    let across = x - min.0;
    let width = span(min.0, max.0);
    let depth = span(min.2, max.2);
    assert(0 <= across * depth) by (nonlinear_arith)
        requires
            0 <= across,
            0 < depth,
    ;
    assert(across * depth + depth <= width * depth) by (nonlinear_arith)
        requires
            across + 1 <= width,
            0 < depth,
    ;
}

/// The voxel of a box has its place among the voxels.
pub proof fn lemma_voxel_index(min: Coords3<i32>, max: Coords3<i32>, x: int, y: int, z: int)
    requires
        min.0 <= x <= max.0,
        min.1 <= y <= max.1,
        min.2 <= z <= max.2,
    ensures
        0 <= voxel_index(min, max, x, y, z) < span(min.0, max.0) * span(min.2, max.2) * span(
            min.1,
            max.1,
        ),
{
    lemma_column_index(min, max, x, z);
    let column = column_index(min, max, x, z);
    let columns = span(min.0, max.0) * span(min.2, max.2);
    let tall = span(min.1, max.1);
    assert(0 <= column * tall) by (nonlinear_arith)
        requires
            0 <= column,
            0 < tall,
    ;
    assert(column * tall + tall <= columns * tall) by (nonlinear_arith)
        requires
            column + 1 <= columns,
            0 < tall,
    ;
}

/// A chunk of voxels.
pub struct Chunk {
    min: Coords3<i32>,
    max: Coords3<i32>,
    heights: Vec<i32>,
    voxels: Vec<u32>,
}

impl Chunk {
    /// The least corner of the chunk.
    pub closed spec fn lower(&self) -> Coords3<i32> {
        self.min
    }

    /// The greatest corner of the chunk: the box includes it.
    pub closed spec fn upper(&self) -> Coords3<i32> {
        self.max
    }

    /// The heights of the columns, row by row.
    pub closed spec fn height_map(&self) -> Seq<i32> {
        self.heights@
    }

    /// The voxels, column by column and upwards in each.
    pub closed spec fn voxel_map(&self) -> Seq<u32> {
        self.voxels@
    }

    /// The chunk is sound: its heights and voxels fill its box.
    pub open spec fn wf(&self) -> bool {
        fills(self.lower(), self.upper(), self.height_map(), self.voxel_map())
    }

    #[verifier::type_invariant]
    closed spec fn sound(&self) -> bool {
        self.wf()
    }

    /// The column (`x`, `z`) is one of the chunk.
    pub open spec fn has_column(&self, x: int, z: int) -> bool {
        self.lower().0 <= x <= self.upper().0 && self.lower().2 <= z <= self.upper().2
    }

    /// The voxel (`x`, `y`, `z`) is one of the chunk.
    pub open spec fn has_voxel(&self, x: int, y: int, z: int) -> bool {
        self.has_column(x, z) && self.lower().1 <= y <= self.upper().1
    }

    /// The height of the surface in the column (`x`, `z`).
    pub open spec fn height_at(&self, x: int, z: int) -> int {
        self.height_map()[column_index(self.lower(), self.upper(), x, z)] as int
    }

    /// The kind of the voxel (`x`, `y`, `z`).
    pub open spec fn voxel_at(&self, x: int, y: int, z: int) -> u32 {
        self.voxel_map()[voxel_index(self.lower(), self.upper(), x, y, z)]
    }

    /// The kind of the voxel at the surface of the column (`x`, `z`).
    pub open spec fn surface_at(&self, x: int, z: int) -> u32 {
        self.voxel_at(x, self.height_at(x, z), z)
    }

    /// A chunk of the box from `min` to `max`, both included. `heights`
    /// holds the height of the surface of every column, row by row: the
    /// columns of the least `x` first, and among them that of the least `z`.
    /// `voxels` holds the kind of every voxel, column by column in the same
    /// order, and upwards in each column. Nothing where the two do not fill
    /// the box, where a height lies outside it, or where the box is empty
    /// or lies too near the greatest or least coordinates.
    pub fn new(min: Coords3<i32>, max: Coords3<i32>, heights: Vec<i32>, voxels: Vec<u32>) -> (made:
        Option<Chunk>)
        ensures
            made is Some <==> fills(min, max, heights@, voxels@),
            made matches Some(chunk) ==> {
                &&& chunk.lower() == min
                &&& chunk.upper() == max
                &&& chunk.height_map() == heights@
                &&& chunk.voxel_map() == voxels@
            },
    {
        if !(min.0 <= max.0 && min.1 <= max.1 && min.2 <= max.2) {
            return None;
        }
        if !(i32::MIN + REACH_SIDE <= min.0 && max.0 <= i32::MAX - REACH_SIDE && i32::MIN
            + REACH_SIDE <= min.2 && max.2 <= i32::MAX - REACH_SIDE && max.1 <= i32::MAX
            - REACH_UP) {
            return None;
        }
        let width: u64 = (max.0 as i64 - min.0 as i64 + 1) as u64;
        let depth: u64 = (max.2 as i64 - min.2 as i64 + 1) as u64;
        let tall: u64 = (max.1 as i64 - min.1 as i64 + 1) as u64;
        assert(width * depth <= 0x1_0000_0000 * 0x1_0000_0000) by (nonlinear_arith)
            requires
                width <= 0x1_0000_0000,
                depth <= 0x1_0000_0000,
        ;
        let columns: u128 = (width as u128) * (depth as u128);
        assert(columns * tall <= 0x1_0000_0000_0000_0000 * 0x1_0000_0000) by (nonlinear_arith)
            requires
                columns <= 0x1_0000_0000_0000_0000,
                tall <= 0x1_0000_0000,
        ;
        let places: u128 = columns * (tall as u128);
        if heights.len() as u128 != columns || voxels.len() as u128 != places {
            return None;
        }
        let mut i: usize = 0;
        while i < heights.len()
            invariant
                i <= heights.len(),
                forall|j: int| 0 <= j < i ==> min.1 <= #[trigger] heights@[j] <= max.1,
            decreases heights.len() - i,
        {
            if heights[i] < min.1 || heights[i] > max.1 {
                return None;
            }
            i = i + 1;
        }
        Some(Chunk { min, max, heights, voxels })
    }

    /// The least corner of the chunk.
    pub fn min(&self) -> (min: Coords3<i32>)
        ensures
            min == self.lower(),
            self.wf(),
    {
        proof {
            use_type_invariant(self);
        }
        self.min
    }

    /// The greatest corner of the chunk.
    pub fn max(&self) -> (max: Coords3<i32>)
        ensures
            max == self.upper(),
            self.wf(),
    {
        proof {
            use_type_invariant(self);
        }
        self.max
    }

    /// The place of a column of the chunk among the columns.
    fn column(&self, x: i32, z: i32) -> (place: usize)
        requires
            self.wf(),
            self.has_column(x as int, z as int),
        ensures
            place == column_index(self.lower(), self.upper(), x as int, z as int),
            place < self.height_map().len(),
    {
        proof {
            lemma_column_index(self.min, self.max, x as int, z as int);
        }
        let across: u64 = (x as i64 - self.min.0 as i64) as u64;
        let along: u64 = (z as i64 - self.min.2 as i64) as u64;
        let depth: u64 = (self.max.2 as i64 - self.min.2 as i64 + 1) as u64;
        assert(across * depth + along == column_index(
            self.lower(),
            self.upper(),
            x as int,
            z as int,
        ));
        assert(across * depth <= 0x1_0000_0000 * 0x1_0000_0000) by (nonlinear_arith)
            requires
                0 <= across <= 0x1_0000_0000,
                0 <= depth <= 0x1_0000_0000,
        ;
        let place: u128 = (across as u128) * (depth as u128) + (along as u128);
        assert(place < self.heights.len());
        place as usize
    }

    /// The height of the surface in a column, if the column is one of the chunk.
    pub fn get_max_height(&self, x: i32, z: i32) -> (height: Option<i32>)
        ensures
            self.wf(),
            height is Some <==> self.has_column(x as int, z as int),
            height matches Some(y) ==> y == self.height_at(x as int, z as int) && self.lower().1
                <= y <= self.upper().1,
    {
        proof {
            use_type_invariant(self);
        }
        if x < self.min.0 || x > self.max.0 || z < self.min.2 || z > self.max.2 {
            return None;
        }
        let place = self.column(x, z);
        Some(self.heights[place])
    }

    /// The kind of a voxel, if the voxel is one of the chunk.
    pub fn get_voxel(&self, x: i32, y: i32, z: i32) -> (kind: Option<u32>)
        ensures
            self.wf(),
            kind is Some <==> self.has_voxel(x as int, y as int, z as int),
            kind matches Some(id) ==> id == self.voxel_at(x as int, y as int, z as int),
    {
        proof {
            use_type_invariant(self);
        }
        if x < self.min.0 || x > self.max.0 || z < self.min.2 || z > self.max.2 {
            return None;
        }
        if y < self.min.1 || y > self.max.1 {
            return None;
        }
        let column = self.column(x, z);
        proof {
            lemma_voxel_index(self.min, self.max, x as int, y as int, z as int);
        }
        let up: u64 = (y as i64 - self.min.1 as i64) as u64;
        let tall: u64 = (self.max.1 as i64 - self.min.1 as i64 + 1) as u64;
        assert(column * tall + up == voxel_index(
            self.lower(),
            self.upper(),
            x as int,
            y as int,
            z as int,
        ));
        assert(0 <= column * tall <= 0x1_0000_0000_0000_0000 * 0x1_0000_0000)
            by (nonlinear_arith)
            requires
                0 <= column <= 0x1_0000_0000_0000_0000,
                0 <= tall <= 0x1_0000_0000,
        ;
        let place: u128 = (column as u128) * (tall as u128) + (up as u128);
        assert(place < self.voxels.len());
        Some(self.voxels[place as usize])
    }
}

} // verus!
