//! The layout of the texture atlas: a square grid of square tiles.
use vstd::prelude::*;
use crate::types::UV;

verus! {

/// The side of a tile of the atlas, in pixels.
pub const TILE: u32 = 64;

/// `side` is the least even number whose square is at least `count`.
pub open spec fn is_grid_side(count: nat, side: nat) -> bool {
    &&& side % 2 == 0
    &&& side * side >= count
    &&& side >= 2 ==> (side - 2) * (side - 2) < count
}

/// An atlas of `side` tiles a side can be held: its side in pixels fits
/// `u32`, and its bytes, four a pixel, are no more than a buffer can have.
pub open spec fn holds_atlas(side: nat) -> bool {
    &&& side * TILE <= u32::MAX
    &&& 4 * (side * TILE) * (side * TILE) <= isize::MAX
}

/// The column and the row of the tile numbered `index` in a grid of `side`
/// columns, filled row by row.
pub open spec fn cell(index: nat, side: nat) -> (nat, nat) {
    if side == 0 {
        (0, 0)
    } else {
        (index % side, index / side)
    }
}

/// The rectangle of the tile numbered `index` in an atlas of `side` tiles a side.
pub open spec fn tile_uv(index: nat, side: nat) -> UV {
    let (column, row) = cell(index, side);
    UV {
        start_u: (column * TILE) as u32,
        end_u: (column * TILE + TILE) as u32,
        start_v: (row * TILE) as u32,
        end_v: (row * TILE + TILE) as u32,
        extent: (side * TILE) as u32,
    }
}

/// There is one grid side for a count.
pub proof fn lemma_grid_side_unique(count: nat, a: nat, b: nat)
    requires
        is_grid_side(count, a),
        is_grid_side(count, b),
    ensures
        a == b,
{
    if a < b {
        assert(a <= b - 2);
        assert(a * a <= (b - 2) * (b - 2)) by (nonlinear_arith)
            requires
                0 <= a <= b - 2,
        ;
    }
    if b < a {
        assert(b <= a - 2);
        assert(b * b <= (a - 2) * (a - 2)) by (nonlinear_arith)
            requires
                0 <= b <= a - 2,
        ;
    }
}

/// Every tile of a grid that holds `count` tiles lies in a cell of the grid.
pub proof fn lemma_cell_in_grid(count: nat, side: nat, index: nat)
    requires
        side * side >= count,
        index < count,
    ensures
        side > 0,
        cell(index, side).0 < side,
        cell(index, side).1 < side,
        index == cell(index, side).1 * side + cell(index, side).0,
{
    assert(side > 0) by (nonlinear_arith)
        requires
            side * side > 0,
    ;
    vstd::arithmetic::div_mod::lemma_fundamental_div_mod(index as int, side as int);
    vstd::arithmetic::div_mod::lemma_mod_bound(index as int, side as int);
    let row = index / side;
    let column = index % side;
    assert(index == side * row + column);
    assert(row < side) by (nonlinear_arith)
        requires
            index == side * row + column,
            index < side * side,
            column >= 0,
            side > 0,
    ;
    assert(side * row == row * side) by (nonlinear_arith);
}

/// The rectangle of every tile lies within the atlas and is not empty.
pub proof fn lemma_tile_normalized(count: nat, side: nat, index: nat)
    requires
        side * side >= count,
        side * TILE <= u32::MAX,
        index < count,
    ensures
        tile_uv(index, side).normalized(),
        tile_uv(index, side).extent == side * TILE,
{
    lemma_cell_in_grid(count, side, index);
    let (column, row) = cell(index, side);
    assert(column * TILE + TILE <= side * TILE) by (nonlinear_arith)
        requires
            column < side,
    ;
    assert(row * TILE + TILE <= side * TILE) by (nonlinear_arith)
        requires
            row < side,
    ;
}

/// The rectangles of two tiles share no pixel.
pub proof fn lemma_tiles_disjoint(count: nat, side: nat, one: nat, other: nat)
    requires
        side * side >= count,
        side * TILE <= u32::MAX,
        one < count,
        other < count,
        one != other,
    ensures
        tile_uv(one, side).disjoint(tile_uv(other, side)),
{
    lemma_cell_in_grid(count, side, one);
    lemma_cell_in_grid(count, side, other);
    lemma_tile_normalized(count, side, one);
    lemma_tile_normalized(count, side, other);
    let (c1, r1) = cell(one, side);
    let (c2, r2) = cell(other, side);
    if c1 == c2 {
        assert(r1 != r2);
    }
    if c1 < c2 {
        assert(c1 * TILE + TILE <= c2 * TILE) by (nonlinear_arith)
            requires
                c1 < c2,
        ;
    }
    if c2 < c1 {
        assert(c2 * TILE + TILE <= c1 * TILE) by (nonlinear_arith)
            requires
                c2 < c1,
        ;
    }
    if r1 < r2 {
        assert(r1 * TILE + TILE <= r2 * TILE) by (nonlinear_arith)
            requires
                r1 < r2,
        ;
    }
    if r2 < r1 {
        assert(r2 * TILE + TILE <= r1 * TILE) by (nonlinear_arith)
            requires
                r2 < r1,
        ;
    }
}

/// The packing of the atlas: the side of the grid is even and its square
/// holds the tiles, every tile lies within the atlas and is not empty, and
/// no two tiles share a pixel.
pub proof fn lemma_packing(count: nat, side: nat)
    requires
        is_grid_side(count, side),
        side * TILE <= u32::MAX,
    ensures
        side % 2 == 0,
        side * side >= count,
        forall|k: nat| k < count ==> (#[trigger] tile_uv(k, side)).normalized(),
        forall|j: nat, k: nat|
            j < count && k < count && j != k ==> (#[trigger] tile_uv(j, side)).disjoint(
                #[trigger] tile_uv(k, side),
            ),
{
    assert forall|k: nat| k < count implies (#[trigger] tile_uv(k, side)).normalized() by {
        lemma_tile_normalized(count, side, k);
    }
    assert forall|j: nat, k: nat| j < count && k < count && j != k implies (#[trigger] tile_uv(
        j,
        side,
    )).disjoint(#[trigger] tile_uv(k, side)) by {
        lemma_tiles_disjoint(count, side, j, k);
    }
}

/// A smaller atlas can be held where a larger one can.
pub proof fn lemma_holds_smaller(small: nat, large: nat)
    requires
        small <= large,
        holds_atlas(large),
    ensures
        holds_atlas(small),
{
    assert(small * TILE <= large * TILE) by (nonlinear_arith)
        requires
            small <= large,
    ;
    assert(4 * (small * TILE) * (small * TILE) <= 4 * (large * TILE) * (large * TILE))
        by (nonlinear_arith)
        requires
            0 <= small * TILE <= large * TILE,
    ;
}

/// Whether an atlas of `side` tiles a side can be held.
pub fn can_hold(side: u32) -> (held: bool)
    ensures
        held == holds_atlas(side as nat),
{
    if side > u32::MAX / TILE {
        assert(side * TILE > u32::MAX) by (nonlinear_arith)
            requires
                side >= u32::MAX / TILE + 1,
                TILE == 64,
        ;
        return false;
    }
    let extent: u128 = (side * TILE) as u128;
    assert(4 * extent * extent <= 4 * 0x1_0000_0000 * 0x1_0000_0000) by (nonlinear_arith)
        requires
            0 <= extent <= 0x1_0000_0000,
    ;
    assert(4 * (side * TILE) * (side * TILE) == 4 * extent * extent) by (nonlinear_arith)
        requires
            extent == side * TILE,
    ;
    4 * extent * extent <= isize::MAX as u128
}

/// The side of the grid for `count` tiles: the least even number whose
/// square is at least `count`. Nothing where an atlas of that side cannot
/// be held.
pub fn grid_side(count: usize) -> (found: Option<u32>)
    ensures
        match found {
            Some(side) => is_grid_side(count as nat, side as nat) && holds_atlas(side as nat),
            None => forall|side: nat| is_grid_side(count as nat, side) ==> !holds_atlas(side),
        },
{
    let mut side: u32 = 0;
    while (side as u64) * (side as u64) < count as u64
        invariant
            side % 2 == 0,
            holds_atlas(side as nat),
            side >= 2 ==> (side - 2) * (side - 2) < count,
            side * side <= u64::MAX,
        decreases u32::MAX - side,
    {
        assert(side <= u32::MAX / TILE) by (nonlinear_arith)
            requires
                side * TILE <= u32::MAX,
                TILE == 64,
        ;
        let next: u32 = side + 2;
        if !can_hold(next) {
            assert forall|other: nat| is_grid_side(count as nat, other) implies !holds_atlas(
                other,
            ) by {
                if other <= side {
                    assert(other * other <= side * side) by (nonlinear_arith)
                        requires
                            0 <= other <= side,
                    ;
                }
                if holds_atlas(other) {
                    lemma_holds_smaller(next as nat, other);
                }
            }
            return None;
        }
        assert(next * next <= u64::MAX) by (nonlinear_arith)
            requires
                next * TILE <= u32::MAX,
                TILE == 64,
        ;
        side = next;
    }
    Some(side)
}

/// The rectangles of `count` tiles in an atlas of `side` tiles a side, in
/// the order of their numbers. Every rectangle lies within the atlas and is
/// not empty, and no two of them share a pixel.
pub fn layout(count: usize, side: u32) -> (tiles: Vec<UV>)
    requires
        side * side >= count,
        side * TILE <= u32::MAX,
    ensures
        tiles@.len() == count,
        forall|k: int| 0 <= k < count ==> #[trigger] tiles@[k] == tile_uv(k as nat, side as nat),
        forall|k: int| 0 <= k < count ==> (#[trigger] tiles@[k]).normalized(),
        forall|j: int, k: int|
            0 <= j < count && 0 <= k < count && j != k ==> (#[trigger] tiles@[j]).disjoint(
                #[trigger] tiles@[k],
            ),
{
    let mut tiles: Vec<UV> = Vec::new();
    let mut index: usize = 0;
    while index < count
        invariant
            index <= count,
            side * side >= count,
            side * TILE <= u32::MAX,
            tiles@.len() == index,
            forall|k: int| 0 <= k < index ==> #[trigger] tiles@[k] == tile_uv(k as nat, side as nat),
        decreases count - index,
    {
        proof {
            lemma_cell_in_grid(count as nat, side as nat, index as nat);
            lemma_tile_normalized(count as nat, side as nat, index as nat);
        }
        let column: u32 = (index % (side as usize)) as u32;
        let row: u32 = (index / (side as usize)) as u32;
        assert(column * TILE + TILE <= side * TILE) by (nonlinear_arith)
            requires
                column < side,
        ;
        assert(row * TILE + TILE <= side * TILE) by (nonlinear_arith)
            requires
                row < side,
        ;
        tiles.push(
            UV {
                start_u: column * TILE,
                end_u: column * TILE + TILE,
                start_v: row * TILE,
                end_v: row * TILE + TILE,
                extent: side * TILE,
            },
        );
        index = index + 1;
    }
    proof {
        assert forall|k: int| 0 <= k < count implies (#[trigger] tiles@[k]).normalized() by {
            lemma_tile_normalized(count as nat, side as nat, k as nat);
        }
        assert forall|j: int, k: int| 0 <= j < count && 0 <= k < count && j != k implies (
        #[trigger] tiles@[j]).disjoint(#[trigger] tiles@[k]) by {
            lemma_tiles_disjoint(count as nat, side as nat, j as nat, k as nat);
        }
    }
    tiles
}

} // verus!
