//! Autotiles: a tile drawn as four quarter tiles, each picked from the
//! autotile sheet by which of its neighbours hold the same autotile.
//!
//! The neighbours of a cell are numbered as the bits of a `u8`:
//! bit 0 north, 1 east, 2 south, 3 west, 4 north-east, 5 south-east,
//! 6 south-west, 7 north-west.
use vstd::prelude::*;

use crate::common::Point2;

verus! {

/// The grid offset of neighbour `i`.
pub open spec fn spec_offset(i: int) -> (int, int) {
    if i == 0 {
        (0, -1)
    } else if i == 1 {
        (1, 0)
    } else if i == 2 {
        (0, 1)
    } else if i == 3 {
        (-1, 0)
    } else if i == 4 {
        (1, -1)
    } else if i == 5 {
        (1, 1)
    } else if i == 6 {
        (-1, 1)
    } else {
        (-1, -1)
    }
}

/// The grid offset of neighbour `i`, for `i < 8`.
pub fn offset(i: usize) -> (r: (i32, i32))
    requires
        i < 8,
    ensures
        r.0 == spec_offset(i as int).0,
        r.1 == spec_offset(i as int).1,
{
    if i == 0 {
        (0, -1)
    } else if i == 1 {
        (1, 0)
    } else if i == 2 {
        (0, 1)
    } else if i == 3 {
        (-1, 0)
    } else if i == 4 {
        (1, -1)
    } else if i == 5 {
        (1, 1)
    } else if i == 6 {
        (-1, 1)
    } else {
        (-1, -1)
    }
}

/// The bit that stands for neighbour `i`.
pub open spec fn bit_weight(i: int) -> int {
    if i == 0 {
        1
    } else if i == 1 {
        2
    } else if i == 2 {
        4
    } else if i == 3 {
        8
    } else if i == 4 {
        16
    } else if i == 5 {
        32
    } else if i == 6 {
        64
    } else {
        128
    }
}

/// Whether the neighbour with bit `bit` is set in `neighbors`.
pub open spec fn has(neighbors: u8, bit: u8) -> bool {
    neighbors & bit != 0
}

/// The quarter tile, in half-tile units of the autotile sheet, drawn in one
/// corner of a cell. `right` and `bottom` name the corner; the quarter
/// depends on the neighbour above or below it (`vertical`), the one beside
/// it (`horizontal`) and the one diagonally across (`diagonal`). When both
/// sides continue but the diagonal does not, the corner is an inner corner,
/// taken from the sheet's top-right square. Otherwise the column tells
/// whether the side continues and the row whether the top or bottom does.
pub open spec fn quarter_of(right: bool, bottom: bool, vertical: bool, horizontal: bool, diagonal: bool) -> (int, int) {
    if vertical && horizontal && !diagonal {
        (if right { 3int } else { 2int }, if bottom { 1int } else { 0int })
    } else {
        let x = if horizontal {
            if right { 1int } else { 2int }
        } else {
            if right { 3int } else { 0int }
        };
        let y = if vertical {
            if bottom { 3int } else { 4int }
        } else {
            if bottom { 5int } else { 2int }
        };
        (x, y)
    }
}

/// The quarter drawn in the top-left corner. A cell with no matching
/// neighbour at all is drawn from the single-tile preview in the sheet's
/// top-left square.
pub open spec fn quarter_a(n: u8) -> (int, int) {
    if n == 0 {
        (0, 0)
    } else {
        quarter_of(false, false, has(n, 1), has(n, 8), has(n, 128))
    }
}

/// The quarter drawn in the top-right corner.
pub open spec fn quarter_b(n: u8) -> (int, int) {
    if n == 0 {
        (1, 0)
    } else {
        quarter_of(true, false, has(n, 1), has(n, 2), has(n, 16))
    }
}

/// The quarter drawn in the bottom-left corner.
pub open spec fn quarter_c(n: u8) -> (int, int) {
    if n == 0 {
        (0, 1)
    } else {
        quarter_of(false, true, has(n, 4), has(n, 8), has(n, 64))
    }
}

/// The quarter drawn in the bottom-right corner.
pub open spec fn quarter_d(n: u8) -> (int, int) {
    if n == 0 {
        (1, 1)
    } else {
        quarter_of(true, true, has(n, 4), has(n, 2), has(n, 32))
    }
}

pub open spec fn is_point(p: Point2, q: (int, int)) -> bool {
    p.x == q.0 && p.y == q.1
}

/// Quarter for the top-left corner.
pub fn autotile_a(neighbors: u8) -> (p: Point2)
    ensures
        is_point(p, quarter_a(neighbors)),
{
    if neighbors == 0 {
        return Point2 { x: 0, y: 0 };
    }
    let m = neighbors & 137;  // north | west | north-west
    assert({
        &&& (m == 128 || m == 0) == (neighbors & 1 == 0 && neighbors & 8 == 0)
        &&& (m == 1 || m == 129) == (neighbors & 1 != 0 && neighbors & 8 == 0)
        &&& (m == 8 || m == 136) == (neighbors & 1 == 0 && neighbors & 8 != 0)
        &&& (m == 9) == (neighbors & 1 != 0 && neighbors & 8 != 0 && neighbors & 128 == 0)
    }) by (bit_vector)
        requires
            m == neighbors & 137u8,
    ;
    let (x, y) = match m {
        128 | 0 => (0, 2),
        1 | 129 => (0, 4),
        8 | 136 => (2, 2),
        9 => (2, 0),
        _ => (2, 4),
    };
    Point2 { x, y }
}

/// Quarter for the top-right corner.
pub fn autotile_b(neighbors: u8) -> (p: Point2)
    ensures
        is_point(p, quarter_b(neighbors)),
{
    if neighbors == 0 {
        return Point2 { x: 1, y: 0 };
    }
    let m = neighbors & 19;  // north | east | north-east
    assert({
        &&& (m == 16 || m == 0) == (neighbors & 1 == 0 && neighbors & 2 == 0)
        &&& (m == 1 || m == 17) == (neighbors & 1 != 0 && neighbors & 2 == 0)
        &&& (m == 2 || m == 18) == (neighbors & 1 == 0 && neighbors & 2 != 0)
        &&& (m == 3) == (neighbors & 1 != 0 && neighbors & 2 != 0 && neighbors & 16 == 0)
    }) by (bit_vector)
        requires
            m == neighbors & 19u8,
    ;
    let (x, y) = match m {
        16 | 0 => (3, 2),
        1 | 17 => (3, 4),
        2 | 18 => (1, 2),
        3 => (3, 0),
        _ => (1, 4),
    };
    Point2 { x, y }
}

/// Quarter for the bottom-left corner.
pub fn autotile_c(neighbors: u8) -> (p: Point2)
    ensures
        is_point(p, quarter_c(neighbors)),
{
    if neighbors == 0 {
        return Point2 { x: 0, y: 1 };
    }
    let m = neighbors & 76;  // south | west | south-west
    assert({
        &&& (m == 64 || m == 0) == (neighbors & 4 == 0 && neighbors & 8 == 0)
        &&& (m == 4 || m == 68) == (neighbors & 4 != 0 && neighbors & 8 == 0)
        &&& (m == 8 || m == 72) == (neighbors & 4 == 0 && neighbors & 8 != 0)
        &&& (m == 12) == (neighbors & 4 != 0 && neighbors & 8 != 0 && neighbors & 64 == 0)
    }) by (bit_vector)
        requires
            m == neighbors & 76u8,
    ;
    let (x, y) = match m {
        64 | 0 => (0, 5),
        4 | 68 => (0, 3),
        8 | 72 => (2, 5),
        12 => (2, 1),
        _ => (2, 3),
    };
    Point2 { x, y }
}

/// Quarter for the bottom-right corner.
pub fn autotile_d(neighbors: u8) -> (p: Point2)
    ensures
        is_point(p, quarter_d(neighbors)),
{
    if neighbors == 0 {
        return Point2 { x: 1, y: 1 };
    }
    let m = neighbors & 38;  // south | east | south-east
    assert({
        &&& (m == 32 || m == 0) == (neighbors & 4 == 0 && neighbors & 2 == 0)
        &&& (m == 4 || m == 36) == (neighbors & 4 != 0 && neighbors & 2 == 0)
        &&& (m == 2 || m == 34) == (neighbors & 4 == 0 && neighbors & 2 != 0)
        &&& (m == 6) == (neighbors & 4 != 0 && neighbors & 2 != 0 && neighbors & 32 == 0)
    }) by (bit_vector)
        requires
            m == neighbors & 38u8,
    ;
    let (x, y) = match m {
        32 | 0 => (3, 5),
        4 | 36 => (3, 3),
        2 | 34 => (1, 5),
        6 => (3, 1),
        _ => (1, 3),
    };
    Point2 { x, y }
}

/// The top-left quarter, as the sheet lays it out: a cell with no matching
/// neighbour is drawn from the preview at (0int, 0int); any other cell is drawn
/// by whether its neighbours 1 (vertical), 8 (horizontal) and 128
/// (diagonal) match, whatever its other neighbours are.
pub proof fn law_top_left_quarter(n: u8)
    ensures
        n == 0 ==> quarter_a(n) == (0int, 0int),
        n != 0 && (n & 137u8 == 0 || n & 137u8 == 128) ==> quarter_a(n) == (0int, 2int),
        n & 137u8 == 1 || n & 137u8 == 1u8 + 128u8 ==> quarter_a(n) == (0int, 4int),
        n & 137u8 == 8 || n & 137u8 == 8u8 + 128u8 ==> quarter_a(n) == (2int, 2int),
        n & 137u8 == 1u8 + 8u8 ==> quarter_a(n) == (2int, 0int),
        n & 137u8 == 137 ==> quarter_a(n) == (2int, 4int),
        n & 137u8 == 0 || n & 137u8 == 1 || n & 137u8 == 8 || n & 137u8 == 128
            || n & 137u8 == 1u8 + 8u8 || n & 137u8 == 1u8 + 128u8 || n & 137u8 == 8u8 + 128u8
            || n & 137u8 == 137,
{
    let m = n & 137u8;
    assert({
        &&& (n & 1u8 != 0) == (m == 1 || m == 1u8 + 128u8 || m == 1u8 + 8u8 || m == 137)
        &&& (n & 8u8 != 0) == (m == 8 || m == 8u8 + 128u8 || m == 1u8 + 8u8 || m == 137)
        &&& (n & 128u8 != 0) == (m == 128 || m == 1u8 + 128u8 || m == 8u8 + 128u8 || m == 137)
        &&& (m == 0 || m == 1 || m == 8 || m == 128 || m == 1u8 + 8u8 || m == 1u8 + 128u8
            || m == 8u8 + 128u8 || m == 137)
        &&& (m != 0 ==> n != 0)
    }) by (bit_vector)
        requires
            m == n & 137u8,
    ;
}

/// The top-right quarter, as the sheet lays it out: a cell with no matching
/// neighbour is drawn from the preview at (1int, 0int); any other cell is drawn
/// by whether its neighbours 1 (vertical), 2 (horizontal) and 16
/// (diagonal) match, whatever its other neighbours are.
pub proof fn law_top_right_quarter(n: u8)
    ensures
        n == 0 ==> quarter_b(n) == (1int, 0int),
        n != 0 && (n & 19u8 == 0 || n & 19u8 == 16) ==> quarter_b(n) == (3int, 2int),
        n & 19u8 == 1 || n & 19u8 == 1u8 + 16u8 ==> quarter_b(n) == (3int, 4int),
        n & 19u8 == 2 || n & 19u8 == 2u8 + 16u8 ==> quarter_b(n) == (1int, 2int),
        n & 19u8 == 1u8 + 2u8 ==> quarter_b(n) == (3int, 0int),
        n & 19u8 == 19 ==> quarter_b(n) == (1int, 4int),
        n & 19u8 == 0 || n & 19u8 == 1 || n & 19u8 == 2 || n & 19u8 == 16
            || n & 19u8 == 1u8 + 2u8 || n & 19u8 == 1u8 + 16u8 || n & 19u8 == 2u8 + 16u8
            || n & 19u8 == 19,
{
    let m = n & 19u8;
    assert({
        &&& (n & 1u8 != 0) == (m == 1 || m == 1u8 + 16u8 || m == 1u8 + 2u8 || m == 19)
        &&& (n & 2u8 != 0) == (m == 2 || m == 2u8 + 16u8 || m == 1u8 + 2u8 || m == 19)
        &&& (n & 16u8 != 0) == (m == 16 || m == 1u8 + 16u8 || m == 2u8 + 16u8 || m == 19)
        &&& (m == 0 || m == 1 || m == 2 || m == 16 || m == 1u8 + 2u8 || m == 1u8 + 16u8
            || m == 2u8 + 16u8 || m == 19)
        &&& (m != 0 ==> n != 0)
    }) by (bit_vector)
        requires
            m == n & 19u8,
    ;
}

/// The bottom-left quarter, as the sheet lays it out: a cell with no matching
/// neighbour is drawn from the preview at (0int, 1int); any other cell is drawn
/// by whether its neighbours 4 (vertical), 8 (horizontal) and 64
/// (diagonal) match, whatever its other neighbours are.
pub proof fn law_bottom_left_quarter(n: u8)
    ensures
        n == 0 ==> quarter_c(n) == (0int, 1int),
        n != 0 && (n & 76u8 == 0 || n & 76u8 == 64) ==> quarter_c(n) == (0int, 5int),
        n & 76u8 == 4 || n & 76u8 == 4u8 + 64u8 ==> quarter_c(n) == (0int, 3int),
        n & 76u8 == 8 || n & 76u8 == 8u8 + 64u8 ==> quarter_c(n) == (2int, 5int),
        n & 76u8 == 4u8 + 8u8 ==> quarter_c(n) == (2int, 1int),
        n & 76u8 == 76 ==> quarter_c(n) == (2int, 3int),
        n & 76u8 == 0 || n & 76u8 == 4 || n & 76u8 == 8 || n & 76u8 == 64
            || n & 76u8 == 4u8 + 8u8 || n & 76u8 == 4u8 + 64u8 || n & 76u8 == 8u8 + 64u8
            || n & 76u8 == 76,
{
    let m = n & 76u8;
    assert({
        &&& (n & 4u8 != 0) == (m == 4 || m == 4u8 + 64u8 || m == 4u8 + 8u8 || m == 76)
        &&& (n & 8u8 != 0) == (m == 8 || m == 8u8 + 64u8 || m == 4u8 + 8u8 || m == 76)
        &&& (n & 64u8 != 0) == (m == 64 || m == 4u8 + 64u8 || m == 8u8 + 64u8 || m == 76)
        &&& (m == 0 || m == 4 || m == 8 || m == 64 || m == 4u8 + 8u8 || m == 4u8 + 64u8
            || m == 8u8 + 64u8 || m == 76)
        &&& (m != 0 ==> n != 0)
    }) by (bit_vector)
        requires
            m == n & 76u8,
    ;
}

/// The bottom-right quarter, as the sheet lays it out: a cell with no matching
/// neighbour is drawn from the preview at (1int, 1int); any other cell is drawn
/// by whether its neighbours 4 (vertical), 2 (horizontal) and 32
/// (diagonal) match, whatever its other neighbours are.
pub proof fn law_bottom_right_quarter(n: u8)
    ensures
        n == 0 ==> quarter_d(n) == (1int, 1int),
        n != 0 && (n & 38u8 == 0 || n & 38u8 == 32) ==> quarter_d(n) == (3int, 5int),
        n & 38u8 == 4 || n & 38u8 == 4u8 + 32u8 ==> quarter_d(n) == (3int, 3int),
        n & 38u8 == 2 || n & 38u8 == 2u8 + 32u8 ==> quarter_d(n) == (1int, 5int),
        n & 38u8 == 4u8 + 2u8 ==> quarter_d(n) == (3int, 1int),
        n & 38u8 == 38 ==> quarter_d(n) == (1int, 3int),
        n & 38u8 == 0 || n & 38u8 == 4 || n & 38u8 == 2 || n & 38u8 == 32
            || n & 38u8 == 4u8 + 2u8 || n & 38u8 == 4u8 + 32u8 || n & 38u8 == 2u8 + 32u8
            || n & 38u8 == 38,
{
    let m = n & 38u8;
    assert({
        &&& (n & 4u8 != 0) == (m == 4 || m == 4u8 + 32u8 || m == 4u8 + 2u8 || m == 38)
        &&& (n & 2u8 != 0) == (m == 2 || m == 2u8 + 32u8 || m == 4u8 + 2u8 || m == 38)
        &&& (n & 32u8 != 0) == (m == 32 || m == 4u8 + 32u8 || m == 2u8 + 32u8 || m == 38)
        &&& (m == 0 || m == 4 || m == 2 || m == 32 || m == 4u8 + 2u8 || m == 4u8 + 32u8
            || m == 2u8 + 32u8 || m == 38)
        &&& (m != 0 ==> n != 0)
    }) by (bit_vector)
        requires
            m == n & 38u8,
    ;
}

/// The four quarter tiles an autotile cell is drawn from, in half-tile
/// units of the tileset.
#[derive(Clone, Copy, Debug, PartialEq, Eq, Structural)]
pub struct AutoTile {
    pub top_left: Point2,
    pub top_right: Point2,
    pub bottom_left: Point2,
    pub bottom_right: Point2,
}

/// Whether `base + q` stays within `i32`.
pub open spec fn shifted_fits(base: Point2, q: (int, int)) -> bool {
    i32::MIN <= base.x + q.0 <= i32::MAX && i32::MIN <= base.y + q.1 <= i32::MAX
}

pub open spec fn shifted(base: Point2, q: (int, int)) -> Point2 {
    Point2 { x: (base.x + q.0) as i32, y: (base.y + q.1) as i32 }
}

/// Whether the four quarters that `neighbors` selects for an autotile at
/// `base` have coordinates that fit in `i32`.
pub open spec fn quarters_fit(base: Point2, neighbors: u8) -> bool {
    &&& shifted_fits(base, quarter_a(neighbors))
    &&& shifted_fits(base, quarter_b(neighbors))
    &&& shifted_fits(base, quarter_c(neighbors))
    &&& shifted_fits(base, quarter_d(neighbors))
}

impl AutoTile {
    /// The autotile whose quarters sit at `base` shifted by the quarters
    /// that `neighbors` selects.
    pub open spec fn spec_new(base: Point2, neighbors: u8) -> AutoTile {
        AutoTile {
            top_left: shifted(base, quarter_a(neighbors)),
            top_right: shifted(base, quarter_b(neighbors)),
            bottom_left: shifted(base, quarter_c(neighbors)),
            bottom_right: shifted(base, quarter_d(neighbors)),
        }
    }

    /// Picks the four quarters of an autotile whose sheet starts at `base`
    /// (in half tiles) from the set of matching neighbours.
    pub fn new(base: Point2, neighbors: u8) -> (t: AutoTile)
        requires
            quarters_fit(base, neighbors),
        ensures
            t == AutoTile::spec_new(base, neighbors),
    {
        let a = autotile_a(neighbors);
        let b = autotile_b(neighbors);
        let c = autotile_c(neighbors);
        let d = autotile_d(neighbors);
        AutoTile {
            top_left: Point2 { x: base.x + a.x, y: base.y + a.y },
            top_right: Point2 { x: base.x + b.x, y: base.y + b.y },
            bottom_left: Point2 { x: base.x + c.x, y: base.y + c.y },
            bottom_right: Point2 { x: base.x + d.x, y: base.y + d.y },
        }
    }
}

} // verus!
