//! The selection-border arithmetic behind the selection renderer: which
//! tile of the border atlas a selected pixel shows, from which of its
//! neighbours are outside the selection.

use vstd::prelude::*;
use crate::bitmap2d::PosSet;

verus! {

/// The coordinate to the right, wrapping around the address space as the
/// renderer's pointer arithmetic does.
pub open spec fn wrap_inc(v: usize) -> usize {
    if v == usize::MAX {
        0
    } else {
        (v + 1) as usize
    }
}

/// The coordinate to the left, wrapping around the address space.
pub open spec fn wrap_dec(v: usize) -> usize {
    if v == 0 {
        usize::MAX
    } else {
        (v - 1) as usize
    }
}

/// The atlas tile index for a selected pixel: twice the weight of a
/// missing right (respectively upper) neighbour plus the weight of a
/// missing left (respectively lower) one.
pub open spec fn spec_tile_offsets(s: Set<(int, int)>, x: usize, y: usize) -> (int, int) {
    let right: int = if !s.contains((wrap_inc(x) as int, y as int)) {
        2
    } else {
        0
    };
    let left: int = if !s.contains((wrap_dec(x) as int, y as int)) {
        1
    } else {
        0
    };
    let up: int = if !s.contains((x as int, wrap_dec(y) as int)) {
        2
    } else {
        0
    };
    let down: int = if !s.contains((x as int, wrap_inc(y) as int)) {
        1
    } else {
        0
    };
    (right + left, up + down)
}

/// Compute the atlas tile a selected pixel at `(x, y)` shows, from the
/// membership of its four axis neighbours in the selection.
pub fn tile_offsets(selection: &PosSet, x: usize, y: usize) -> (r: (usize, usize))
    ensures
        r.0 == spec_tile_offsets(selection.view_set(), x, y).0,
        r.1 == spec_tile_offsets(selection.view_set(), x, y).1,
{
    let xr = if x == usize::MAX {
        0
    } else {
        x + 1
    };
    let xl = if x == 0 {
        usize::MAX
    } else {
        x - 1
    };
    let yu = if y == 0 {
        usize::MAX
    } else {
        y - 1
    };
    let yd = if y == usize::MAX {
        0
    } else {
        y + 1
    };
    let mut tx: usize = 0;
    let mut ty: usize = 0;
    if !selection.contains(xr, y) {
        tx = tx + 2;
    }
    if !selection.contains(xl, y) {
        tx = tx + 1;
    }
    if !selection.contains(x, yu) {
        ty = ty + 2;
    }
    if !selection.contains(x, yd) {
        ty = ty + 1;
    }
    (tx, ty)
}

} // verus!
