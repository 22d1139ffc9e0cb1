//! The order in which tiles are compared: by value, except that the blank
//! (value `0`) comes after every numbered tile.

use std::cmp::Ordering;
use vstd::prelude::*;

verus! {

/// The rank of a tile in the solved arrangement: a numbered tile ranks by its
/// value, and the blank ranks above every value a tile can hold.
pub open spec fn tile_key(tile: usize) -> int {
    if tile == 0 {
        usize::MAX + 1
    } else {
        tile as int
    }
}

/// How tile `a` compares with tile `b`: the comparison of their ranks.
pub open spec fn tile_order(a: usize, b: usize) -> Ordering {
    if tile_key(a) < tile_key(b) {
        Ordering::Less
    } else if tile_key(a) == tile_key(b) {
        Ordering::Equal
    } else {
        Ordering::Greater
    }
}

/// Whether `tiles` is non-decreasing in the tile order: no tile comes after a
/// tile further on.
pub open spec fn is_sorted(tiles: Seq<usize>) -> bool {
    forall|i: int, j: int|
        0 <= i < j < tiles.len() ==> tile_key(#[trigger] tiles[i]) <= tile_key(#[trigger] tiles[j])
}

/// Compares two tiles. Equal values compare equal, the blank is greater than
/// any numbered tile, and numbered tiles compare by value.
pub fn tile_cmp(a: &usize, b: &usize) -> (r: Option<Ordering>)
    ensures
        r == Some(tile_order(*a, *b)),
{
    if *a == *b {
        return Some(Ordering::Equal);
    }
    if *a == 0 {
        return Some(Ordering::Greater);
    }
    if *b == 0 {
        return Some(Ordering::Less);
    }
    if *a < *b {
        Some(Ordering::Less)
    } else {
        Some(Ordering::Greater)
    }
}

} // verus!
