//! Arrangements of tiles as sequences: what it means for a sequence to hold
//! every tile once, the solved arrangement, and the facts that tie them to
//! the tile order.

use crate::order::{is_sorted, tile_key};
use vstd::prelude::*;

verus! {

/// Whether `tiles` is an arrangement of the values `0 .. tiles.len()`:
/// every entry is one of these values and no value occurs twice.
pub open spec fn is_permutation(tiles: Seq<usize>) -> bool {
    &&& forall|i: int| 0 <= i < tiles.len() ==> #[trigger] tiles[i] < tiles.len()
    &&& forall|i: int, j: int| 0 <= i < j < tiles.len() ==> tiles[i] != tiles[j]
}

/// The solved arrangement of `len` tiles: `1, 2, ..., len - 1` followed by the
/// blank.
pub open spec fn solved_tiles(len: nat) -> Seq<usize> {
    Seq::new(
        len,
        |i: int|
            if i == len - 1 {
                0usize
            } else {
                (i + 1) as usize
            },
    )
}

/// The position of the blank in `tiles`.
pub open spec fn blank_index(tiles: Seq<usize>) -> int {
    choose|z: int| 0 <= z < tiles.len() && tiles[z] == 0
}

/// The solved arrangement holds every tile once.
pub proof fn lemma_solved_is_permutation(len: nat)
    requires
        len <= usize::MAX,
    ensures
        is_permutation(solved_tiles(len)),
{
}

/// The solved arrangement is sorted in the tile order.
pub proof fn lemma_solved_is_sorted(len: nat)
    requires
        len <= usize::MAX,
    ensures
        is_sorted(solved_tiles(len)),
{
}

/// An arrangement of `0 .. len` holds each of these values somewhere.
pub proof fn lemma_permutation_holds_value(tiles: Seq<usize>, value: int)
    requires
        is_permutation(tiles),
        0 <= value < tiles.len(),
    ensures
        exists|i: int| 0 <= i < tiles.len() && tiles[i] == value,
    decreases tiles.len(),
{
    let n: int = tiles.len() as int;
    let last: usize = tiles[n - 1];
    // The first n - 1 entries, with the value n - 1 replaced by the last entry,
    // are an arrangement of 0 .. n - 1.
    let rest = Seq::new(
        (n - 1) as nat,
        |i: int|
            if tiles[i] == n - 1 {
                last
            } else {
                tiles[i]
            },
    );
    if value == n - 1 && value != last {
        // Were the value n - 1 missing, `rest` would be the first n - 1 entries
        // and hold the last entry a second time.
        if forall|i: int| 0 <= i < n - 1 ==> tiles[i] != n - 1 {
            lemma_permutation_holds_value(rest, last as int);
        }
    } else if value != last {
        lemma_permutation_holds_value(rest, value);
    }
}

/// An arrangement is no longer than the number of values a tile can take.
pub proof fn lemma_permutation_len_bound(tiles: Seq<usize>)
    requires
        is_permutation(tiles),
    ensures
        tiles.len() <= usize::MAX + 1,
{
    if tiles.len() > usize::MAX + 1 {
        lemma_permutation_holds_value(tiles, usize::MAX + 1);
    }
}

/// A non-empty arrangement has exactly one blank, and `blank_index` names it.
pub proof fn lemma_one_blank(tiles: Seq<usize>)
    requires
        is_permutation(tiles),
        tiles.len() > 0,
    ensures
        0 <= blank_index(tiles) < tiles.len(),
        forall|i: int| 0 <= i < tiles.len() ==> (#[trigger] tiles[i] == 0 <==> i == blank_index(tiles)),
{
    lemma_permutation_holds_value(tiles, 0);
}

/// Two arrangements of the same length hold the same tiles, each as often as
/// the other.
pub proof fn lemma_permutations_same_multiset(a: Seq<usize>, b: Seq<usize>)
    requires
        is_permutation(a),
        is_permutation(b),
        a.len() == b.len(),
    ensures
        a.to_multiset() == b.to_multiset(),
{
    broadcast use vstd::seq_lib::group_to_multiset_ensures;

    a.lemma_multiset_has_no_duplicates();
    b.lemma_multiset_has_no_duplicates();
    assert forall|v: usize| a.to_multiset().count(v) == b.to_multiset().count(v) by {
        if v < a.len() {
            lemma_permutation_holds_value(a, v as int);
            lemma_permutation_holds_value(b, v as int);
        }
    }
}

/// In a sorted arrangement, the numbered tiles before position `i` leave no
/// room for a value below `i + 1`.
proof fn lemma_sorted_lower_bound(tiles: Seq<usize>, i: int)
    requires
        is_permutation(tiles),
        is_sorted(tiles),
        0 <= i < tiles.len(),
    ensures
        tile_key(tiles[i]) >= i + 1,
    decreases i,
{
    if i > 0 {
        lemma_sorted_lower_bound(tiles, i - 1);
    }
}

/// In a sorted arrangement that ends in the blank, the numbered tiles from
/// position `i` on leave no room for a value above `i + 1`.
proof fn lemma_sorted_upper_bound(tiles: Seq<usize>, i: int)
    requires
        is_permutation(tiles),
        is_sorted(tiles),
        0 <= i < tiles.len() - 1,
        tiles[tiles.len() - 1] == 0,
    ensures
        tile_key(tiles[i]) <= i + 1,
    decreases tiles.len() - i,
{
    if i < tiles.len() - 2 {
        lemma_sorted_upper_bound(tiles, i + 1);
    }
}

/// An arrangement is sorted in the tile order exactly when it is the solved
/// arrangement.
pub proof fn lemma_sorted_iff_solved(tiles: Seq<usize>)
    requires
        is_permutation(tiles),
    ensures
        is_sorted(tiles) <==> tiles == solved_tiles(tiles.len()),
{
    let n: nat = tiles.len();
    lemma_permutation_len_bound(tiles);
    if is_sorted(tiles) && n > 0 {
        lemma_one_blank(tiles);
        let z: int = blank_index(tiles);
        if z < n - 1 {
            // the tile after the blank would come before it
            assert(tile_key(tiles[z]) <= tile_key(tiles[z + 1]));
        }
        assert forall|i: int| 0 <= i < n implies tiles[i] == solved_tiles(n)[i] by {
            if i < n - 1 {
                lemma_sorted_lower_bound(tiles, i);
                lemma_sorted_upper_bound(tiles, i);
            }
        }
    }
    assert(is_sorted(tiles) ==> tiles =~= solved_tiles(n));
}

/// An arrangement whose blank is not in the last position is not sorted,
/// however its numbered tiles are ordered.
pub proof fn lemma_blank_not_last_is_unsorted(tiles: Seq<usize>, blank: int)
    requires
        is_permutation(tiles),
        0 <= blank < tiles.len() - 1,
        tiles[blank] == 0,
    ensures
        !is_sorted(tiles),
        tiles != solved_tiles(tiles.len()),
{
    assert(tiles[blank + 1] != tiles[blank]);
    lemma_sorted_iff_solved(tiles);
}

} // verus!
