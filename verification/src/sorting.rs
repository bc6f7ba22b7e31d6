//! Stable ordering by text keys in code-point order: the order that
//! `sort_by` with a key comparison gives (equal keys keep their input order).

use vstd::prelude::*;
use crate::text::{chars_less, lex_lt, lemma_lex_order};

verus! {

/// Position `i` comes before position `j` when sorting by `keys`: its key is
/// smaller, or the keys are equal and `i` came first.
pub open spec fn key_before(keys: Seq<Seq<char>>, i: int, j: int) -> bool {
    lex_lt(keys[i], keys[j]) || (keys[i] == keys[j] && i < j)
}

/// The character sequences of a list of keys.
pub open spec fn key_views(keys: Seq<Vec<char>>) -> Seq<Seq<char>> {
    keys.map_values(|k: Vec<char>| k@)
}

/// `ord` lists each position of `0..n` exactly once.
pub open spec fn is_permutation(ord: Seq<usize>, n: nat) -> bool {
    &&& ord.len() == n
    &&& forall|k: int| 0 <= k < ord.len() ==> #[trigger] ord[k] < n
    &&& forall|a: int, b: int| 0 <= a < b < ord.len() ==> #[trigger] ord[a] != #[trigger] ord[b]
}

/// `ord` is the stable sorted order of the positions of `keys`.
pub open spec fn is_stable_order(keys: Seq<Seq<char>>, ord: Seq<usize>) -> bool {
    &&& is_permutation(ord, keys.len())
    &&& forall|a: int, b: int|
        0 <= a < b < ord.len() ==> key_before(keys, #[trigger] ord[a] as int, #[trigger] ord[b] as int)
}

/// Every position of `0..n` occurs in a permutation of `0..n`.
pub proof fn lemma_permutation_covers(ord: Seq<usize>, n: nat, p: int)
    requires
        is_permutation(ord, n),
        0 <= p < n,
    ensures
        exists|i: int| 0 <= i < n && ord[i] as int == p,
{
    broadcast use vstd::seq_lib::seq_to_set_is_finite;

    let oi = ord.map_values(|x: usize| x as int);
    assert(oi.no_duplicates()) by {
        assert forall|a: int, b: int| 0 <= a < oi.len() && 0 <= b < oi.len() && a != b implies oi[a]
            != oi[b] by {
            if a < b {
                assert(ord[a] != ord[b]);
            } else {
                assert(ord[b] != ord[a]);
            }
        }
    }
    oi.unique_seq_to_set();
    vstd::set_lib::lemma_int_range(0, n as int);
    assert(oi.to_set().subset_of(vstd::set_lib::set_int_range(0, n as int))) by {
        assert forall|x: int| oi.to_set().contains(x) implies vstd::set_lib::set_int_range(0, n as int).contains(x) by {
            let i = choose|i: int| 0 <= i < oi.len() && oi[i] == x;
            assert(ord[i] < n);
        }
    }
    vstd::set_lib::lemma_subset_equality(oi.to_set(), vstd::set_lib::set_int_range(0, n as int));
    assert(vstd::set_lib::set_int_range(0, n as int).contains(p));
    assert(oi.to_set().contains(p));
    let i = choose|i: int| 0 <= i < oi.len() && oi[i] == p;
    assert(ord[i] as int == p);
}

/// A permutation of `0..n` made of `usize` values has at most as many
/// positions as there are `usize` values.
pub proof fn lemma_permutation_fits(ord: Seq<usize>, n: nat)
    requires
        is_permutation(ord, n),
    ensures
        n <= usize::MAX + 1,
{
    broadcast use vstd::seq_lib::seq_to_set_is_finite;

    let oi = ord.map_values(|x: usize| x as int);
    assert(oi.no_duplicates()) by {
        assert forall|a: int, b: int| 0 <= a < oi.len() && 0 <= b < oi.len() && a != b implies oi[a]
            != oi[b] by {
            if a < b {
                assert(ord[a] != ord[b]);
            } else {
                assert(ord[b] != ord[a]);
            }
        }
    }
    oi.unique_seq_to_set();
    let all = vstd::set_lib::set_int_range(0, usize::MAX + 1);
    vstd::set_lib::lemma_int_range(0, usize::MAX + 1);
    assert(oi.to_set().subset_of(all)) by {
        assert forall|x: int| oi.to_set().contains(x) implies all.contains(x) by {
            let i = choose|i: int| 0 <= i < oi.len() && oi[i] == x;
            assert(oi[i] == ord[i] as int);
        }
    }
    vstd::set_lib::lemma_len_subset(oi.to_set(), all);
}

/// Two distinct positions are ordered one way or the other.
proof fn lemma_key_before_total(keys: Seq<Seq<char>>, i: int, j: int)
    requires
        i != j,
    ensures
        key_before(keys, i, j) || key_before(keys, j, i),
        !(key_before(keys, i, j) && key_before(keys, j, i)),
{
    lemma_lex_order(keys[i], keys[j], keys[i]);
    lemma_lex_order(keys[j], keys[i], keys[j]);
}

proof fn lemma_stable_orders_agree_upto(keys: Seq<Seq<char>>, o1: Seq<usize>, o2: Seq<usize>, k: int)
    requires
        is_stable_order(keys, o1),
        is_stable_order(keys, o2),
        0 <= k <= keys.len(),
    ensures
        forall|m: int| 0 <= m < k ==> o1[m] == o2[m],
    decreases k,
{
    if k > 0 {
        let c = k - 1;
        lemma_stable_orders_agree_upto(keys, o1, o2, c);
        let a = o1[c];
        let b = o2[c];
        if a != b {
            lemma_permutation_covers(o2, keys.len(), a as int);
            let j = choose|j: int| 0 <= j < keys.len() && o2[j] as int == a as int;
            lemma_permutation_covers(o1, keys.len(), b as int);
            let j2 = choose|j: int| 0 <= j < keys.len() && o1[j] as int == b as int;
            if j < c {
                assert(o1[j] == o2[j]);
                assert(o1[j] != o1[c]);
            } else if j2 < c {
                assert(o1[j2] == o2[j2]);
                assert(o2[j2] != o2[c]);
            } else {
                assert(key_before(keys, b as int, a as int));
                assert(key_before(keys, a as int, b as int));
                lemma_key_before_total(keys, a as int, b as int);
            }
        }
    }
}

/// The stable sorted order is unique: the order of equal keys is fixed by
/// their positions, so sorting leaves no choice.
pub proof fn lemma_stable_order_unique(keys: Seq<Seq<char>>, o1: Seq<usize>, o2: Seq<usize>)
    requires
        is_stable_order(keys, o1),
        is_stable_order(keys, o2),
    ensures
        o1 == o2,
{
    lemma_stable_orders_agree_upto(keys, o1, o2, keys.len() as int);
    assert(o1 =~= o2);
}

/// `run` lists the positions `lo..hi`, each once, in stable sorted order:
/// there are `hi - lo` of them, all in range, each before the next.
pub open spec fn is_sorted_run(keys: Seq<Seq<char>>, run: Seq<usize>, lo: int, hi: int) -> bool {
    &&& run.len() == hi - lo
    &&& forall|k: int| 0 <= k < run.len() ==> lo <= #[trigger] run[k] < hi
    &&& forall|a: int, b: int|
        0 <= a < b < run.len() ==> key_before(keys, #[trigger] run[a] as int, #[trigger] run[b] as int)
}

/// Coming before is transitive.
proof fn lemma_key_before_transitive(keys: Seq<Seq<char>>, x: int, y: int, z: int)
    requires
        key_before(keys, x, y),
        key_before(keys, y, z),
    ensures
        key_before(keys, x, z),
{
    lemma_lex_order(keys[x], keys[y], keys[z]);
    lemma_lex_order(keys[x], keys[x], keys[x]);
}

/// A sorted run of all positions is a stable order.
proof fn lemma_full_run_is_order(keys: Seq<Seq<char>>, run: Seq<usize>)
    requires
        is_sorted_run(keys, run, 0, keys.len() as int),
    ensures
        is_stable_order(keys, run),
{
    assert forall|a: int, b: int| 0 <= a < b < run.len() implies #[trigger] run[a] != #[trigger] run[b] by {
        assert(key_before(keys, run[a] as int, run[b] as int));
        lemma_lex_order(keys[run[a] as int], keys[run[a] as int], keys[run[a] as int]);
    }
}

/// Merges the sorted runs of `lo..mid` and `mid..hi` into the sorted run of
/// `lo..hi`; on equal keys the earlier position (from `left`) goes first.
fn merge_runs(keys: &Vec<Vec<char>>, left: &Vec<usize>, right: &Vec<usize>, lo: usize, mid: usize, hi: usize) -> (out: Vec<usize>)
    requires
        lo <= mid <= hi <= keys.len(),
        is_sorted_run(key_views(keys@), left@, lo as int, mid as int),
        is_sorted_run(key_views(keys@), right@, mid as int, hi as int),
    ensures
        is_sorted_run(key_views(keys@), out@, lo as int, hi as int),
{
    let ghost ks = key_views(keys@);
    let mut out: Vec<usize> = Vec::new();
    let mut i: usize = 0;
    let mut j: usize = 0;
    while i < left.len() || j < right.len()
        invariant
            ks == key_views(keys@),
            ks.len() == keys.len(),
            lo <= mid <= hi <= keys.len(),
            is_sorted_run(ks, left@, lo as int, mid as int),
            is_sorted_run(ks, right@, mid as int, hi as int),
            i <= left.len(),
            j <= right.len(),
            out.len() == i + j,
            forall|k: int| 0 <= k < out.len() ==> lo <= #[trigger] out@[k] < hi,
            forall|a: int, b: int|
                0 <= a < b < out.len() ==> key_before(ks, #[trigger] out@[a] as int, #[trigger] out@[b] as int),
            forall|k: int, m: int|
                0 <= k < out.len() && i <= m < left.len() ==> key_before(
                    ks,
                    #[trigger] out@[k] as int,
                    #[trigger] left@[m] as int,
                ),
            forall|k: int, m: int|
                0 <= k < out.len() && j <= m < right.len() ==> key_before(
                    ks,
                    #[trigger] out@[k] as int,
                    #[trigger] right@[m] as int,
                ),
        decreases left.len() + right.len() - i - j,
    {
        let take_left = if i < left.len() && j < right.len() {
            !chars_less(&keys[right[j]], &keys[left[i]])
        } else {
            i < left.len()
        };
        let ghost prev = out@;
        if take_left {
            let e = left[i];
            proof {
                assert forall|m: int| i < m < left.len() implies key_before(ks, e as int, #[trigger] left@[m] as int) by {
                    assert(key_before(ks, left@[i as int] as int, left@[m] as int));
                }
                if j < right.len() {
                    let r = right@[j as int] as int;
                    assert(ks[r] == keys@[r]@);
                    assert(ks[e as int] == keys@[e as int]@);
                    assert(!lex_lt(ks[r], ks[e as int]));
                    lemma_lex_order(ks[e as int], ks[r], ks[e as int]);
                    assert(e < mid && mid <= r);
                    assert(key_before(ks, e as int, r));
                    assert forall|m: int| j <= m < right.len() implies key_before(ks, e as int, #[trigger] right@[m] as int) by {
                        if m > j {
                            assert(key_before(ks, r, right@[m] as int));
                            lemma_key_before_transitive(ks, e as int, r, right@[m] as int);
                        }
                    }
                }
            }
            out.push(e);
            i = i + 1;
            proof {
                assert forall|a: int, b: int| 0 <= a < b < out.len() implies key_before(ks, #[trigger] out@[a] as int, #[trigger] out@[b] as int) by {
                    if b == out.len() - 1 {
                        assert(out@[a] == prev[a]);
                        assert(key_before(ks, prev[a] as int, left@[i - 1] as int));
                    } else {
                        assert(out@[a] == prev[a] && out@[b] == prev[b]);
                    }
                }
                assert forall|k: int, m: int| 0 <= k < out.len() && i <= m < left.len() implies key_before(ks, #[trigger] out@[k] as int, #[trigger] left@[m] as int) by {
                    if k < prev.len() {
                        assert(out@[k] == prev[k]);
                    }
                }
                assert forall|k: int, m: int| 0 <= k < out.len() && j <= m < right.len() implies key_before(ks, #[trigger] out@[k] as int, #[trigger] right@[m] as int) by {
                    if k < prev.len() {
                        assert(out@[k] == prev[k]);
                    }
                }
            }
        } else {
            let e = right[j];
            proof {
                assert forall|m: int| j < m < right.len() implies key_before(ks, e as int, #[trigger] right@[m] as int) by {
                    assert(key_before(ks, right@[j as int] as int, right@[m] as int));
                }
                if i < left.len() {
                    let l = left@[i as int] as int;
                    assert(ks[l] == keys@[l]@);
                    assert(ks[e as int] == keys@[e as int]@);
                    assert(lex_lt(ks[e as int], ks[l]));
                    assert(key_before(ks, e as int, l));
                    assert forall|m: int| i <= m < left.len() implies key_before(ks, e as int, #[trigger] left@[m] as int) by {
                        if m > i {
                            assert(key_before(ks, l, left@[m] as int));
                            lemma_key_before_transitive(ks, e as int, l, left@[m] as int);
                        }
                    }
                }
            }
            out.push(e);
            j = j + 1;
            proof {
                assert forall|a: int, b: int| 0 <= a < b < out.len() implies key_before(ks, #[trigger] out@[a] as int, #[trigger] out@[b] as int) by {
                    if b == out.len() - 1 {
                        assert(out@[a] == prev[a]);
                        assert(key_before(ks, prev[a] as int, right@[j - 1] as int));
                    } else {
                        assert(out@[a] == prev[a] && out@[b] == prev[b]);
                    }
                }
                assert forall|k: int, m: int| 0 <= k < out.len() && i <= m < left.len() implies key_before(ks, #[trigger] out@[k] as int, #[trigger] left@[m] as int) by {
                    if k < prev.len() {
                        assert(out@[k] == prev[k]);
                    }
                }
                assert forall|k: int, m: int| 0 <= k < out.len() && j <= m < right.len() implies key_before(ks, #[trigger] out@[k] as int, #[trigger] right@[m] as int) by {
                    if k < prev.len() {
                        assert(out@[k] == prev[k]);
                    }
                }
            }
        }
    }
    out
}

/// The sorted run of the positions `lo..hi`.
fn sort_range(keys: &Vec<Vec<char>>, lo: usize, hi: usize) -> (run: Vec<usize>)
    requires
        lo <= hi <= keys.len(),
    ensures
        is_sorted_run(key_views(keys@), run@, lo as int, hi as int),
    decreases hi - lo,
{
    if hi - lo <= 1 {
        let mut run: Vec<usize> = Vec::new();
        if hi > lo {
            run.push(lo);
        }
        run
    } else {
        let mid = lo + (hi - lo) / 2;
        let left = sort_range(keys, lo, mid);
        let right = sort_range(keys, mid, hi);
        merge_runs(keys, &left, &right, lo, mid, hi)
    }
}

/// The positions of `keys` in stable sorted order (a merge sort).
pub fn stable_order(keys: &Vec<Vec<char>>) -> (ord: Vec<usize>)
    ensures
        is_stable_order(key_views(keys@), ord@),
{
    let ord = sort_range(keys, 0, keys.len());
    proof {
        lemma_full_run_is_order(key_views(keys@), ord@);
    }
    ord
}

} // verus!
