//! Stable sorting of entries, one after the other or in parallel.
//!
//! Both sorts are stated through one relation: the result rearranges the
//! input, stands in listing order, and keeps tied entries in the order
//! the input had them in. That relation has exactly one solution, so the two
//! sorts agree on every input.

use vstd::prelude::*;
use vstd::set_lib::{lemma_int_range, lemma_subset_equality, set_int_range};
use crate::entry::Entry;
use crate::order::{precedes, comes_before, entry_order};
use crate::order::{lemma_precedes_asymmetric, lemma_precedes_splits};

verus! {

/// Whether entries are put in listing order or left as they were scanned.
#[derive(Clone, Copy, Debug, PartialEq, Eq, Structural)]
pub enum SortMode {
    Ordered,
    Unordered,
}

/// Whether `p` lists each of the indices `0..n` exactly once.
pub open spec fn is_permutation(p: Seq<int>, n: nat) -> bool {
    &&& p.len() == n
    &&& forall|i: int| 0 <= i < p.len() ==> 0 <= #[trigger] p[i] < n
    &&& p.no_duplicates()
}

/// Whether `b` is `a` rearranged by `p`: position `i` of `b` holds what
/// position `p[i]` of `a` held.
pub open spec fn arranges(p: Seq<int>, a: Seq<Entry>, b: Seq<Entry>) -> bool {
    &&& is_permutation(p, a.len())
    &&& b.len() == a.len()
    &&& forall|i: int| 0 <= i < b.len() ==> #[trigger] b[i] == a[p[i]]
}

/// Whether positions `i < j` of `b` stand right: the later entry does not
/// belong before the earlier one, and if the two tie, the earlier one
/// came first in the input.
pub open spec fn pair_in_order(p: Seq<int>, b: Seq<Entry>, i: int, j: int) -> bool {
    !precedes(b[j], b[i]) && (!precedes(b[i], b[j]) ==> p[i] < p[j])
}

/// Whether every two positions of `b` stand right.
pub open spec fn in_order(p: Seq<int>, b: Seq<Entry>) -> bool {
    forall|i: int, j: int| 0 <= i < j < b.len() ==> #[trigger] pair_in_order(p, b, i, j)
}

/// Whether `b` is `a` sorted stably: a rearrangement of `a` in listing
/// order in which tied entries keep the order they had in `a`.
pub open spec fn is_stable_sort(a: Seq<Entry>, b: Seq<Entry>) -> bool {
    exists|p: Seq<int>| #[trigger] arranges(p, a, b) && in_order(p, b)
}

/// Whether `b` is what sorting `a` in the given mode gives.
pub open spec fn is_sorted_as(mode: SortMode, a: Seq<Entry>, b: Seq<Entry>) -> bool {
    match mode {
        SortMode::Ordered => is_stable_sort(a, b),
        SortMode::Unordered => b == a,
    }
}

/// A permutation of `0..n` reaches every index below `n`.
proof fn lemma_permutation_reaches(p: Seq<int>, n: nat, v: int)
    requires
        is_permutation(p, n),
        0 <= v < n,
    ensures
        exists|j: int| 0 <= j < n && p[j] == v,
{
    let image = p.to_set();
    let all = set_int_range(0, n as int);
    lemma_int_range(0, n as int);
    p.unique_seq_to_set();
    assert(image.subset_of(all)) by {
        assert forall|x: int| image.contains(x) implies all.contains(x) by {
            let k = choose|k: int| 0 <= k < p.len() && p[k] == x;
            assert(0 <= p[k] < n);
        }
    }
    assert(image.finite()) by {
        vstd::set_lib::lemma_len_subset(image, all);
    }
    lemma_subset_equality(image, all);
    assert(all.contains(v));
    assert(image.contains(v));
    let j = choose|j: int| 0 <= j < p.len() && p[j] == v;
    assert(0 <= j < n && p[j] == v);
}

/// Two rearrangements of one input that both stand in order agree on
/// their first `n` positions.
proof fn lemma_orders_agree(a: Seq<Entry>, b: Seq<Entry>, c: Seq<Entry>, p: Seq<int>, q: Seq<
    int,
>, n: int)
    requires
        arranges(p, a, b),
        in_order(p, b),
        arranges(q, a, c),
        in_order(q, c),
        0 <= n <= a.len(),
    ensures
        forall|i: int| 0 <= i < n ==> p[i] == q[i],
    decreases n,
{
    if n > 0 {
        lemma_orders_agree(a, b, c, p, q, n - 1);
        let i = n - 1;
        let x = p[i];
        let y = q[i];
        if x != y {
            // where does the other arrangement hold `x`, and where this one `y`?
            lemma_permutation_reaches(q, a.len(), x);
            let j = choose|j: int| 0 <= j < a.len() && q[j] == x;
            lemma_permutation_reaches(p, a.len(), y);
            let k = choose|k: int| 0 <= k < a.len() && p[k] == y;
            assert(j > i) by {
                if j < i {
                    assert(p[j] == q[j]);
                }
            }
            assert(k > i) by {
                if k < i {
                    assert(q[k] == p[k]);
                }
            }
            assert(pair_in_order(q, c, i, j));
            assert(pair_in_order(p, b, i, k));
            assert(c[i] == a[y] && c[j] == a[x]);
            assert(b[i] == a[x] && b[k] == a[y]);
            lemma_precedes_asymmetric(a[x], a[y]);
            assert(false);
        }
    }
}

/// A stable sort has one result: whatever sorts the same input stably,
/// in sequence or in parallel, arrives at the same list.
pub proof fn lemma_stable_sort_unique(a: Seq<Entry>, b: Seq<Entry>, c: Seq<Entry>)
    requires
        is_stable_sort(a, b),
        is_stable_sort(a, c),
    ensures
        b == c,
{
    let p = choose|p: Seq<int>| #[trigger] arranges(p, a, b) && in_order(p, b);
    let q = choose|q: Seq<int>| #[trigger] arranges(q, a, c) && in_order(q, c);
    lemma_orders_agree(a, b, c, p, q, a.len() as int);
    assert(b =~= c);
}

/// Sorting in a given mode has one result.
pub proof fn lemma_sorted_as_unique(mode: SortMode, a: Seq<Entry>, b: Seq<Entry>, c: Seq<Entry>)
    requires
        is_sorted_as(mode, a, b),
        is_sorted_as(mode, a, c),
    ensures
        b == c,
{
    if mode == SortMode::Ordered {
        lemma_stable_sort_unique(a, b, c);
    }
}

/// A stably sorted list stands in listing order: directories first, and
/// no entry before one that it must follow.
pub proof fn lemma_sorted_is_ordered(a: Seq<Entry>, b: Seq<Entry>, i: int, j: int)
    requires
        is_stable_sort(a, b),
        0 <= i < j < b.len(),
    ensures
        !precedes(b[j], b[i]),
        b[j].is_directory ==> b[i].is_directory,
{
    let p = choose|p: Seq<int>| #[trigger] arranges(p, a, b) && in_order(p, b);
    assert(pair_in_order(p, b, i, j));
}

/// Where `x` goes in the sorted list `out`: behind everything that must
/// stand before it, in front of everything else.
fn insertion_point(out: &Vec<Entry>, x: &Entry) -> (pos: usize)
    ensures
        pos <= out.len(),
        forall|i: int| 0 <= i < pos ==> precedes(#[trigger] out@[i], *x),
        pos < out.len() ==> !precedes(out@[pos as int], *x),
{
    let mut pos: usize = 0;
    while pos < out.len() && comes_before(&out[pos], x)
        invariant
            pos <= out.len(),
            forall|i: int| 0 <= i < pos ==> precedes(#[trigger] out@[i], *x),
        decreases out.len() - pos,
    {
        pos += 1;
    }
    pos
}

/// Sorts entries stably into listing order, one insertion at a time.
pub fn sort_sequential(entries: Vec<Entry>) -> (sorted: Vec<Entry>)
    ensures
        is_stable_sort(entries@, sorted@),
{
    let ghost a = entries@;
    let mut rest = entries;
    let mut out: Vec<Entry> = Vec::new();
    let ghost mut p: Seq<int> = Seq::empty();
    while rest.len() > 0
        invariant
            rest@ == a.subrange(0, rest@.len() as int),
            rest@.len() <= a.len(),
            out@.len() + rest@.len() == a.len(),
            p.len() == out@.len(),
            p.no_duplicates(),
            forall|i: int| 0 <= i < p.len() ==> rest@.len() <= #[trigger] p[i] < a.len(),
            forall|i: int| 0 <= i < out@.len() ==> #[trigger] out@[i] == a[p[i]],
            in_order(p, out@),
        decreases rest@.len(),
    {
        let ghost k = rest@.len() - 1;
        let x = rest.pop().unwrap();
        assert(x == a[k]);
        let pos = insertion_point(&out, &x);
        let ghost old_out = out@;
        let ghost old_p = p;
        out.insert(pos, x);
        proof {
            p = old_p.insert(pos as int, k);
            assert(p.no_duplicates()) by {
                assert forall|i: int, j: int| 0 <= i < p.len() && 0 <= j < p.len() && i != j implies p[i]
                    != p[j] by {
                    let oi = if i < pos { i } else { i - 1 };
                    let oj = if j < pos { j } else { j - 1 };
                    if i != pos && j != pos {
                        assert(p[i] == old_p[oi] && p[j] == old_p[oj]);
                    } else if i == pos {
                        assert(p[j] == old_p[oj]);
                    } else {
                        assert(p[i] == old_p[oi]);
                    }
                }
            }
            assert forall|i: int| 0 <= i < out@.len() implies #[trigger] out@[i] == a[p[i]] by {
                if i < pos {
                    assert(out@[i] == old_out[i]);
                } else if i > pos {
                    assert(out@[i] == old_out[i - 1]);
                }
            }
            assert forall|i: int| 0 <= i < p.len() implies rest@.len() <= #[trigger] p[i]
                < a.len() by {
                if i < pos {
                    assert(p[i] == old_p[i]);
                } else if i > pos {
                    assert(p[i] == old_p[i - 1]);
                }
            }
            assert forall|i: int, j: int| 0 <= i < j < out@.len() implies #[trigger] pair_in_order(
                p,
                out@,
                i,
                j,
            ) by {
                if j < pos {
                    assert(pair_in_order(old_p, old_out, i, j));
                } else if j == pos {
                    assert(precedes(old_out[i], x));
                    lemma_precedes_asymmetric(old_out[i], x);
                } else if i == pos {
                    // the entry at `j` stood at or behind the insertion point
                    assert(old_p[j - 1] >= rest@.len() + 1);
                    if j - 1 > pos {
                        assert(pair_in_order(old_p, old_out, pos as int, j - 1));
                    }
                    if precedes(old_out[j - 1], x) {
                        lemma_precedes_splits(old_out[j - 1], old_out[pos as int], x);
                    }
                } else if i < pos {
                    assert(pair_in_order(old_p, old_out, i, j - 1));
                } else {
                    assert(pair_in_order(old_p, old_out, i - 1, j - 1));
                }
            }
            assert(rest@ == a.subrange(0, rest@.len() as int));
        }
    }
    proof {
        assert(arranges(p, a, out@));
    }
    out
}

/// `rayon`'s `par_sort_by`, with the listing order as its comparison.
///
/// Trusted: the call sorts the vector stably. Its result rearranges what
/// the vector held, stands in listing order, and keeps tied entries in
/// the order they had. The listing order is a total preorder, as the
/// call requires of its comparison.
#[verifier::external_body]
fn par_sort_entries(entries: &mut Vec<Entry>)
    ensures
        is_stable_sort(old(entries)@, final(entries)@),
{
    rayon::slice::ParallelSliceMut::par_sort_by(entries.as_mut_slice(), |a, b| entry_order(a, b));
}

/// Sorts entries stably into listing order on several threads.
pub fn sort_parallel(entries: Vec<Entry>) -> (sorted: Vec<Entry>)
    ensures
        is_stable_sort(entries@, sorted@),
{
    let mut sorted = entries;
    par_sort_entries(&mut sorted);
    sorted
}

/// Puts entries in the order of the given mode: listing order, or the
/// order in which they were scanned.
pub fn sort_entries(entries: Vec<Entry>, mode: SortMode) -> (sorted: Vec<Entry>)
    ensures
        is_sorted_as(mode, entries@, sorted@),
{
    match mode {
        SortMode::Ordered => sort_parallel(entries),
        SortMode::Unordered => entries,
    }
}

} // verus!
