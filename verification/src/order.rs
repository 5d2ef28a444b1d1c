//! The order in which entries are listed.
//!
//! Directories come before everything else. Within either group entries
//! go by the bytes of their display names, compared lexicographically:
//! no case folding, no collation. Read-only files take their place among
//! the other files.

use vstd::prelude::*;
use vstd::utf8::encode_utf8;
use core::cmp::Ordering;
use crate::entry::Entry;

verus! {

/// How one thing stands to another in an order.
#[derive(Clone, Copy, Debug, PartialEq, Eq, Structural)]
pub enum Rank {
    Before,
    Same,
    After,
}

/// Whether `a` is lexicographically less than `b`, given that the two
/// agree before index `i`.
pub open spec fn lex_less_from(a: Seq<u8>, b: Seq<u8>, i: int) -> bool
    decreases b.len() - i,
{
    if i < 0 || i >= b.len() {
        false
    } else if i >= a.len() {
        true
    } else {
        a[i] < b[i] || (a[i] == b[i] && lex_less_from(a, b, i + 1))
    }
}

/// Whether `a` is lexicographically less than `b`: at the first index
/// where they differ `a` holds the smaller byte, or `a` is a proper
/// prefix of `b`.
pub open spec fn lex_less(a: Seq<u8>, b: Seq<u8>) -> bool {
    lex_less_from(a, b, 0)
}

/// The group of an entry: 0 for a directory, 1 for anything else.
pub open spec fn group_of(e: Entry) -> int {
    if e.is_directory {
        0
    } else {
        1
    }
}

/// The bytes by which an entry is ordered within its group.
pub open spec fn name_key(e: Entry) -> Seq<u8> {
    encode_utf8(e.display_name@)
}

/// Whether `x` must be listed before `y`.
pub open spec fn precedes(x: Entry, y: Entry) -> bool {
    group_of(x) < group_of(y) || (group_of(x) == group_of(y) && lex_less(
        name_key(x),
        name_key(y),
    ))
}

/// Whether neither entry must be listed before the other: same group,
/// same name.
pub open spec fn ties(x: Entry, y: Entry) -> bool {
    !precedes(x, y) && !precedes(y, x)
}

proof fn lemma_lex_asymmetric_from(a: Seq<u8>, b: Seq<u8>, i: int)
    requires
        0 <= i,
    ensures
        !(lex_less_from(a, b, i) && lex_less_from(b, a, i)),
    decreases a.len() + b.len() - i,
{
    if i < a.len() && i < b.len() && a[i] == b[i] {
        lemma_lex_asymmetric_from(a, b, i + 1);
    }
}

proof fn lemma_lex_transitive_from(a: Seq<u8>, b: Seq<u8>, c: Seq<u8>, i: int)
    requires
        0 <= i,
        lex_less_from(a, b, i),
        lex_less_from(b, c, i),
    ensures
        lex_less_from(a, c, i),
    decreases c.len() - i,
{
    if i < a.len() && a[i] == b[i] && b[i] == c[i] {
        lemma_lex_transitive_from(a, b, c, i + 1);
    }
}

proof fn lemma_lex_total_from(a: Seq<u8>, b: Seq<u8>, i: int)
    requires
        0 <= i <= a.len(),
        i <= b.len(),
        a.subrange(0, i) == b.subrange(0, i),
        !lex_less_from(a, b, i),
        !lex_less_from(b, a, i),
    ensures
        a == b,
    decreases a.len() - i,
{
    if i < a.len() && i < b.len() {
        assert(a[i] == b[i]);
        assert(a.subrange(0, i + 1) == a.subrange(0, i).push(a[i]));
        assert(b.subrange(0, i + 1) == b.subrange(0, i).push(b[i]));
        lemma_lex_total_from(a, b, i + 1);
    } else {
        assert(a.len() == b.len());
        assert(a == a.subrange(0, i));
        assert(b == b.subrange(0, i));
    }
}

/// No two byte strings are each less than the other.
pub proof fn lemma_lex_asymmetric(a: Seq<u8>, b: Seq<u8>)
    ensures
        !(lex_less(a, b) && lex_less(b, a)),
{
    lemma_lex_asymmetric_from(a, b, 0);
}

/// The lexicographic order is transitive.
pub proof fn lemma_lex_transitive(a: Seq<u8>, b: Seq<u8>, c: Seq<u8>)
    requires
        lex_less(a, b),
        lex_less(b, c),
    ensures
        lex_less(a, c),
{
    lemma_lex_transitive_from(a, b, c, 0);
}

/// Of two different byte strings one is less than the other.
pub proof fn lemma_lex_total(a: Seq<u8>, b: Seq<u8>)
    ensures
        lex_less(a, b) || lex_less(b, a) || a == b,
{
    if !lex_less(a, b) && !lex_less(b, a) {
        assert(a.subrange(0, 0) == b.subrange(0, 0));
        lemma_lex_total_from(a, b, 0);
    }
}

/// No two entries must each be listed before the other.
pub proof fn lemma_precedes_asymmetric(x: Entry, y: Entry)
    ensures
        !(precedes(x, y) && precedes(y, x)),
{
    lemma_lex_asymmetric(name_key(x), name_key(y));
}

/// The listing order is transitive.
pub proof fn lemma_precedes_transitive(x: Entry, y: Entry, z: Entry)
    requires
        precedes(x, y),
        precedes(y, z),
    ensures
        precedes(x, z),
{
    if group_of(x) == group_of(y) && group_of(y) == group_of(z) {
        lemma_lex_transitive(name_key(x), name_key(y), name_key(z));
    }
}

/// An entry that stands before another stands before, or lets pass before
/// it, any third entry: whatever `x` precedes either follows `m` too, or
/// `x` precedes `m`.
pub proof fn lemma_precedes_splits(x: Entry, m: Entry, y: Entry)
    requires
        precedes(x, y),
    ensures
        precedes(x, m) || precedes(m, y),
{
    if group_of(x) == group_of(m) && group_of(m) == group_of(y) {
        lemma_lex_total(name_key(x), name_key(m));
        if lex_less(name_key(m), name_key(x)) {
            lemma_lex_transitive(name_key(m), name_key(x), name_key(y));
        }
    }
}

/// How the byte string `a` stands to `b` in lexicographic order.
fn lex_rank(a: &[u8], b: &[u8]) -> (r: Rank)
    ensures
        (r == Rank::Before) == lex_less(a@, b@),
        (r == Rank::After) == lex_less(b@, a@),
        (r == Rank::Same) == (a@ == b@),
{
    let mut i: usize = 0;
    while i < a.len() && i < b.len()
        invariant
            i <= a.len(),
            i <= b.len(),
            a@.subrange(0, i as int) == b@.subrange(0, i as int),
            lex_less(a@, b@) == lex_less_from(a@, b@, i as int),
            lex_less(b@, a@) == lex_less_from(b@, a@, i as int),
        decreases a.len() - i,
    {
        if a[i] < b[i] {
            assert(a@[i as int] != b@[i as int]);
            return Rank::Before;
        }
        if a[i] > b[i] {
            assert(a@[i as int] != b@[i as int]);
            return Rank::After;
        }
        assert(a@.subrange(0, i + 1) == a@.subrange(0, i as int).push(a@[i as int]));
        assert(b@.subrange(0, i + 1) == b@.subrange(0, i as int).push(b@[i as int]));
        i += 1;
    }
    if i < b.len() {
        assert(a@.len() != b@.len());
        Rank::Before
    } else if i < a.len() {
        assert(a@.len() != b@.len());
        Rank::After
    } else {
        assert(a@ == a@.subrange(0, i as int));
        assert(b@ == b@.subrange(0, i as int));
        Rank::Same
    }
}

/// How entry `a` stands to entry `b` in the listing order.
pub fn entry_rank(a: &Entry, b: &Entry) -> (r: Rank)
    ensures
        (r == Rank::Before) == precedes(*a, *b),
        (r == Rank::After) == precedes(*b, *a),
        (r == Rank::Same) == ties(*a, *b),
{
    proof {
        lemma_precedes_asymmetric(*a, *b);
        lemma_lex_total(name_key(*a), name_key(*b));
    }
    if a.is_directory && !b.is_directory {
        Rank::Before
    } else if !a.is_directory && b.is_directory {
        Rank::After
    } else {
        lex_rank(a.display_name.as_str().as_bytes(), b.display_name.as_str().as_bytes())
    }
}

/// Whether entry `a` must be listed before entry `b`.
pub fn comes_before(a: &Entry, b: &Entry) -> (before: bool)
    ensures
        before == precedes(*a, *b),
{
    match entry_rank(a, b) {
        Rank::Before => true,
        _ => false,
    }
}

/// The listing order as a comparison result: `Less` exactly when `a` must
/// be listed before `b`, `Greater` exactly when `b` must be listed before
/// `a`.
pub fn entry_order(a: &Entry, b: &Entry) -> (o: Ordering)
    ensures
        (o == Ordering::Less) == precedes(*a, *b),
        (o == Ordering::Greater) == precedes(*b, *a),
        (o == Ordering::Equal) == ties(*a, *b),
{
    match entry_rank(a, b) {
        Rank::Before => Ordering::Less,
        Rank::Same => Ordering::Equal,
        Rank::After => Ordering::Greater,
    }
}

} // verus!
