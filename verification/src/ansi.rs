//! Non-printing style sequences and the visible length of styled text.
//!
//! A style sequence is the escape character, an opening square bracket,
//! any number of digits and semicolons, and one ASCII letter. Everything
//! else is visible text.

use vstd::prelude::*;
use crate::text::{to_chars, from_chars};

verus! {

/// The escape character that opens a style sequence.
pub open spec fn escape() -> char {
    '\x1b'
}

/// Digits and the semicolon: the parameter characters of a style sequence.
pub open spec fn is_param_char(c: char) -> bool {
    ('0' <= c && c <= '9') || c == ';'
}

/// ASCII letters: the characters that close a style sequence.
pub open spec fn is_final_char(c: char) -> bool {
    ('a' <= c && c <= 'z') || ('A' <= c && c <= 'Z')
}

/// The first index at or after `i` that is not a parameter character.
pub open spec fn params_end(s: Seq<char>, i: int) -> int
    decreases s.len() - i,
{
    if 0 <= i < s.len() && is_param_char(s[i]) {
        params_end(s, i + 1)
    } else {
        i
    }
}

/// The length of the style sequence that starts at `i`, or 0 if none does.
pub open spec fn sequence_len(s: Seq<char>, i: int) -> int {
    if 0 <= i && i + 1 < s.len() && s[i] == escape() && s[i + 1] == '[' {
        let j = params_end(s, i + 2);
        if j < s.len() && is_final_char(s[j]) {
            j + 1 - i
        } else {
            0
        }
    } else {
        0
    }
}

/// The visible characters of `s` from index `i` on.
pub open spec fn visible_from(s: Seq<char>, i: int) -> Seq<char>
    decreases s.len() - i,
{
    if i < 0 || i >= s.len() {
        Seq::empty()
    } else if sequence_len(s, i) > 0 {
        visible_from(s, i + sequence_len(s, i))
    } else {
        seq![s[i]] + visible_from(s, i + 1)
    }
}

/// The visible characters of `s`: `s` without its style sequences.
pub open spec fn visible_text(s: Seq<char>) -> Seq<char> {
    visible_from(s, 0)
}

/// `params_end` stays within the string and never moves backwards.
pub proof fn lemma_params_end_bounds(s: Seq<char>, i: int)
    requires
        0 <= i <= s.len(),
    ensures
        i <= params_end(s, i) <= s.len(),
        forall|k: int| i <= k < params_end(s, i) ==> is_param_char(#[trigger] s[k]),
        params_end(s, i) < s.len() ==> !is_param_char(s[params_end(s, i)]),
    decreases s.len() - i,
{
    if i < s.len() && is_param_char(s[i]) {
        lemma_params_end_bounds(s, i + 1);
    }
}

/// Stripping never lengthens: the visible text from `i` on is no longer
/// than what is left of the string.
pub proof fn lemma_visible_from_len(s: Seq<char>, i: int)
    requires
        0 <= i <= s.len(),
    ensures
        visible_from(s, i).len() <= s.len() - i,
    decreases s.len() - i,
{
    if i < s.len() {
        if sequence_len(s, i) > 0 {
            lemma_params_end_bounds(s, i + 2);
            lemma_visible_from_len(s, i + sequence_len(s, i));
        } else {
            lemma_visible_from_len(s, i + 1);
        }
    }
}

/// Whether `e` is one whole style sequence.
pub open spec fn is_sequence(e: Seq<char>) -> bool {
    &&& e.len() >= 3
    &&& e[0] == escape()
    &&& e[1] == '['
    &&& is_final_char(e.last())
    &&& forall|i: int| 2 <= i < e.len() - 1 ==> is_param_char(#[trigger] e[i])
}

/// A run of parameter characters from `i` up to `j`, where it stops, is
/// what `params_end` finds.
proof fn lemma_params_end_is(s: Seq<char>, i: int, j: int)
    requires
        0 <= i <= j <= s.len(),
        forall|k: int| i <= k < j ==> is_param_char(#[trigger] s[k]),
        j < s.len() ==> !is_param_char(s[j]),
    ensures
        params_end(s, i) == j,
    decreases j - i,
{
    if i < j {
        lemma_params_end_is(s, i + 1, j);
    }
}

proof fn lemma_params_end_shift(a: Seq<char>, b: Seq<char>, k: int)
    requires
        0 <= k <= b.len(),
    ensures
        params_end(a + b, a.len() + k) == a.len() + params_end(b, k),
    decreases b.len() - k,
{
    if k < b.len() {
        assert((a + b)[a.len() + k] == b[k]);
        if is_param_char(b[k]) {
            lemma_params_end_shift(a, b, k + 1);
        }
    }
}

proof fn lemma_sequence_len_shift(a: Seq<char>, b: Seq<char>, k: int)
    requires
        0 <= k <= b.len(),
    ensures
        sequence_len(a + b, a.len() + k) == sequence_len(b, k),
{
    if k + 1 < b.len() {
        assert((a + b)[a.len() + k] == b[k]);
        assert((a + b)[a.len() + k + 1] == b[k + 1]);
        lemma_params_end_shift(a, b, k + 2);
        lemma_params_end_bounds(b, k + 2);
        let j = params_end(b, k + 2);
        if j < b.len() {
            assert((a + b)[a.len() + j] == b[j]);
        }
    }
}

/// What is visible of `a + b` from the start of `b` on is what is visible
/// of `b` from there on.
proof fn lemma_visible_from_shift(a: Seq<char>, b: Seq<char>, k: int)
    requires
        0 <= k <= b.len(),
    ensures
        visible_from(a + b, a.len() + k) == visible_from(b, k),
    decreases b.len() - k,
{
    if k < b.len() {
        lemma_sequence_len_shift(a, b, k);
        assert((a + b)[a.len() + k] == b[k]);
        let n = sequence_len(b, k);
        if n > 0 {
            lemma_params_end_bounds(b, k + 2);
            lemma_visible_from_shift(a, b, k + n);
        } else {
            lemma_visible_from_shift(a, b, k + 1);
        }
    }
}

proof fn lemma_visible_plain_from(a: Seq<char>, b: Seq<char>, i: int)
    requires
        0 <= i <= a.len(),
        !a.contains(escape()),
    ensures
        visible_from(a + b, i) == a.subrange(i, a.len() as int) + visible_text(b),
    decreases a.len() - i,
{
    if i < a.len() {
        assert((a + b)[i] == a[i]);
        assert(a.contains(a[i]));
        assert(sequence_len(a + b, i) == 0);
        lemma_visible_plain_from(a, b, i + 1);
        assert(seq![a[i]] + (a.subrange(i + 1, a.len() as int) + visible_text(b)) == a.subrange(
            i,
            a.len() as int,
        ) + visible_text(b));
    } else {
        lemma_visible_from_shift(a, b, 0);
        assert(a.subrange(i, a.len() as int) + visible_text(b) == visible_text(b));
    }
}

/// Text without an escape character is visible as it stands, and leaves
/// what follows it unchanged.
pub proof fn lemma_visible_plain_prefix(a: Seq<char>, b: Seq<char>)
    requires
        !a.contains(escape()),
    ensures
        visible_text(a + b) == a + visible_text(b),
{
    lemma_visible_plain_from(a, b, 0);
    assert(a.subrange(0, a.len() as int) == a);
}

/// Text without an escape character is its own visible text.
pub proof fn lemma_visible_plain(a: Seq<char>)
    requires
        !a.contains(escape()),
    ensures
        visible_text(a) == a,
{
    lemma_visible_plain_prefix(a, Seq::empty());
    assert(a + Seq::<char>::empty() == a);
    assert(visible_text(Seq::<char>::empty()) == Seq::<char>::empty());
    assert(a + visible_text(Seq::<char>::empty()) == a);
}

/// A whole style sequence is invisible, and leaves what follows it
/// unchanged.
pub proof fn lemma_visible_sequence_prefix(e: Seq<char>, b: Seq<char>)
    requires
        is_sequence(e),
    ensures
        visible_text(e + b) == visible_text(b),
{
    let s = e + b;
    let last = e.len() - 1;
    assert(s[0] == e[0]);
    assert(s[1] == e[1]);
    assert(s[last] == e[last]);
    assert forall|k: int| 2 <= k < last implies is_param_char(#[trigger] s[k]) by {
        assert(s[k] == e[k]);
    }
    lemma_params_end_is(s, 2, last);
    assert(sequence_len(s, 0) == e.len());
    lemma_visible_from_shift(e, b, 0);
}

/// Whether a character can never continue a style sequence: it is not the
/// opening bracket, a parameter character or a closing letter.
pub open spec fn is_break(c: char) -> bool {
    c != '[' && !is_param_char(c) && !is_final_char(c)
}

proof fn lemma_sequence_len_before_break(a: Seq<char>, b: Seq<char>, i: int)
    requires
        0 <= i < a.len(),
        b.len() == 0 || is_break(b[0]),
    ensures
        sequence_len(a + b, i) == sequence_len(a, i),
        i + sequence_len(a, i) <= a.len(),
{
    let s = a + b;
    assert(s[i] == a[i]);
    if b.len() > 0 {
        assert(s[a.len() as int] == b[0]);
    }
    if a[i] == escape() && i + 1 < a.len() {
        assert(s[i + 1] == a[i + 1]);
        if a[i + 1] == '[' {
            lemma_params_end_bounds(a, i + 2);
            let j = params_end(a, i + 2);
            assert forall|k: int| i + 2 <= k < j implies is_param_char(#[trigger] s[k]) by {
                assert(s[k] == a[k]);
            }
            if j < a.len() {
                assert(s[j] == a[j]);
            }
            lemma_params_end_is(s, i + 2, j);
        }
    }
}

proof fn lemma_visible_break_from(a: Seq<char>, b: Seq<char>, i: int)
    requires
        0 <= i <= a.len(),
        b.len() == 0 || is_break(b[0]),
    ensures
        visible_from(a + b, i) == visible_from(a, i) + visible_text(b),
    decreases a.len() - i,
{
    if i < a.len() {
        lemma_sequence_len_before_break(a, b, i);
        assert((a + b)[i] == a[i]);
        let n = sequence_len(a, i);
        if n > 0 {
            lemma_visible_break_from(a, b, i + n);
        } else {
            lemma_visible_break_from(a, b, i + 1);
            assert(seq![a[i]] + (visible_from(a, i + 1) + visible_text(b)) == (seq![a[i]]
                + visible_from(a, i + 1)) + visible_text(b));
        }
    } else {
        lemma_visible_from_shift(a, b, 0);
        assert(visible_from(a, i) + visible_text(b) == visible_text(b));
    }
}

/// Text that begins with a character which cannot continue a style
/// sequence is stripped independently of what stands before it.
pub proof fn lemma_visible_before_break(a: Seq<char>, b: Seq<char>)
    requires
        b.len() == 0 || is_break(b[0]),
    ensures
        visible_text(a + b) == visible_text(a) + visible_text(b),
{
    lemma_visible_break_from(a, b, 0);
}

/// Text that ends with a character which cannot continue a style
/// sequence, and is not the escape character, is stripped independently
/// of what follows it.
pub proof fn lemma_visible_after_clean_end(a: Seq<char>, b: Seq<char>)
    requires
        a.len() > 0,
        is_break(a.last()),
        a.last() != escape(),
    ensures
        visible_text(a + b) == visible_text(a) + visible_text(b),
{
    let front = a.drop_last();
    let one = seq![a.last()];
    assert(a == front + one);
    assert(a + b == front + (one + b));
    assert((one + b)[0] == a.last());
    lemma_visible_before_break(front, one + b);
    assert(!one.contains(escape()));
    lemma_visible_plain_prefix(one, b);
    lemma_visible_before_break(front, one);
    lemma_visible_plain(one);
    assert(visible_text(front) + (one + visible_text(b)) == (visible_text(front) + one)
        + visible_text(b));
}

fn is_param(c: char) -> (b: bool)
    ensures
        b == is_param_char(c),
{
    ('0' <= c && c <= '9') || c == ';'
}

fn is_final(c: char) -> (b: bool)
    ensures
        b == is_final_char(c),
{
    ('a' <= c && c <= 'z') || ('A' <= c && c <= 'Z')
}

/// The length of the style sequence at `i`, or 0.
fn sequence_len_at(s: &Vec<char>, i: usize) -> (n: usize)
    requires
        i < s.len(),
    ensures
        n == sequence_len(s@, i as int),
        i + n <= s.len(),
{
    if s.len() - i < 2 || s[i] != '\x1b' || s[i + 1] != '[' {
        return 0;
    }
    let mut j: usize = i + 2;
    while j < s.len() && is_param(s[j])
        invariant
            i + 2 <= j <= s.len(),
            params_end(s@, i + 2) == params_end(s@, j as int),
        decreases s.len() - j,
    {
        j += 1;
    }
    if j < s.len() && is_final(s[j]) {
        j + 1 - i
    } else {
        0
    }
}

/// The visible characters of `s`.
pub fn strip_chars(s: &Vec<char>) -> (out: Vec<char>)
    ensures
        out@ == visible_text(s@),
{
    let mut out: Vec<char> = Vec::new();
    let mut i: usize = 0;
    while i < s.len()
        invariant
            i <= s.len(),
            visible_text(s@) == out@ + visible_from(s@, i as int),
        decreases s.len() - i,
    {
        let n: usize = sequence_len_at(s, i);
        if n > 0 {
            i += n;
        } else {
            proof {
                assert(out@.push(s@[i as int]) + visible_from(s@, i + 1) == out@ + (seq![
                    s@[i as int],
                ] + visible_from(s@, i + 1)));
            }
            out.push(s[i]);
            i += 1;
        }
    }
    assert(visible_from(s@, i as int) == Seq::<char>::empty());
    assert(out@ + Seq::<char>::empty() == out@);
    out
}

/// Removes every style sequence from `input`.
pub fn remove_ansi_codes(input: &str) -> (out: String)
    ensures
        out@ == visible_text(input@),
{
    let chars = to_chars(input);
    let stripped = strip_chars(&chars);
    from_chars(&stripped)
}

/// The number of visible characters of `input`.
pub fn visible_length(input: &str) -> (n: usize)
    ensures
        n == visible_text(input@).len(),
{
    let chars = to_chars(input);
    let stripped = strip_chars(&chars);
    stripped.len()
}

} // verus!
