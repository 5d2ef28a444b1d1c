//! Colour specifications: the sixteen terminal colours by name, or three
//! channel values written as `r,g,b`.

use vstd::prelude::*;
use crate::text::to_chars;

verus! {

/// One of the eight basic terminal hues.
#[derive(Clone, Copy, Debug, PartialEq, Eq, Structural)]
pub enum Hue {
    Black,
    Red,
    Green,
    Yellow,
    Blue,
    Magenta,
    Cyan,
    White,
}

/// A colour: a terminal colour chosen by name, or explicit channel values.
#[derive(Clone, Copy, Debug, PartialEq, Eq, Structural)]
pub enum ColorSpec {
    /// A basic hue, in its normal or its bright variant.
    Named { hue: Hue, bright: bool },
    /// Red, green and blue channels.
    Rgb { r: u8, g: u8, b: u8 },
}

/// The hue that a lower-case name stands for, if it names one.
pub open spec fn hue_named(s: Seq<char>) -> Option<Hue> {
    if s == "red"@ {
        Some(Hue::Red)
    } else if s == "blue"@ {
        Some(Hue::Blue)
    } else if s == "green"@ {
        Some(Hue::Green)
    } else if s == "yellow"@ {
        Some(Hue::Yellow)
    } else if s == "cyan"@ {
        Some(Hue::Cyan)
    } else if s == "magenta"@ {
        Some(Hue::Magenta)
    } else if s == "white"@ {
        Some(Hue::White)
    } else if s == "black"@ {
        Some(Hue::Black)
    } else {
        None
    }
}

/// The named colour that `s` spells: a hue name, or `bright_` and a hue name.
pub open spec fn named_color(s: Seq<char>) -> Option<ColorSpec> {
    match hue_named(s) {
        Some(hue) => Some(ColorSpec::Named { hue, bright: false }),
        None => if s.len() >= 7 && s.subrange(0, 7) == "bright_"@ {
            match hue_named(s.subrange(7, s.len() as int)) {
                Some(hue) => Some(ColorSpec::Named { hue, bright: true }),
                None => None,
            }
        } else {
            None
        },
    }
}

/// The first index at or after `i` that holds a comma, or the length.
pub open spec fn next_comma(s: Seq<char>, i: int) -> int
    decreases s.len() - i,
{
    if 0 <= i < s.len() && s[i] != ',' {
        next_comma(s, i + 1)
    } else {
        i
    }
}

/// Where the `k`-th comma-separated field of `s` starts, if `s` has one.
pub open spec fn field_start(s: Seq<char>, k: nat) -> Option<int>
    decreases k,
{
    if k == 0 {
        Some(0)
    } else {
        match field_start(s, (k - 1) as nat) {
            Some(start) => if next_comma(s, start) < s.len() {
                Some(next_comma(s, start) + 1)
            } else {
                None
            },
            None => None,
        }
    }
}

/// The `k`-th comma-separated field of `s`, if `s` has one.
pub open spec fn field(s: Seq<char>, k: nat) -> Option<Seq<char>> {
    match field_start(s, k) {
        Some(start) => Some(s.subrange(start, next_comma(s, start))),
        None => None,
    }
}

pub open spec fn is_digit(c: char) -> bool {
    '0' <= c && c <= '9'
}

pub open spec fn all_digits(d: Seq<char>) -> bool {
    forall|i: int| 0 <= i < d.len() ==> is_digit(#[trigger] d[i])
}

/// The number that a sequence of decimal digits writes.
pub open spec fn digits_value(d: Seq<char>) -> nat
    decreases d.len(),
{
    if d.len() == 0 {
        0
    } else {
        (digits_value(d.drop_last()) * 10 + (d.last() as nat - '0' as nat)) as nat
    }
}

/// The digits of a field: the field without one leading plus sign.
pub open spec fn unsigned_part(p: Seq<char>) -> Seq<char> {
    if p.len() > 0 && p[0] == '+' {
        p.subrange(1, p.len() as int)
    } else {
        p
    }
}

/// The channel value that a field writes: an optional plus sign and then
/// one or more decimal digits, with a value of at most 255.
pub open spec fn channel_value(p: Seq<char>) -> Option<u8> {
    let d = unsigned_part(p);
    if d.len() > 0 && all_digits(d) && digits_value(d) <= 255 {
        Some(digits_value(d) as u8)
    } else {
        None
    }
}

/// The value that field `k` of `s` writes, if `s` has that field and it is
/// well formed.
pub open spec fn channel(s: Seq<char>, k: nat) -> Option<u8> {
    match field(s, k) {
        Some(p) => channel_value(p),
        None => None,
    }
}

/// The value of channel `k` of `s`; a missing or malformed field counts as 0.
pub open spec fn channel_or_zero(s: Seq<char>, k: nat) -> u8 {
    match channel(s, k) {
        Some(v) => v,
        None => 0,
    }
}

/// The colour that a configured string stands for. A name gives the named
/// colour. Anything else is read as `r,g,b`, each channel that is missing
/// or malformed degrading to 0, so that a bad value yields black.
pub open spec fn color_of(s: Seq<char>) -> ColorSpec {
    match named_color(s) {
        Some(c) => c,
        None => ColorSpec::Rgb {
            r: channel_or_zero(s, 0),
            g: channel_or_zero(s, 1),
            b: channel_or_zero(s, 2),
        },
    }
}

/// Whether `s` is a colour name or exactly three well-formed channels.
pub open spec fn is_color_spec(s: Seq<char>) -> bool {
    named_color(s) is Some || (channel(s, 0) is Some && channel(s, 1) is Some && channel(s, 2)
        is Some && field_start(s, 3) is None)
}

/// Extending digits by one more digit never lowers the value.
proof fn lemma_digits_value_grows(d: Seq<char>, n: int)
    requires
        0 <= n <= d.len(),
        all_digits(d),
    ensures
        digits_value(d.subrange(0, n)) <= digits_value(d),
    decreases d.len() - n,
{
    if n < d.len() {
        let longer = d.subrange(0, n + 1);
        assert(longer.drop_last() == d.subrange(0, n));
        assert(is_digit(d[n]));
        lemma_digits_value_grows(d, n + 1);
    } else {
        assert(d.subrange(0, n) == d);
    }
}

/// Whether the characters of `a` from `from` to `to` spell `word`.
fn range_equals(a: &Vec<char>, from: usize, to: usize, word: &str) -> (same: bool)
    requires
        from <= to <= a.len(),
    ensures
        same == (a@.subrange(from as int, to as int) == word@),
{
    let n: usize = word.unicode_len();
    if to - from != n {
        return false;
    }
    let mut i: usize = 0;
    while i < n
        invariant
            n == word@.len(),
            to - from == n,
            to <= a.len(),
            i <= n,
            forall|k: int| 0 <= k < i ==> a@[from + k] == word@[k],
        decreases n - i,
    {
        if a[from + i] != word.get_char(i) {
            assert(a@.subrange(from as int, to as int)[i as int] != word@[i as int]);
            return false;
        }
        i += 1;
    }
    assert(a@.subrange(from as int, to as int) =~= word@);
    true
}

fn hue_in_range(a: &Vec<char>, from: usize, to: usize) -> (hue: Option<Hue>)
    requires
        from <= to <= a.len(),
    ensures
        hue == hue_named(a@.subrange(from as int, to as int)),
{
    if range_equals(a, from, to, "red") {
        Some(Hue::Red)
    } else if range_equals(a, from, to, "blue") {
        Some(Hue::Blue)
    } else if range_equals(a, from, to, "green") {
        Some(Hue::Green)
    } else if range_equals(a, from, to, "yellow") {
        Some(Hue::Yellow)
    } else if range_equals(a, from, to, "cyan") {
        Some(Hue::Cyan)
    } else if range_equals(a, from, to, "magenta") {
        Some(Hue::Magenta)
    } else if range_equals(a, from, to, "white") {
        Some(Hue::White)
    } else if range_equals(a, from, to, "black") {
        Some(Hue::Black)
    } else {
        None
    }
}

fn named_color_of(a: &Vec<char>) -> (c: Option<ColorSpec>)
    ensures
        c == named_color(a@),
{
    assert(a@.subrange(0, a@.len() as int) == a@);
    match hue_in_range(a, 0, a.len()) {
        Some(hue) => Some(ColorSpec::Named { hue, bright: false }),
        None => {
            if a.len() >= 7 && range_equals(a, 0, 7, "bright_") {
                match hue_in_range(a, 7, a.len()) {
                    Some(hue) => Some(ColorSpec::Named { hue, bright: true }),
                    None => None,
                }
            } else {
                None
            }
        },
    }
}

/// The end of the field that starts at `start`.
fn field_end(a: &Vec<char>, start: usize) -> (end: usize)
    requires
        start <= a.len(),
    ensures
        end == next_comma(a@, start as int),
        start <= end <= a.len(),
{
    let mut j: usize = start;
    while j < a.len() && a[j] != ','
        invariant
            start <= j <= a.len(),
            next_comma(a@, start as int) == next_comma(a@, j as int),
        decreases a.len() - j,
    {
        j += 1;
    }
    j
}

/// The channel value written between `from` and `to`.
fn channel_in_range(a: &Vec<char>, from: usize, to: usize) -> (v: Option<u8>)
    requires
        from <= to <= a.len(),
    ensures
        v == channel_value(a@.subrange(from as int, to as int)),
{
    let ghost p = a@.subrange(from as int, to as int);
    let first: usize = if from < to && a[from] == '+' {
        from + 1
    } else {
        from
    };
    let ghost d = unsigned_part(p);
    assert(d == a@.subrange(first as int, to as int)) by {
        if from < to {
            assert(p[0] == a@[from as int]);
        }
    }
    if first == to {
        return None;
    }
    let mut acc: u32 = 0;
    let mut j: usize = first;
    while j < to
        invariant
            from <= first <= j <= to <= a.len(),
            p == a@.subrange(from as int, to as int),
            d == unsigned_part(p),
            d == a@.subrange(first as int, to as int),
            all_digits(d.subrange(0, j - first)),
            acc == digits_value(d.subrange(0, j - first)),
            acc <= 255,
        decreases to - j,
    {
        let c: char = a[j];
        if !('0' <= c && c <= '9') {
            assert(!is_digit(d[j - first]));
            return None;
        }
        let digit: u32 = (c as u32) - ('0' as u32);
        let ghost longer = d.subrange(0, j - first + 1);
        assert(longer.drop_last() == d.subrange(0, j - first));
        assert(longer.last() == c);
        assert(all_digits(longer)) by {
            assert forall|i: int| 0 <= i < longer.len() implies is_digit(#[trigger] longer[i]) by {
                if i < j - first {
                    assert(longer[i] == d.subrange(0, j - first)[i]);
                }
            }
        }
        let next: u32 = acc * 10 + digit;
        assert(next == digits_value(longer));
        if next > 255 {
            proof {
                if all_digits(d) {
                    lemma_digits_value_grows(d, j - first + 1);
                }
            }
            return None;
        }
        acc = next;
        j += 1;
    }
    assert(d.subrange(0, j - first) == d);
    Some(acc as u8)
}

/// The value of channel `k`, given where its field starts, and where the
/// next field starts.
fn channel_at(a: &Vec<char>, start: Option<usize>, Ghost(k): Ghost<nat>) -> (r: (
    Option<u8>,
    Option<usize>,
))
    requires
        match start {
            Some(st) => st <= a.len() && field_start(a@, k) == Some(st as int),
            None => field_start(a@, k) is None,
        },
    ensures
        r.0 == channel(a@, k),
        match r.1 {
            Some(st) => st <= a.len() && field_start(a@, k + 1) == Some(st as int),
            None => field_start(a@, k + 1) is None,
        },
{
    match start {
        None => (None, None),
        Some(st) => {
            let end: usize = field_end(a, st);
            let v: Option<u8> = channel_in_range(a, st, end);
            let next: Option<usize> = if end < a.len() {
                Some(end + 1)
            } else {
                None
            };
            (v, next)
        },
    }
}

fn or_zero(v: Option<u8>) -> (r: u8)
    ensures
        r == (match v {
            Some(x) => x,
            None => 0,
        }),
{
    match v {
        Some(x) => x,
        None => 0,
    }
}

/// Reads a configured colour. A colour name gives that colour; anything
/// else is read as `r,g,b`, where a channel that is missing or malformed
/// counts as 0. No input is rejected.
pub fn conv_color(color: &str) -> (c: ColorSpec)
    ensures
        c == color_of(color@),
{
    let a = to_chars(color);
    match named_color_of(&a) {
        Some(c) => c,
        None => {
            let (r, s1) = channel_at(&a, Some(0), Ghost(0));
            let (g, s2) = channel_at(&a, s1, Ghost(1));
            let (b, _s3) = channel_at(&a, s2, Ghost(2));
            ColorSpec::Rgb { r: or_zero(r), g: or_zero(g), b: or_zero(b) }
        },
    }
}

/// Whether a configured colour is well formed: a colour name, or exactly
/// three channel values. `conv_color` degrades any other string silently;
/// a caller that wants to report it asks here.
pub fn is_valid_color(color: &str) -> (ok: bool)
    ensures
        ok == is_color_spec(color@),
{
    let a = to_chars(color);
    if named_color_of(&a).is_some() {
        return true;
    }
    let (r, s1) = channel_at(&a, Some(0), Ghost(0));
    let (g, s2) = channel_at(&a, s1, Ghost(1));
    let (b, s3) = channel_at(&a, s2, Ghost(2));
    r.is_some() && g.is_some() && b.is_some() && s3.is_none()
}

} // verus!
