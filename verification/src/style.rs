//! Style records and the styling of one name.
//!
//! A style record says how the names of one category are drawn. Resolving
//! it for an entry gives a `Paint`: the colours and attributes that apply
//! to that entry. The paint is handed to the `colored` crate, which
//! decides from its surroundings whether to emit style sequences at all.

use vstd::prelude::*;
use crate::ansi::{escape, is_param_char, is_sequence, visible_text, visible_length};
use crate::ansi::{lemma_visible_plain, lemma_visible_plain_prefix, lemma_visible_sequence_prefix};
use crate::color::{ColorSpec, Hue};
use crate::entry::{Category, Entry, classify};

verus! {

/// The text attributes that a style can switch on. They are independent
/// of each other: any combination may apply to one name.
#[derive(Clone, Copy, Debug, PartialEq, Eq, Structural)]
pub struct Attributes {
    pub bold: bool,
    pub underline: bool,
    pub reversed: bool,
    pub italic: bool,
    pub blink: bool,
    pub hidden: bool,
    pub strikethrough: bool,
}

/// One text attribute.
#[derive(Clone, Copy, Debug, PartialEq, Eq, Structural)]
pub enum TextAttribute {
    Bold,
    Underline,
    Reversed,
    Italic,
    Blink,
    Hidden,
    Strikethrough,
}

/// How the names of one category are drawn. A field that the
/// configuration leaves out is `None` or `false`: nothing is applied.
#[derive(Clone, Copy, Debug, PartialEq, Eq, Structural)]
pub struct StyleRecord {
    pub color: Option<ColorSpec>,
    pub attributes: Attributes,
    pub readonly_color: Option<ColorSpec>,
    pub readonly_background_color: Option<ColorSpec>,
}

/// The style records of the three categories.
#[derive(Clone, Copy, Debug, PartialEq, Eq, Structural)]
pub struct Config {
    pub dir: StyleRecord,
    pub file: StyleRecord,
    pub readonly: StyleRecord,
}

/// The colours and attributes that apply to one name.
#[derive(Clone, Copy, Debug, PartialEq, Eq, Structural)]
pub struct Paint {
    pub foreground: Option<ColorSpec>,
    pub background: Option<ColorSpec>,
    pub attributes: Attributes,
}

/// A styled name, ready for layout.
#[derive(Clone, Debug, PartialEq, Eq)]
pub struct RenderedItem {
    /// The name with its style sequences and decoration.
    pub attributed_text: String,
    /// The number of visible characters of `attributed_text`.
    pub visible_length: usize,
}

impl RenderedItem {
    /// The recorded length is that of the visible text.
    pub open spec fn wf(&self) -> bool {
        self.visible_length == visible_text(self.attributed_text@).len()
    }
}

impl Attributes {
    /// No attribute at all.
    pub open spec fn none() -> Attributes {
        Attributes {
            bold: false,
            underline: false,
            reversed: false,
            italic: false,
            blink: false,
            hidden: false,
            strikethrough: false,
        }
    }
}

impl Attributes {
    /// These attributes with one more switched on.
    pub open spec fn with(self, attribute: TextAttribute) -> Attributes {
        match attribute {
            TextAttribute::Bold => Attributes { bold: true, ..self },
            TextAttribute::Underline => Attributes { underline: true, ..self },
            TextAttribute::Reversed => Attributes { reversed: true, ..self },
            TextAttribute::Italic => Attributes { italic: true, ..self },
            TextAttribute::Blink => Attributes { blink: true, ..self },
            TextAttribute::Hidden => Attributes { hidden: true, ..self },
            TextAttribute::Strikethrough => Attributes { strikethrough: true, ..self },
        }
    }

    /// Whether the given attribute is switched on.
    pub open spec fn has(self, attribute: TextAttribute) -> bool {
        match attribute {
            TextAttribute::Bold => self.bold,
            TextAttribute::Underline => self.underline,
            TextAttribute::Reversed => self.reversed,
            TextAttribute::Italic => self.italic,
            TextAttribute::Blink => self.blink,
            TextAttribute::Hidden => self.hidden,
            TextAttribute::Strikethrough => self.strikethrough,
        }
    }
}

impl Paint {
    /// Whether the paint changes nothing: no colour, no attribute.
    pub open spec fn is_plain(self) -> bool {
        self.foreground is None && self.background is None && self.attributes
            == Attributes::none()
    }

    /// Whether the paint changes nothing: no colour, no attribute.
    pub fn plain(&self) -> (plain: bool)
        ensures
            plain == self.is_plain(),
    {
        self.foreground.is_none() && self.background.is_none() && !self.attributes.bold
            && !self.attributes.underline && !self.attributes.reversed && !self.attributes.italic
            && !self.attributes.blink && !self.attributes.hidden && !self.attributes.strikethrough
    }
}

impl StyleRecord {
    /// The record that applies nothing.
    pub open spec fn plain() -> StyleRecord {
        StyleRecord {
            color: None,
            attributes: Attributes::none(),
            readonly_color: None,
            readonly_background_color: None,
        }
    }

    /// The record that applies nothing.
    pub fn unstyled() -> (record: StyleRecord)
        ensures
            record == StyleRecord::plain(),
    {
        StyleRecord {
            color: None,
            attributes: Attributes {
                bold: false,
                underline: false,
                reversed: false,
                italic: false,
                blink: false,
                hidden: false,
                strikethrough: false,
            },
            readonly_color: None,
            readonly_background_color: None,
        }
    }
}

impl Config {
    /// The record of a category.
    pub open spec fn record_of(&self, category: Category) -> StyleRecord {
        match category {
            Category::Directory => self.dir,
            Category::ReadOnlyFile => self.readonly,
            Category::RegularFile => self.file,
        }
    }

    /// The record of a category.
    pub fn record_for(&self, category: Category) -> (record: StyleRecord)
        ensures
            record == self.record_of(category),
    {
        match category {
            Category::Directory => self.dir,
            Category::ReadOnlyFile => self.readonly,
            Category::RegularFile => self.file,
        }
    }
}

/// The paint that a record gives an entry. The attributes are the
/// record's. A read-only entry takes the record's read-only colour, and
/// the record's read-only background; where the record has no read-only
/// colour the base colour stays, and where it has no read-only background
/// there is none.
pub open spec fn paint_of(record: StyleRecord, readonly: bool) -> Paint {
    Paint {
        foreground: if readonly && record.readonly_color is Some {
            record.readonly_color
        } else {
            record.color
        },
        background: if readonly {
            record.readonly_background_color
        } else {
            None
        },
        attributes: record.attributes,
    }
}

/// The paint that a record gives an entry.
pub fn resolve_paint(record: &StyleRecord, readonly: bool) -> (paint: Paint)
    ensures
        paint == paint_of(*record, readonly),
{
    let foreground = if readonly && record.readonly_color.is_some() {
        record.readonly_color
    } else {
        record.color
    };
    let background = if readonly {
        record.readonly_background_color
    } else {
        None
    };
    Paint { foreground, background, attributes: record.attributes }
}

/// A record without read-only overrides paints a read-only entry as it
/// paints any other entry of the category.
pub proof fn lemma_readonly_falls_back(record: StyleRecord)
    requires
        record.readonly_color is None,
        record.readonly_background_color is None,
    ensures
        paint_of(record, true) == paint_of(record, false),
{
}

/// A read-only override, where the record has one, replaces the base
/// colour and sets the background, and touches nothing else.
pub proof fn lemma_readonly_overrides(record: StyleRecord, color: ColorSpec)
    requires
        record.readonly_color == Some(color),
    ensures
        paint_of(record, true).foreground == Some(color),
        paint_of(record, true).background == record.readonly_background_color,
        paint_of(record, true).attributes == paint_of(record, false).attributes,
        paint_of(record, false).foreground == record.color,
        paint_of(record, false).background is None,
{
}

/// The sequence that ends a styled run.
pub open spec fn reset_sequence() -> Seq<char> {
    seq![escape(), '[', '0', 'm']
}

/// Whether `p` opens a styled run: the escape character, an opening
/// square bracket, digits and semicolons, and the letter `m`.
pub open spec fn is_style_prefix(p: Seq<char>) -> bool {
    &&& p.len() >= 3
    &&& p[0] == escape()
    &&& p[1] == '['
    &&& p.last() == 'm'
    &&& forall|i: int| 2 <= i < p.len() - 1 ==> is_param_char(#[trigger] p[i])
}

/// Whether `out` is `text` as the terminal library may emit it: either
/// untouched, or between one opening sequence and the reset sequence.
pub open spec fn painted(text: Seq<char>, out: Seq<char>) -> bool {
    out == text || exists|prefix: Seq<char>|
        is_style_prefix(prefix) && out == #[trigger] (prefix + text) + reset_sequence()
}

/// The sequence with which the terminal library opens a run of the
/// given colours and attributes. `truecolor` says whether the terminal
/// takes channel values as they are; where it does not, the library
/// picks the nearest named colour.
pub uninterp spec fn opening(
    foreground: Option<ColorSpec>,
    background: Option<ColorSpec>,
    attributes: Attributes,
    truecolor: bool,
) -> Seq<char>;

/// Whether `out` is `text` as the terminal library may emit it for the
/// given paint: either untouched, or between the opening sequence of
/// that paint, on a terminal of one kind or the other, and the reset
/// sequence.
pub open spec fn painted_with(text: Seq<char>, out: Seq<char>, paint: Paint) -> bool {
    out == text || exists|truecolor: bool|
        {
            let open = #[trigger] opening(
                paint.foreground,
                paint.background,
                paint.attributes,
                truecolor,
            );
            is_style_prefix(open) && out == open + text + reset_sequence()
        }
}

/// Whether `attributed` is a name styled with the given paint: a body in
/// square brackets if the entry is hidden, where the body of a name
/// without an escape character is the name as the terminal library may
/// emit it for that paint.
pub open spec fn styled_as(text: Seq<char>, hidden: bool, paint: Paint, attributed: Seq<char>) -> bool {
    exists|body: Seq<char>|
        attributed == #[trigger] decorated(body, hidden) && (!text.contains(escape())
            ==> painted_with(text, body, paint))
}

/// What is painted with some paint has the shape of painted text.
pub proof fn lemma_painted_with_is_painted(text: Seq<char>, out: Seq<char>, paint: Paint)
    requires
        painted_with(text, out, paint),
    ensures
        painted(text, out),
{
    if out != text {
        let truecolor = choose|truecolor: bool|
            {
                let open = #[trigger] opening(
                    paint.foreground,
                    paint.background,
                    paint.attributes,
                    truecolor,
                );
                is_style_prefix(open) && out == open + text + reset_sequence()
            };
        let open = opening(paint.foreground, paint.background, paint.attributes, truecolor);
        assert(is_style_prefix(open) && out == (open + text) + reset_sequence());
    }
}

/// A body with its decoration: in square brackets if the entry is hidden.
pub open spec fn decorated(body: Seq<char>, hidden: bool) -> Seq<char> {
    if hidden {
        seq!['['] + body + seq![']']
    } else {
        body
    }
}

/// `colored::Color`, a colour as the terminal library holds it; nothing
/// of its inside is known here.
#[verifier::external_type_specification]
#[verifier::external_body]
pub struct ExColor(colored::Color);

/// `colored::Style`, a set of text attributes as the terminal library
/// holds it; nothing of its inside is known here.
#[verifier::external_type_specification]
#[verifier::external_body]
pub struct ExStyle(colored::Style);

/// The colour that a `colored::Color` stands for: each of its sixteen
/// named variants a hue, normal or bright, and `TrueColor` its three
/// channels.
pub uninterp spec fn color_held(color: colored::Color) -> ColorSpec;

/// Whether a `colored::Style` has exactly the given attributes switched
/// on: `colored::Style::contains` answers yes for the counterpart of each
/// of them and no for every other of `colored::Styles`.
pub uninterp spec fn style_is(style: colored::Style, attributes: Attributes) -> bool;

/// The colour that an optional `colored::Color` stands for.
pub open spec fn held(color: Option<colored::Color>) -> Option<ColorSpec> {
    match color {
        Some(c) => Some(color_held(c)),
        None => None,
    }
}

/// The `colored::Color` of a basic hue.
///
/// Trusted: only changes the type. The variant made is the one named
/// after the hue.
#[verifier::external_body]
fn normal_color(hue: Hue) -> (color: colored::Color)
    ensures
        color_held(color) == (ColorSpec::Named { hue, bright: false }),
{
    match hue {
        Hue::Black => colored::Color::Black,
        Hue::Red => colored::Color::Red,
        Hue::Green => colored::Color::Green,
        Hue::Yellow => colored::Color::Yellow,
        Hue::Blue => colored::Color::Blue,
        Hue::Magenta => colored::Color::Magenta,
        Hue::Cyan => colored::Color::Cyan,
        Hue::White => colored::Color::White,
    }
}

/// The `colored::Color` of a bright hue.
///
/// Trusted: only changes the type. The variant made is the bright one
/// named after the hue.
#[verifier::external_body]
fn bright_color(hue: Hue) -> (color: colored::Color)
    ensures
        color_held(color) == (ColorSpec::Named { hue, bright: true }),
{
    match hue {
        Hue::Black => colored::Color::BrightBlack,
        Hue::Red => colored::Color::BrightRed,
        Hue::Green => colored::Color::BrightGreen,
        Hue::Yellow => colored::Color::BrightYellow,
        Hue::Blue => colored::Color::BrightBlue,
        Hue::Magenta => colored::Color::BrightMagenta,
        Hue::Cyan => colored::Color::BrightCyan,
        Hue::White => colored::Color::BrightWhite,
    }
}

/// The `colored::Color` of three channel values.
///
/// Trusted: only changes the type. The variant made is `TrueColor` with
/// these channels.
#[verifier::external_body]
fn true_color(r: u8, g: u8, b: u8) -> (color: colored::Color)
    ensures
        color_held(color) == (ColorSpec::Rgb { r, g, b }),
{
    colored::Color::TrueColor { r, g, b }
}

/// `colored::Style::default`: the style with no attribute.
///
/// Trusted: the style made has no attribute switched on.
#[verifier::external_body]
fn clear_style() -> (style: colored::Style)
    ensures
        style_is(style, Attributes::none()),
{
    colored::Style::default()
}

/// `colored::Style::add`: the style with one more attribute switched on.
///
/// Trusted: the style made has the given attribute switched on, and of
/// the others exactly those that the given style had.
#[verifier::external_body]
fn add_attribute(style: colored::Style, attribute: TextAttribute) -> (added: colored::Style)
    ensures
        forall|attributes: Attributes| #[trigger]
            style_is(style, attributes) ==> style_is(added, attributes.with(attribute)),
{
    let mut style = style;
    style.add(
        match attribute {
            TextAttribute::Bold => colored::Styles::Bold,
            TextAttribute::Underline => colored::Styles::Underline,
            TextAttribute::Reversed => colored::Styles::Reversed,
            TextAttribute::Italic => colored::Styles::Italic,
            TextAttribute::Blink => colored::Styles::Blink,
            TextAttribute::Hidden => colored::Styles::Hidden,
            TextAttribute::Strikethrough => colored::Styles::Strikethrough,
        },
    );
    style
}

/// The `Display` output of a `colored::ColoredString` that holds the given
/// text, colours and style.
///
/// Trusted. Whether style sequences are emitted, and whether channel
/// values are emitted as they are, depends on the process's surroundings,
/// so the contract says what holds either way, and only of text without
/// an escape character: the output is the text itself, or the text
/// between the opening sequence of these colours and attributes (escape,
/// `[`, digits and semicolons, `m`) and the reset sequence. The opening
/// sequence is a fixed property of the colours, the attributes and the
/// kind of terminal. Text that holds an escape character may come back
/// with its inner resets rewritten; nothing is claimed of it.
#[verifier::external_body]
fn paint_text(
    text: &str,
    foreground: Option<colored::Color>,
    background: Option<colored::Color>,
    style: colored::Style,
) -> (out: String)
    ensures
        !text@.contains(escape()) ==> forall|attributes: Attributes| #[trigger]
            style_is(style, attributes) ==> out@ == text@ || exists|truecolor: bool|
                is_style_prefix(
                    #[trigger] opening(held(foreground), held(background), attributes, truecolor),
                ) && out@ == opening(held(foreground), held(background), attributes, truecolor)
                    + text@ + reset_sequence(),
{
    let mut colored = colored::ColoredString::from(text);
    colored.fgcolor = foreground;
    colored.bgcolor = background;
    colored.style = style;
    colored.to_string()
}

/// The colour as the terminal library holds it: none for none, and
/// otherwise the library's colour that stands for the given one.
fn outside_color(color: Option<ColorSpec>) -> (made: Option<colored::Color>)
    ensures
        match color {
            None => made is None,
            Some(c) => made is Some && color_held(made.unwrap()) == c,
        },
{
    match color {
        None => None,
        Some(ColorSpec::Named { hue, bright }) => if bright {
            Some(bright_color(hue))
        } else {
            Some(normal_color(hue))
        },
        Some(ColorSpec::Rgb { r, g, b }) => Some(true_color(r, g, b)),
    }
}

/// The attributes as the terminal library holds them: a style in which
/// exactly the given attributes are switched on.
fn outside_style(attributes: Attributes) -> (style: colored::Style)
    ensures
        style_is(style, attributes),
{
    let mut style = clear_style();
    let ghost none = Attributes::none();
    let ghost a1 = if attributes.bold { none.with(TextAttribute::Bold) } else { none };
    let ghost a2 = if attributes.underline { a1.with(TextAttribute::Underline) } else { a1 };
    let ghost a3 = if attributes.reversed { a2.with(TextAttribute::Reversed) } else { a2 };
    let ghost a4 = if attributes.italic { a3.with(TextAttribute::Italic) } else { a3 };
    let ghost a5 = if attributes.blink { a4.with(TextAttribute::Blink) } else { a4 };
    let ghost a6 = if attributes.hidden { a5.with(TextAttribute::Hidden) } else { a5 };
    if attributes.bold {
        style = add_attribute(style, TextAttribute::Bold);
    }
    assert(style_is(style, a1));
    if attributes.underline {
        style = add_attribute(style, TextAttribute::Underline);
    }
    assert(style_is(style, a2));
    if attributes.reversed {
        style = add_attribute(style, TextAttribute::Reversed);
    }
    assert(style_is(style, a3));
    if attributes.italic {
        style = add_attribute(style, TextAttribute::Italic);
    }
    assert(style_is(style, a4));
    if attributes.blink {
        style = add_attribute(style, TextAttribute::Blink);
    }
    assert(style_is(style, a5));
    if attributes.hidden {
        style = add_attribute(style, TextAttribute::Hidden);
    }
    assert(style_is(style, a6));
    if attributes.strikethrough {
        style = add_attribute(style, TextAttribute::Strikethrough);
    }
    assert(attributes == if attributes.strikethrough {
        a6.with(TextAttribute::Strikethrough)
    } else {
        a6
    });
    style
}

/// Decorating painted text leaves exactly the decorated name visible.
pub proof fn lemma_visible_decorated(text: Seq<char>, body: Seq<char>, hidden: bool)
    requires
        !text.contains(escape()),
        painted(text, body),
    ensures
        visible_text(decorated(body, hidden)) == decorated(text, hidden),
{
    let open = seq!['['];
    let close = seq![']'];
    let empty = Seq::<char>::empty();
    assert(!open.contains(escape()));
    assert(!close.contains(escape()));
    assert(visible_text(close) == close) by {
        lemma_visible_plain(close);
    }
    assert(visible_text(empty) == empty);
    if body == text {
        if hidden {
            lemma_visible_plain_prefix(text, close);
            lemma_visible_plain_prefix(open, text + close);
            assert(open + (text + close) == open + text + close);
        } else {
            lemma_visible_plain(text);
        }
    } else {
        let prefix = choose|prefix: Seq<char>|
            is_style_prefix(prefix) && body == #[trigger] (prefix + text) + reset_sequence();
        let reset = reset_sequence();
        assert(is_sequence(prefix));
        assert(is_sequence(reset));
        let tail = if hidden {
            close
        } else {
            empty
        };
        // the painted body, followed by what closes the decoration
        assert(body + tail == prefix + (text + (reset + tail)));
        lemma_visible_sequence_prefix(prefix, text + (reset + tail));
        lemma_visible_plain_prefix(text, reset + tail);
        lemma_visible_sequence_prefix(reset, tail);
        assert(visible_text(body + tail) == text + tail);
        if hidden {
            lemma_visible_plain_prefix(open, body + close);
            assert(open + (body + close) == open + body + close);
            assert(open + (text + close) == open + text + close);
        } else {
            assert(body + empty == body);
            assert(text + empty == text);
        }
    }
}

/// Hands a name and its paint to the terminal library and returns what
/// the library emits for it. A paint that changes nothing leaves the name
/// as it is. Otherwise, whether style sequences are emitted depends on
/// the process's surroundings; for a name without an escape character
/// the result is the name, untouched or between the opening sequence of
/// this paint and the reset sequence.
pub fn paint_name(text: &str, paint: &Paint) -> (body: String)
    ensures
        paint.is_plain() ==> body@ == text@,
        !text@.contains(escape()) ==> painted_with(text@, body@, *paint),
{
    if paint.plain() {
        return String::from_str(text);
    }
    let foreground = outside_color(paint.foreground);
    let background = outside_color(paint.background);
    let attributes = outside_style(paint.attributes);
    assert(held(foreground) == paint.foreground && held(background) == paint.background);
    let body = paint_text(text, foreground, background, attributes);
    proof {
        if !text@.contains(escape()) && body@ != text@ {
            let truecolor = choose|truecolor: bool|
                is_style_prefix(
                    #[trigger] opening(
                        held(foreground),
                        held(background),
                        paint.attributes,
                        truecolor,
                    ),
                ) && body@ == opening(
                    held(foreground),
                    held(background),
                    paint.attributes,
                    truecolor,
                ) + text@ + reset_sequence();
            assert(is_style_prefix(
                opening(paint.foreground, paint.background, paint.attributes, truecolor),
            ));
        }
    }
    body
}

/// Finishes a painted name: puts it in square brackets if the entry is
/// hidden, and measures what of it is visible.
pub fn decorate(body: String, hidden: bool) -> (item: RenderedItem)
    ensures
        item.attributed_text@ == decorated(body@, hidden),
        item.wf(),
{
    let attributed_text = if hidden {
        let mut framed = String::from_str("[");
        framed.append(body.as_str());
        framed.append("]");
        proof {
            reveal_strlit("[");
            reveal_strlit("]");
            assert("["@ == seq!['[']);
            assert("]"@ == seq![']']);
        }
        framed
    } else {
        body
    };
    let visible_length = visible_length(attributed_text.as_str());
    RenderedItem { attributed_text, visible_length }
}

/// Styles one name. The record's colours and attributes are resolved for
/// the entry and handed to the terminal library, so that the name comes
/// back untouched or opened by the sequence of exactly that paint; a
/// hidden entry's styled name is then put in square brackets. The recorded length is always the
/// visible length of the finished text. For a name without an escape
/// character the visible text is the name itself, with its brackets if
/// hidden.
pub fn apply_style(style: &StyleRecord, text: &str, readonly: bool, hidden: bool) -> (item:
    RenderedItem)
    ensures
        item.wf(),
        styled_as(text@, hidden, paint_of(*style, readonly), item.attributed_text@),
        !text@.contains(escape()) ==> visible_text(item.attributed_text@) == decorated(
            text@,
            hidden,
        ),
        !text@.contains(escape()) ==> item.visible_length == text@.len() + if hidden {
            2nat
        } else {
            0nat
        },
        paint_of(*style, readonly).is_plain() ==> item.attributed_text@ == decorated(text@, hidden),
{
    let paint = resolve_paint(style, readonly);
    let body = paint_name(text, &paint);
    proof {
        if !text@.contains(escape()) {
            lemma_painted_with_is_painted(text@, body@, paint);
            lemma_visible_decorated(text@, body@, hidden);
        }
    }
    decorate(body, hidden)
}

/// The paint of an entry: what the record of its category gives it.
pub open spec fn entry_paint(entry: Entry, config: Config) -> Paint {
    paint_of(config.record_of(entry.category()), entry.is_readonly)
}

/// Styles the display name of an entry with the record of its category.
pub fn style_entry(entry: &Entry, config: &Config) -> (item: RenderedItem)
    ensures
        item.wf(),
        styled_as(
            entry.display_name@,
            entry.hidden(),
            entry_paint(*entry, *config),
            item.attributed_text@,
        ),
        !entry.display_name@.contains(escape()) ==> visible_text(item.attributed_text@)
            == decorated(entry.display_name@, entry.hidden()),
        !entry.display_name@.contains(escape()) ==> item.visible_length
            == entry.display_name@.len() + if entry.hidden() {
            2nat
        } else {
            0nat
        },
        entry_paint(*entry, *config).is_plain() ==> item.attributed_text@ == decorated(
            entry.display_name@,
            entry.hidden(),
        ),
{
    let (category, hidden) = classify(entry);
    let record = config.record_for(category);
    apply_style(&record, entry.display_name.as_str(), entry.is_readonly, hidden)
}

} // verus!
