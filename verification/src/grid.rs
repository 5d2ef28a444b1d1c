//! The column layout of styled names.
//!
//! All cells of a grid have one width: the greatest visible length among
//! the items, and a gap of two. As many columns are used as fit the line,
//! and at least one. Items fill the rows from left to right.

use vstd::prelude::*;
use crate::ansi::{visible_text, is_break, escape, lemma_visible_before_break, lemma_visible_plain};
use crate::ansi::{lemma_visible_after_clean_end, lemma_visible_plain_prefix};
use crate::entry::Entry;
use crate::style::{Config, RenderedItem, decorated, entry_paint, style_entry, styled_as};
use crate::text::push_char;

verus! {

/// The number of blank columns between the widest item and the next cell.
pub const GAP: usize = 2;

/// The greatest recorded visible length among the items, 0 if there are none.
pub open spec fn max_visible(items: Seq<RenderedItem>) -> nat
    decreases items.len(),
{
    if items.len() == 0 {
        0
    } else {
        let rest = max_visible(items.drop_last());
        if items.last().visible_length > rest {
            items.last().visible_length as nat
        } else {
            rest
        }
    }
}

/// The width of every cell of the grid.
pub open spec fn cell_width(items: Seq<RenderedItem>) -> nat {
    max_visible(items) + GAP as nat
}

/// The number of columns: as many cells as fit the line, and at least one.
pub open spec fn column_count(line_width: nat, cell: nat) -> nat {
    if cell > 0 && line_width / cell >= 1 {
        line_width / cell
    } else {
        1
    }
}

/// Whether item `i` begins a new line.
pub open spec fn starts_line(i: nat, columns: nat) -> bool {
    columns > 0 && i % columns == 0 && i != 0
}

pub open spec fn spaces(n: nat) -> Seq<char> {
    Seq::new(n, |i: int| ' ')
}

/// One cell: the item's text, padded with spaces to the cell's width.
pub open spec fn cell_text(item: RenderedItem, cell: nat) -> Seq<char> {
    item.attributed_text@ + spaces((cell - item.visible_length) as nat)
}

/// What separates item `i` from what was written before it.
pub open spec fn separator(i: nat, columns: nat) -> Seq<char> {
    if starts_line(i, columns) {
        seq!['\n']
    } else {
        Seq::empty()
    }
}

/// The text of the first `n` cells of the grid.
pub open spec fn grid_prefix(items: Seq<RenderedItem>, cell: nat, columns: nat, n: nat) -> Seq<
    char,
>
    decreases n,
{
    if n == 0 || n > items.len() {
        Seq::empty()
    } else {
        grid_prefix(items, cell, columns, (n - 1) as nat) + separator((n - 1) as nat, columns)
            + cell_text(items[n - 1], cell)
    }
}

/// The text of the whole grid: every cell, and a final line break.
pub open spec fn grid_text(items: Seq<RenderedItem>, line_width: nat) -> Seq<char> {
    let cell = cell_width(items);
    grid_prefix(items, cell, column_count(line_width, cell), items.len()) + seq!['\n']
}

/// No item is longer than the greatest length.
pub proof fn lemma_max_visible_bounds(items: Seq<RenderedItem>, i: int)
    requires
        0 <= i < items.len(),
    ensures
        items[i].visible_length <= max_visible(items),
    decreases items.len(),
{
    if i < items.len() - 1 {
        lemma_max_visible_bounds(items.drop_last(), i);
    }
}

/// The grid always has a column, and its columns fit the line whenever one
/// cell does.
pub proof fn lemma_columns_fit(line_width: nat, cell: nat)
    requires
        cell > 0,
    ensures
        column_count(line_width, cell) >= 1,
        cell <= line_width ==> column_count(line_width, cell) * cell <= line_width,
        line_width < 2 * cell ==> column_count(line_width, cell) == 1,
{
    let q = line_width / cell;
    assert(q * cell <= line_width && line_width < (q + 1) * cell) by (nonlinear_arith)
        requires
            cell > 0,
            q == line_width / cell,
    ;
    if line_width < 2 * cell {
        assert(q < 2) by (nonlinear_arith)
            requires
                q * cell <= line_width,
                line_width < 2 * cell,
                cell > 0,
        ;
    }
}

/// With a single column every item but the first begins a new line.
pub proof fn lemma_single_column(i: nat)
    requires
        i > 0,
    ensures
        starts_line(i, 1),
{
}

/// Every cell of a grid is exactly one cell width wide on the screen,
/// whatever style sequences its text holds.
pub proof fn lemma_cell_is_aligned(items: Seq<RenderedItem>, i: int)
    requires
        0 <= i < items.len(),
        items[i].wf(),
    ensures
        visible_text(cell_text(items[i], cell_width(items))).len() == cell_width(items),
{
    let cell = cell_width(items);
    lemma_max_visible_bounds(items, i);
    let pad = spaces((cell - items[i].visible_length) as nat);
    assert(pad.len() > 0);
    assert(is_break(pad[0]));
    lemma_visible_before_break(items[i].attributed_text@, pad);
    assert(!pad.contains(escape()));
    lemma_visible_plain(pad);
}

/// The greatest recorded visible length among the items.
pub fn widest(items: &Vec<RenderedItem>) -> (m: usize)
    ensures
        m == max_visible(items@),
{
    let mut m: usize = 0;
    let mut i: usize = 0;
    while i < items.len()
        invariant
            i <= items.len(),
            m == max_visible(items@.subrange(0, i as int)),
        decreases items.len() - i,
    {
        assert(items@.subrange(0, i + 1).drop_last() == items@.subrange(0, i as int));
        if items[i].visible_length > m {
            m = items[i].visible_length;
        }
        i += 1;
    }
    assert(items@.subrange(0, i as int) == items@);
    m
}

/// The number of columns for items of the given greatest visible length on
/// a line of the given width.
pub fn columns_for(widest: usize, line_width: usize) -> (columns: usize)
    ensures
        columns == column_count(line_width as nat, widest as nat + GAP as nat),
        columns >= 1,
{
    if line_width < GAP || widest > line_width - GAP {
        let ghost cell = widest as nat + GAP as nat;
        assert(line_width as nat / cell == 0) by (nonlinear_arith)
            requires
                (line_width as nat) < cell,
        ;
        1
    } else {
        let cell: usize = widest + GAP;
        let q: usize = line_width / cell;
        assert(q >= 1) by (nonlinear_arith)
            requires
                q == line_width as int / cell as int,
                cell <= line_width,
                cell > 0,
        ;
        q
    }
}

fn push_spaces(out: &mut String, n: usize)
    ensures
        final(out)@ == old(out)@ + spaces(n as nat),
{
    let mut k: usize = 0;
    assert(out@ + spaces(0) == out@);
    while k < n
        invariant
            k <= n,
            out@ == old(out)@ + spaces(k as nat),
        decreases n - k,
    {
        push_char(out, ' ');
        k += 1;
        assert(out@ == old(out)@ + spaces(k as nat)) by {
            assert(spaces(k as nat) == spaces((k - 1) as nat).push(' '));
        }
    }
}

/// Lays the items out as a grid for a line of the given width. Item `i`
/// begins a new line when `i` is a positive multiple of the number of
/// columns; each item is followed by spaces up to the cell width.
pub fn render_grid(items: &Vec<RenderedItem>, line_width: usize) -> (out: String)
    ensures
        out@ == grid_text(items@, line_width as nat),
{
    let widest: usize = widest(items);
    let columns: usize = columns_for(widest, line_width);
    let ghost cell = cell_width(items@);
    let mut out = String::new();
    let mut i: usize = 0;
    while i < items.len()
        invariant
            i <= items.len(),
            widest == max_visible(items@),
            cell == cell_width(items@),
            columns == column_count(line_width as nat, cell),
            columns >= 1,
            out@ == grid_prefix(items@, cell, columns as nat, i as nat),
        decreases items.len() - i,
    {
        let ghost before = out@;
        if i % columns == 0 && i != 0 {
            push_char(&mut out, '\n');
        }
        assert(out@ == before + separator(i as nat, columns as nat)) by {
            assert(before + Seq::<char>::empty() == before);
            assert(before.push('\n') == before + seq!['\n']);
        }
        proof {
            lemma_max_visible_bounds(items@, i as int);
        }
        out.append(items[i].attributed_text.as_str());
        push_spaces(&mut out, widest - items[i].visible_length);
        push_spaces(&mut out, GAP);
        assert(out@ == before + separator(i as nat, columns as nat) + cell_text(
            items@[i as int],
            cell,
        )) by {
            let pad = (widest - items@[i as int].visible_length) as nat;
            assert(spaces(pad) + spaces(GAP as nat) == spaces(pad + GAP as nat));
            assert(pad + GAP as nat == (cell - items@[i as int].visible_length) as nat);
            let sep = separator(i as nat, columns as nat);
            let text = items@[i as int].attributed_text@;
            assert(before + sep + text + spaces(pad) + spaces(GAP as nat) == before + sep + (text
                + (spaces(pad) + spaces(GAP as nat))));
        }
        i += 1;
    }
    push_char(&mut out, '\n');
    assert(out@ == grid_text(items@, line_width as nat)) by {
        let body = grid_prefix(items@, cell, columns as nat, items@.len());
        assert(body.push('\n') == body + seq!['\n']);
    }
    out
}

/// Styles every entry of a group and lays the results out as a grid.
///
/// What the terminal library emits for a name depends on the process's
/// surroundings, so the text is stated through the styled items: there is
/// one per entry, in the entries' order, each consistent with its entry,
/// and the text is their grid. What shows of the text does not depend on
/// the surroundings: if no name holds an escape character, it is the grid
/// of the bare names.
pub fn render_group(entries: &Vec<Entry>, config: &Config, line_width: usize) -> (out: String)
    ensures
        exists|items: Seq<RenderedItem>| #[trigger]
            styled_group(entries@, *config, items) && out@ == grid_text(items, line_width as nat),
        plain_names(entries@) ==> visible_text(out@) == plain_grid(entries@, line_width as nat),
{
    let mut items: Vec<RenderedItem> = Vec::new();
    let mut i: usize = 0;
    while i < entries.len()
        invariant
            i <= entries.len(),
            styled_group(entries@.subrange(0, i as int), *config, items@),
        decreases entries.len() - i,
    {
        let item = style_entry(&entries[i], config);
        items.push(item);
        i += 1;
    }
    assert(entries@.subrange(0, i as int) == entries@);
    proof {
        if plain_names(entries@) {
            lemma_grid_shows_names(entries@, *config, items@, line_width as nat);
        }
    }
    render_grid(&items, line_width)
}

/// The name of an entry as it shows: in square brackets if the entry is
/// hidden.
pub open spec fn shown_name(entry: Entry) -> Seq<char> {
    decorated(entry.display_name@, entry.hidden())
}

/// Whether no name among the entries holds an escape character.
pub open spec fn plain_names(entries: Seq<Entry>) -> bool {
    forall|i: int| 0 <= i < entries.len() ==> !(#[trigger] entries[i]).display_name@.contains(
        escape(),
    )
}

/// The greatest length among the shown names, 0 if there are none.
pub open spec fn longest_shown(entries: Seq<Entry>) -> nat
    decreases entries.len(),
{
    if entries.len() == 0 {
        0
    } else {
        let rest = longest_shown(entries.drop_last());
        if shown_name(entries.last()).len() > rest {
            shown_name(entries.last()).len()
        } else {
            rest
        }
    }
}

/// One cell of the grid of bare names: the shown name, padded with
/// spaces to the cell's width.
pub open spec fn plain_cell(entry: Entry, cell: nat) -> Seq<char> {
    shown_name(entry) + spaces((cell - shown_name(entry).len()) as nat)
}

/// The text of the first `n` cells of the grid of bare names.
pub open spec fn plain_prefix(entries: Seq<Entry>, cell: nat, columns: nat, n: nat) -> Seq<char>
    decreases n,
{
    if n == 0 || n > entries.len() {
        Seq::empty()
    } else {
        plain_prefix(entries, cell, columns, (n - 1) as nat) + separator((n - 1) as nat, columns)
            + plain_cell(entries[n - 1], cell)
    }
}

/// The grid of the bare names of the entries: what a terminal shows of
/// their styled grid. The cell width is the greatest length of a shown
/// name and a gap of two; the number of columns is the line width divided
/// by the cell width, and at least one; item `i` begins a new line when
/// `i` is a positive multiple of the number of columns; a line break ends
/// the text.
pub open spec fn plain_grid(entries: Seq<Entry>, line_width: nat) -> Seq<char> {
    let cell = longest_shown(entries) + GAP as nat;
    plain_prefix(entries, cell, column_count(line_width, cell), entries.len()) + seq!['\n']
}

proof fn lemma_styled_prefix(entries: Seq<Entry>, config: Config, items: Seq<RenderedItem>)
    requires
        styled_group(entries, config, items),
        entries.len() > 0,
    ensures
        styled_group(entries.drop_last(), config, items.drop_last()),
{
    assert forall|i: int| 0 <= i < items.drop_last().len() implies {
        &&& (#[trigger] items.drop_last()[i]).wf()
        &&& styled_as(
            entries.drop_last()[i].display_name@,
            entries.drop_last()[i].hidden(),
            entry_paint(entries.drop_last()[i], config),
            items.drop_last()[i].attributed_text@,
        )
        &&& !entries.drop_last()[i].display_name@.contains(escape()) ==> visible_text(
            items.drop_last()[i].attributed_text@,
        ) == decorated(entries.drop_last()[i].display_name@, entries.drop_last()[i].hidden())
        &&& entry_paint(entries.drop_last()[i], config).is_plain()
            ==> items.drop_last()[i].attributed_text@ == decorated(
            entries.drop_last()[i].display_name@,
            entries.drop_last()[i].hidden(),
        )
    } by {
        assert(items.drop_last()[i] == items[i]);
        assert(entries.drop_last()[i] == entries[i]);
    }
}

/// Every styled item is as wide on the screen as its bare name.
proof fn lemma_item_width(
    entries: Seq<Entry>,
    config: Config,
    items: Seq<RenderedItem>,
    i: int,
)
    requires
        styled_group(entries, config, items),
        plain_names(entries),
        0 <= i < items.len(),
    ensures
        visible_text(items[i].attributed_text@) == shown_name(entries[i]),
        items[i].visible_length == shown_name(entries[i]).len(),
{
    assert(items[i].wf());
    assert(!entries[i].display_name@.contains(escape()));
}

proof fn lemma_widths_agree(entries: Seq<Entry>, config: Config, items: Seq<RenderedItem>)
    requires
        styled_group(entries, config, items),
        plain_names(entries),
    ensures
        max_visible(items) == longest_shown(entries),
    decreases entries.len(),
{
    if entries.len() > 0 {
        lemma_styled_prefix(entries, config, items);
        assert(plain_names(entries.drop_last())) by {
            assert forall|i: int| 0 <= i < entries.drop_last().len() implies !(
            #[trigger] entries.drop_last()[i]).display_name@.contains(escape()) by {
                assert(entries.drop_last()[i] == entries[i]);
            }
        }
        lemma_widths_agree(entries.drop_last(), config, items.drop_last());
        lemma_item_width(entries, config, items, items.len() - 1);
    }
}

proof fn lemma_prefix_shows_names(
    entries: Seq<Entry>,
    config: Config,
    items: Seq<RenderedItem>,
    columns: nat,
    n: nat,
)
    requires
        styled_group(entries, config, items),
        plain_names(entries),
        n <= items.len(),
    ensures
        visible_text(grid_prefix(items, cell_width(items), columns, n)) == plain_prefix(
            entries,
            cell_width(items),
            columns,
            n,
        ),
        n > 0 ==> grid_prefix(items, cell_width(items), columns, n).len() > 0 && grid_prefix(
            items,
            cell_width(items),
            columns,
            n,
        ).last() == ' ',
    decreases n,
{
    let cell = cell_width(items);
    if n == 0 {
        assert(visible_text(Seq::<char>::empty()) == Seq::<char>::empty());
    } else {
        let i = (n - 1) as int;
        lemma_prefix_shows_names(entries, config, items, columns, (n - 1) as nat);
        lemma_item_width(entries, config, items, i);
        lemma_max_visible_bounds(items, i);
        let before = grid_prefix(items, cell, columns, (n - 1) as nat);
        let sep = separator((n - 1) as nat, columns);
        let text = items[i].attributed_text@;
        let pad = spaces((cell - items[i].visible_length) as nat);
        let shown = shown_name(entries[i]);
        let whole = grid_prefix(items, cell, columns, n);
        assert(pad.len() >= 2);
        assert(whole == before + sep + (text + pad));
        assert(whole.last() == pad.last());
        // the cell by itself
        assert(is_break(pad[0]));
        lemma_visible_before_break(text, pad);
        assert(!pad.contains(escape()));
        lemma_visible_plain(pad);
        assert(visible_text(text + pad) == shown + pad);
        assert(plain_cell(entries[i], cell) == shown + pad);
        // what stands in front of the cell
        let front = before + sep;
        assert(whole == front + (text + pad));
        if sep.len() > 0 {
            assert(sep == seq!['\n']);
            assert(is_break(sep[0]));
            lemma_visible_before_break(before, sep);
            assert(!sep.contains(escape()));
            lemma_visible_plain(sep);
            assert(front.last() == '\n');
            lemma_visible_after_clean_end(front, text + pad);
        } else {
            assert(front == before);
            if n - 1 > 0 {
                lemma_visible_after_clean_end(front, text + pad);
            } else {
                assert(before.len() == 0);
                assert(front + (text + pad) == text + pad);
                assert(visible_text(front) == Seq::<char>::empty());
                assert(Seq::<char>::empty() + (shown + pad) == shown + pad);
            }
            assert(visible_text(before) + sep == visible_text(before));
        }
        assert(visible_text(whole) == visible_text(before) + sep + (shown + pad));
    }
}

/// What shows of a group's grid is determined by the entries and the line
/// width: whatever style sequences the items carry, the visible text is
/// the grid of the bare names.
pub proof fn lemma_grid_shows_names(
    entries: Seq<Entry>,
    config: Config,
    items: Seq<RenderedItem>,
    line_width: nat,
)
    requires
        styled_group(entries, config, items),
        plain_names(entries),
    ensures
        visible_text(grid_text(items, line_width)) == plain_grid(entries, line_width),
{
    let cell = cell_width(items);
    let columns = column_count(line_width, cell);
    lemma_widths_agree(entries, config, items);
    lemma_prefix_shows_names(entries, config, items, columns, items.len());
    let body = grid_prefix(items, cell, columns, items.len());
    let end = seq!['\n'];
    assert(is_break(end[0]));
    lemma_visible_before_break(body, end);
    assert(!end.contains(escape()));
    lemma_visible_plain(end);
}

/// Whether `items` are styled names of `entries`, one for one: each has
/// its true visible length; each is its entry's name styled with the
/// paint of that entry; each name without an escape character shows as
/// itself, in square brackets if its entry is hidden; and each name whose
/// paint changes nothing is left as it is but for the brackets.
pub open spec fn styled_group(entries: Seq<Entry>, config: Config, items: Seq<RenderedItem>) -> bool {
    &&& items.len() == entries.len()
    &&& forall|i: int|
        0 <= i < items.len() ==> {
            &&& (#[trigger] items[i]).wf()
            &&& styled_as(
                entries[i].display_name@,
                entries[i].hidden(),
                entry_paint(entries[i], config),
                items[i].attributed_text@,
            )
            &&& !entries[i].display_name@.contains(escape()) ==> visible_text(
                items[i].attributed_text@,
            ) == decorated(entries[i].display_name@, entries[i].hidden())
            &&& entry_paint(entries[i], config).is_plain() ==> items[i].attributed_text@
                == decorated(entries[i].display_name@, entries[i].hidden())
        }
}

} // verus!
