//! The text that a listing or a walk prints.

use vstd::prelude::*;
use crate::ansi::{escape, is_break, visible_text};
use crate::ansi::{lemma_visible_after_clean_end, lemma_visible_plain_prefix};
use crate::grid::{grid_text, plain_grid, plain_names, render_group, styled_group};
use crate::listing::Listing;
use crate::style::{Config, RenderedItem};
use crate::text::push_char;

verus! {

/// The paths, each on a line of its own.
pub open spec fn lines_of(paths: Seq<String>) -> Seq<char>
    decreases paths.len(),
{
    if paths.len() == 0 {
        Seq::empty()
    } else {
        lines_of(paths.drop_last()) + paths.last()@ + seq!['\n']
    }
}

/// The text of a listing made of the given styled groups: the grid of
/// the directories, a blank line, the grid of everything else.
pub open spec fn listing_text(
    dirs: Seq<RenderedItem>,
    files: Seq<RenderedItem>,
    line_width: nat,
) -> Seq<char> {
    grid_text(dirs, line_width) + seq!['\n'] + grid_text(files, line_width)
}

/// The text of a listing: the directories as a grid, a blank line, and
/// everything else as a grid.
///
/// What the terminal library emits for a name depends on the process's
/// surroundings, so the text is stated through the styled items of the
/// two groups. What shows of the text does not depend on them: if no
/// name holds an escape character, it is the grids of the bare names.
pub fn render_listing(listing: &Listing, config: &Config, line_width: usize) -> (out: String)
    ensures
        plain_names(listing.dirs@) && plain_names(listing.files@) ==> visible_text(out@)
            == plain_grid(listing.dirs@, line_width as nat) + seq!['\n'] + plain_grid(
            listing.files@,
            line_width as nat,
        ),
        exists|dirs: Seq<RenderedItem>, files: Seq<RenderedItem>|
            {
                &&& #[trigger] styled_group(listing.dirs@, *config, dirs)
                &&& #[trigger] styled_group(listing.files@, *config, files)
                &&& out@ == listing_text(dirs, files, line_width as nat)
            },
{
    let mut out = render_group(&listing.dirs, config, line_width);
    let ghost dirs = choose|items: Seq<RenderedItem>| #[trigger]
        styled_group(listing.dirs@, *config, items) && out@ == grid_text(items, line_width as nat);
    push_char(&mut out, '\n');
    let lower = render_group(&listing.files, config, line_width);
    let ghost files = choose|items: Seq<RenderedItem>| #[trigger]
        styled_group(listing.files@, *config, items) && lower@ == grid_text(items, line_width as nat);
    out.append(lower.as_str());
    proof {
        let upper = grid_text(dirs, line_width as nat);
        let gap = seq!['\n'];
        assert(out@ == upper + (gap + lower@));
        assert(upper.last() == '\n');
        assert(is_break('\n'));
        lemma_visible_after_clean_end(upper, gap + lower@);
        assert(!gap.contains(escape()));
        lemma_visible_plain_prefix(gap, lower@);
        assert(visible_text(upper) + (gap + visible_text(lower@)) == visible_text(upper) + gap
            + visible_text(lower@));
        assert(grid_text(dirs, line_width as nat).push('\n') == grid_text(dirs, line_width as nat)
            + seq!['\n']);
        assert(styled_group(listing.dirs@, *config, dirs) && styled_group(listing.files@, *config, files) && out@
            == listing_text(dirs, files, line_width as nat));
    }
    out
}

/// The text of a walk's result: each path on a line of its own, unstyled.
pub fn render_paths(paths: &Vec<String>) -> (out: String)
    ensures
        out@ == lines_of(paths@),
{
    let mut out = String::new();
    let mut i: usize = 0;
    while i < paths.len()
        invariant
            i <= paths.len(),
            out@ == lines_of(paths@.subrange(0, i as int)),
        decreases paths.len() - i,
    {
        let ghost before = out@;
        out.append(paths[i].as_str());
        push_char(&mut out, '\n');
        proof {
            let done = paths@.subrange(0, i + 1);
            assert(done.drop_last() == paths@.subrange(0, i as int));
            assert(done.last() == paths@[i as int]);
            assert(out@ == before + paths@[i as int]@ + seq!['\n']);
        }
        i += 1;
    }
    assert(paths@.subrange(0, i as int) == paths@);
    out
}

} // verus!
