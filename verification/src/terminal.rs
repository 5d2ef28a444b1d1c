//! The width of the line that a grid may fill.

use vstd::prelude::*;

verus! {

/// The width of the line that a grid may fill on a terminal of the given
/// dimensions: the terminal's own width. There is none if the dimensions
/// are unknown or the terminal has no column at all.
pub open spec fn width_within(dimensions: Option<(usize, usize)>) -> Option<usize> {
    match dimensions {
        Some((width, _)) => if width > 0 {
            Some(width)
        } else {
            None
        },
        None => None,
    }
}

/// `term_size::dimensions`: the width and height of the terminal that the
/// process is attached to, if it is attached to one.
///
/// Trusted, with nothing claimed: the answer depends on the process's
/// surroundings.
#[verifier::external_body]
fn query_dimensions() -> Option<(usize, usize)> {
    term_size::dimensions()
}

/// The width of the line that a grid may fill on a terminal of the given
/// dimensions.
pub fn usable_width(dimensions: Option<(usize, usize)>) -> (width: Option<usize>)
    ensures
        width == width_within(dimensions),
{
    match dimensions {
        Some((width, _)) => if width > 0 {
            Some(width)
        } else {
            None
        },
        None => None,
    }
}

/// The width of the line that a grid may fill on the terminal that the
/// process is attached to, if it is attached to one. Whatever the
/// terminal reports, the width is the one that `usable_width` gives for
/// it.
pub fn line_width() -> (width: Option<usize>)
    ensures
        exists|dimensions: Option<(usize, usize)>| width == #[trigger] width_within(dimensions),
{
    let dimensions = query_dimensions();
    usable_width(dimensions)
}

} // verus!
