//! The listing of one directory: which entries are shown, in which of the
//! two groups, and in what order.

use vstd::prelude::*;
use crate::entry::{Entry, classify};
use crate::pattern::{Pattern, PatternError, pattern_compiles, retained, retain};
use crate::sort::{SortMode, is_sorted_as, is_stable_sort, sort_entries};
use crate::sort::{arranges, in_order, pair_in_order, lemma_sorted_as_unique};
use crate::order::{lex_less, name_key};

verus! {

/// What the command line asked for.
#[derive(Clone, Debug)]
pub struct Args {
    /// The directory to list.
    pub path: String,
    /// Whether hidden entries are shown.
    pub all: bool,
    /// Whether entries stay in the order in which they were scanned.
    pub unordered: bool,
    /// Whether subdirectories are walked instead of listed.
    pub recursive: bool,
    /// The pattern that full paths must match; empty for no filtering.
    pub regex: String,
}

/// The entries to show, directories apart from everything else.
#[derive(Clone, Debug, PartialEq, Eq)]
pub struct Listing {
    pub dirs: Vec<Entry>,
    pub files: Vec<Entry>,
}

impl Args {
    /// The sort mode that the arguments ask for.
    pub open spec fn mode(&self) -> SortMode {
        if self.unordered {
            SortMode::Unordered
        } else {
            SortMode::Ordered
        }
    }

    /// The sort mode that the arguments ask for.
    pub fn sort_mode(&self) -> (mode: SortMode)
        ensures
            mode == self.mode(),
    {
        if self.unordered {
            SortMode::Unordered
        } else {
            SortMode::Ordered
        }
    }
}

/// The entries of one group that are kept, in the order of the scan.
/// `directories` chooses the group.
pub open spec fn kept(
    entries: Seq<Entry>,
    source: Seq<char>,
    include_hidden: bool,
    directories: bool,
) -> Seq<Entry>
    decreases entries.len(),
{
    if entries.len() == 0 {
        Seq::empty()
    } else {
        let before = kept(entries.drop_last(), source, include_hidden, directories);
        let last = entries.last();
        if retained(last, source, include_hidden) && last.is_directory == directories {
            before.push(last)
        } else {
            before
        }
    }
}

/// Whether `listing` shows `entries` under the given pattern and options:
/// each group holds exactly the kept entries of its kind, sorted as the
/// mode says.
pub open spec fn lists(
    entries: Seq<Entry>,
    source: Seq<char>,
    include_hidden: bool,
    mode: SortMode,
    listing: Listing,
) -> bool {
    &&& is_sorted_as(mode, kept(entries, source, include_hidden, true), listing.dirs@)
    &&& is_sorted_as(mode, kept(entries, source, include_hidden, false), listing.files@)
}

/// Every kept entry is one of the entries, is retained, and is of the
/// group asked for.
pub proof fn lemma_kept_are_retained(
    entries: Seq<Entry>,
    source: Seq<char>,
    include_hidden: bool,
    directories: bool,
    i: int,
)
    requires
        0 <= i < kept(entries, source, include_hidden, directories).len(),
    ensures
        entries.contains(kept(entries, source, include_hidden, directories)[i]),
        retained(kept(entries, source, include_hidden, directories)[i], source, include_hidden),
        kept(entries, source, include_hidden, directories)[i].is_directory == directories,
    decreases entries.len(),
{
    let before = kept(entries.drop_last(), source, include_hidden, directories);
    if i < before.len() {
        lemma_kept_are_retained(entries.drop_last(), source, include_hidden, directories, i);
        let e = before[i];
        let k = choose|k: int| 0 <= k < entries.drop_last().len() && entries.drop_last()[k] == e;
        assert(entries[k] == e);
    } else {
        assert(entries[entries.len() - 1] == entries.last());
    }
}

/// A hidden entry is never kept unless hidden entries are included.
pub proof fn lemma_hidden_are_dropped(
    entries: Seq<Entry>,
    source: Seq<char>,
    directories: bool,
    i: int,
)
    requires
        0 <= i < kept(entries, source, false, directories).len(),
    ensures
        !kept(entries, source, false, directories)[i].hidden(),
{
    lemma_kept_are_retained(entries, source, false, directories, i);
}

/// With the empty pattern and hidden entries included, every entry is
/// kept in one of the two groups.
pub proof fn lemma_everything_kept(entries: Seq<Entry>)
    ensures
        kept(entries, Seq::empty(), true, true).len() + kept(
            entries,
            Seq::empty(),
            true,
            false,
        ).len() == entries.len(),
    decreases entries.len(),
{
    if entries.len() > 0 {
        lemma_everything_kept(entries.drop_last());
    }
}

/// What a listing shows is determined by the entries, the pattern and
/// the options: two listings of the same input show the same entries in
/// the same order.
pub proof fn lemma_listing_is_determined(
    entries: Seq<Entry>,
    source: Seq<char>,
    include_hidden: bool,
    mode: SortMode,
    first: Listing,
    second: Listing,
)
    requires
        lists(entries, source, include_hidden, mode, first),
        lists(entries, source, include_hidden, mode, second),
    ensures
        first.dirs@ == second.dirs@,
        first.files@ == second.files@,
{
    lemma_sorted_as_unique(
        mode,
        kept(entries, source, include_hidden, true),
        first.dirs@,
        second.dirs@,
    );
    lemma_sorted_as_unique(
        mode,
        kept(entries, source, include_hidden, false),
        first.files@,
        second.files@,
    );
}

/// Every entry of a sorted group is a kept entry of that group.
proof fn lemma_sorted_group_members(
    entries: Seq<Entry>,
    source: Seq<char>,
    include_hidden: bool,
    directories: bool,
    mode: SortMode,
    group: Seq<Entry>,
    i: int,
)
    requires
        is_sorted_as(mode, kept(entries, source, include_hidden, directories), group),
        0 <= i < group.len(),
    ensures
        entries.contains(group[i]),
        retained(group[i], source, include_hidden),
        group[i].is_directory == directories,
{
    let a = kept(entries, source, include_hidden, directories);
    if mode == SortMode::Ordered {
        let p = choose|p: Seq<int>| #[trigger] arranges(p, a, group) && in_order(p, group);
        assert(group[i] == a[p[i]]);
        lemma_kept_are_retained(entries, source, include_hidden, directories, p[i]);
    } else {
        lemma_kept_are_retained(entries, source, include_hidden, directories, i);
    }
}

/// A listing shows only entries that were scanned and are retained, the
/// directories apart from everything else.
pub proof fn lemma_listing_is_grouped(
    entries: Seq<Entry>,
    source: Seq<char>,
    include_hidden: bool,
    mode: SortMode,
    listing: Listing,
)
    requires
        lists(entries, source, include_hidden, mode, listing),
    ensures
        forall|i: int|
            0 <= i < listing.dirs@.len() ==> {
                &&& (#[trigger] listing.dirs@[i]).is_directory
                &&& entries.contains(listing.dirs@[i])
                &&& retained(listing.dirs@[i], source, include_hidden)
            },
        forall|i: int|
            0 <= i < listing.files@.len() ==> {
                &&& !(#[trigger] listing.files@[i]).is_directory
                &&& entries.contains(listing.files@[i])
                &&& retained(listing.files@[i], source, include_hidden)
            },
{
    assert forall|i: int| 0 <= i < listing.dirs@.len() implies {
        &&& (#[trigger] listing.dirs@[i]).is_directory
        &&& entries.contains(listing.dirs@[i])
        &&& retained(listing.dirs@[i], source, include_hidden)
    } by {
        lemma_sorted_group_members(entries, source, include_hidden, true, mode, listing.dirs@, i);
    }
    assert forall|i: int| 0 <= i < listing.files@.len() implies {
        &&& !(#[trigger] listing.files@[i]).is_directory
        &&& entries.contains(listing.files@[i])
        &&& retained(listing.files@[i], source, include_hidden)
    } by {
        lemma_sorted_group_members(
            entries,
            source,
            include_hidden,
            false,
            mode,
            listing.files@,
            i,
        );
    }
}

/// In ordered mode each group of a listing is sorted by name: no entry
/// stands before one whose name is lexicographically less.
pub proof fn lemma_listing_is_sorted(
    entries: Seq<Entry>,
    source: Seq<char>,
    include_hidden: bool,
    listing: Listing,
)
    requires
        lists(entries, source, include_hidden, SortMode::Ordered, listing),
    ensures
        forall|i: int, j: int|
            0 <= i < j < listing.dirs@.len() ==> !lex_less(
                #[trigger] name_key(listing.dirs@[j]),
                #[trigger] name_key(listing.dirs@[i]),
            ),
        forall|i: int, j: int|
            0 <= i < j < listing.files@.len() ==> !lex_less(
                #[trigger] name_key(listing.files@[j]),
                #[trigger] name_key(listing.files@[i]),
            ),
{
    lemma_listing_is_grouped(entries, source, include_hidden, SortMode::Ordered, listing);
    let dirs = listing.dirs@;
    let files = listing.files@;
    let p = choose|p: Seq<int>| #[trigger]
        arranges(p, kept(entries, source, include_hidden, true), dirs) && in_order(p, dirs);
    let q = choose|q: Seq<int>| #[trigger]
        arranges(q, kept(entries, source, include_hidden, false), files) && in_order(q, files);
    assert forall|i: int, j: int| 0 <= i < j < dirs.len() implies !lex_less(
        #[trigger] name_key(dirs[j]),
        #[trigger] name_key(dirs[i]),
    ) by {
        assert(pair_in_order(p, dirs, i, j));
        assert(dirs[i].is_directory && dirs[j].is_directory);
    }
    assert forall|i: int, j: int| 0 <= i < j < files.len() implies !lex_less(
        #[trigger] name_key(files[j]),
        #[trigger] name_key(files[i]),
    ) by {
        assert(pair_in_order(q, files, i, j));
        assert(!files[i].is_directory && !files[j].is_directory);
    }
}

/// Splits the kept entries into directories and everything else, each
/// group in the entries' order.
pub fn partition_entries(entries: Vec<Entry>, pattern: &Pattern, include_hidden: bool) -> (groups:
    Listing)
    requires
        pattern.wf(),
    ensures
        groups.dirs@ == kept(entries@, pattern.source(), include_hidden, true),
        groups.files@ == kept(entries@, pattern.source(), include_hidden, false),
{
    let ghost a = entries@;
    let ghost source = pattern.source();
    let mut dirs: Vec<Entry> = Vec::new();
    let mut files: Vec<Entry> = Vec::new();
    for entry in it: entries
        invariant
            it.seq() == a,
            pattern.wf(),
            source == pattern.source(),
            dirs@ == kept(a.subrange(0, it.index() as int), source, include_hidden, true),
            files@ == kept(a.subrange(0, it.index() as int), source, include_hidden, false),
    {
        let ghost done = a.subrange(0, it.index() + 1);
        assert(done.drop_last() == a.subrange(0, it.index() as int));
        assert(done.last() == entry);
        let (_, hidden) = classify(&entry);
        if retain(&entry, hidden, pattern, include_hidden) {
            if entry.is_directory {
                dirs.push(entry);
            } else {
                files.push(entry);
            }
        }
    }
    assert(a.subrange(0, a.len() as int) == a);
    Listing { dirs, files }
}

/// Prepares the listing of scanned entries. The pattern is compiled
/// first: if it does not compile, that is the error, and no entry is
/// looked at. Otherwise hidden entries are dropped unless `all` is set,
/// entries whose full path the pattern rejects are dropped, and the rest
/// is split into directories and everything else, each group sorted as
/// the arguments say.
pub fn sort_dirs(entries: Vec<Entry>, args: &Args) -> (r: Result<Listing, PatternError>)
    ensures
        r is Ok == (args.regex@.len() == 0 || pattern_compiles(args.regex@)),
        r matches Ok(listing) ==> lists(
            entries@,
            args.regex@,
            args.all,
            args.mode(),
            listing,
        ),
{
    let pattern = match Pattern::compile(args.regex.as_str()) {
        Ok(pattern) => pattern,
        Err(error) => {
            return Err(error);
        },
    };
    let groups = partition_entries(entries, &pattern, args.all);
    let mode = args.sort_mode();
    let dirs = sort_entries(groups.dirs, mode);
    let files = sort_entries(groups.files, mode);
    Ok(Listing { dirs, files })
}

} // verus!
