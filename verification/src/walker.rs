//! The recursive walk: every file below a root whose path the pattern
//! accepts, in the order of a depth-first traversal.
//!
//! The walker never touches the file system. It says which directory it
//! needs read next; its caller reads that directory and hands the result
//! back. Every directory is entered, hidden or not, and only entries that
//! are not directories are tested against the pattern. A directory that
//! cannot be read is noted and the walk goes on with its siblings.

use vstd::prelude::*;
use crate::pattern::{Pattern, pattern_accepts};

verus! {

/// One entry of a directory that was read for the walk.
#[derive(Clone, Debug, PartialEq, Eq)]
pub struct DirItem {
    /// The full path of the entry.
    pub path: String,
    /// Whether the entry is a directory.
    pub is_directory: bool,
}

/// What came of reading the directory that the walker asked for.
#[derive(Clone, Debug, PartialEq, Eq)]
pub enum WalkEvent {
    /// The directory's entries, in the order in which they were read.
    Listing(Vec<DirItem>),
    /// The directory could not be read.
    Unreadable,
}

/// What the walker needs next.
#[derive(Clone, Debug, PartialEq, Eq)]
pub enum WalkStep {
    /// The directory at this path is to be read.
    Read(String),
    /// The walk is over.
    Done,
}

/// A walk in progress.
pub struct Walker {
    pattern: Pattern,
    /// What is still to be visited, the next entry last.
    pending: Vec<DirItem>,
    reading: Option<String>,
    found: Vec<String>,
    failed: Vec<String>,
}

/// The state of a walk.
pub struct WalkState {
    /// The entries still to be visited, the next one first.
    pub queue: Seq<DirItem>,
    /// The directory that the walker has asked for and not yet received.
    pub reading: Option<String>,
    /// The accepted files found so far, in traversal order.
    pub found: Seq<String>,
    /// The directories that could not be read, in traversal order.
    pub failed: Seq<String>,
}

/// The first index at or after `i` that holds a directory, or the length.
pub open spec fn first_directory(queue: Seq<DirItem>, i: int) -> int
    decreases queue.len() - i,
{
    if 0 <= i < queue.len() && !queue[i].is_directory {
        first_directory(queue, i + 1)
    } else {
        i
    }
}

/// The paths among the first `n` entries that the pattern accepts.
pub open spec fn accepted(queue: Seq<DirItem>, source: Seq<char>, n: int) -> Seq<String>
    decreases n,
{
    if n <= 0 || n > queue.len() {
        Seq::empty()
    } else {
        let before = accepted(queue, source, n - 1);
        if pattern_accepts(source, queue[n - 1].path@) {
            before.push(queue[n - 1].path)
        } else {
            before
        }
    }
}

/// The state after the walker has taken in an event. An event counts
/// only while a directory is awaited: a listing puts the directory's
/// entries in front of everything else, so that they are visited before
/// the directory's siblings; a failure notes the directory's path.
pub open spec fn delivered(state: WalkState, event: Option<WalkEvent>) -> WalkState {
    match (state.reading, event) {
        (Some(_), Some(WalkEvent::Listing(items))) => WalkState {
            queue: items@ + state.queue,
            reading: None,
            ..state
        },
        (Some(path), Some(WalkEvent::Unreadable)) => WalkState {
            reading: None,
            failed: state.failed.push(path),
            ..state
        },
        _ => state,
    }
}

/// The state after the walker has moved on. While a directory is awaited
/// nothing moves. Otherwise the files in front of the first directory are
/// passed, the accepted ones being collected, and that directory becomes
/// the one awaited; with no directory left the queue runs empty.
pub open spec fn advanced(state: WalkState, source: Seq<char>) -> WalkState {
    if state.reading is Some {
        state
    } else {
        let k = first_directory(state.queue, 0);
        WalkState {
            queue: state.queue.subrange(
                if k < state.queue.len() {
                    k + 1
                } else {
                    k
                },
                state.queue.len() as int,
            ),
            reading: if k < state.queue.len() {
                Some(state.queue[k].path)
            } else {
                None
            },
            found: state.found + accepted(state.queue, source, k),
            failed: state.failed,
        }
    }
}

/// What a walker in the given state needs next.
pub open spec fn request(state: WalkState) -> WalkStep {
    match state.reading {
        Some(path) => WalkStep::Read(path),
        None => WalkStep::Done,
    }
}

proof fn lemma_first_directory(queue: Seq<DirItem>, i: int)
    requires
        0 <= i <= queue.len(),
    ensures
        i <= first_directory(queue, i) <= queue.len(),
        forall|k: int| i <= k < first_directory(queue, i) ==> !(#[trigger] queue[k]).is_directory,
        first_directory(queue, i) < queue.len() ==> queue[first_directory(queue, i)].is_directory,
    decreases queue.len() - i,
{
    if i < queue.len() && !queue[i].is_directory {
        lemma_first_directory(queue, i + 1);
    }
}

/// A walk that awaits nothing and has nothing queued is over and stays
/// as it is.
pub proof fn lemma_walk_ends(state: WalkState, source: Seq<char>)
    requires
        state.reading is None,
        state.queue.len() == 0,
    ensures
        advanced(state, source) == state,
        request(advanced(state, source)) == WalkStep::Done,
{
    assert(state.queue.subrange(0, 0) == state.queue);
    assert(state.found + Seq::<String>::empty() == state.found);
}

/// Directories are entered whatever the pattern says of them, and a file
/// is collected exactly if the pattern accepts its path: moving on over a
/// queue that starts with a file collects or skips that file and nothing
/// else.
pub proof fn lemma_files_are_tested(state: WalkState, source: Seq<char>)
    requires
        state.reading is None,
        state.queue.len() > 0,
    ensures
        state.queue[0].is_directory ==> advanced(state, source).found == state.found
            && advanced(state, source).reading == Some(state.queue[0].path),
        !state.queue[0].is_directory && first_directory(state.queue, 0) == 1 ==> advanced(
            state,
            source,
        ).found == if pattern_accepts(source, state.queue[0].path@) {
            state.found.push(state.queue[0].path)
        } else {
            state.found
        },
{
    assert(accepted(state.queue, source, 0) == Seq::<String>::empty());
    assert(state.found + Seq::<String>::empty() == state.found);
    if !state.queue[0].is_directory && first_directory(state.queue, 0) == 1 {
        assert(accepted(state.queue, source, 1) == if pattern_accepts(
            source,
            state.queue[0].path@,
        ) {
            Seq::<String>::empty().push(state.queue[0].path)
        } else {
            Seq::<String>::empty()
        });
        assert(state.found + Seq::<String>::empty().push(state.queue[0].path)
            == state.found.push(state.queue[0].path));
    }
}

/// A directory tree as a walk meets it: what stands at a path, and for a
/// directory that can be read, what it holds.
pub enum Node {
    File { path: String },
    Directory { path: String, children: Seq<Node> },
    Unreadable { path: String },
}

impl Node {
    /// The entry under which a node shows up in its parent's listing.
    /// What cannot be read shows up as a directory.
    pub open spec fn item(self) -> DirItem {
        match self {
            Node::File { path } => DirItem { path, is_directory: false },
            Node::Directory { path, .. } => DirItem { path, is_directory: true },
            Node::Unreadable { path } => DirItem { path, is_directory: true },
        }
    }
}

/// The listing in which the given nodes show up.
pub open spec fn items_of(nodes: Seq<Node>) -> Seq<DirItem> {
    Seq::new(nodes.len(), |i: int| nodes[i].item())
}

/// The files at and below the given nodes that the pattern accepts, in
/// depth-first order: what a directory holds comes before the
/// directory's later siblings.
pub open spec fn files_below(nodes: Seq<Node>, source: Seq<char>) -> Seq<String>
    decreases nodes,
{
    if nodes.len() == 0 {
        Seq::empty()
    } else {
        let first = match nodes[0] {
            Node::File { path } => if pattern_accepts(source, path@) {
                seq![path]
            } else {
                Seq::empty()
            },
            Node::Directory { children, .. } => files_below(children, source),
            Node::Unreadable { .. } => Seq::empty(),
        };
        first + files_below(nodes.subrange(1, nodes.len() as int), source)
    }
}

/// The directories at and below the given nodes that cannot be read, in
/// depth-first order.
pub open spec fn failures_below(nodes: Seq<Node>) -> Seq<String>
    decreases nodes,
{
    if nodes.len() == 0 {
        Seq::empty()
    } else {
        let first = match nodes[0] {
            Node::File { .. } => Seq::empty(),
            Node::Directory { children, .. } => failures_below(children),
            Node::Unreadable { path } => seq![path],
        };
        first + failures_below(nodes.subrange(1, nodes.len() as int))
    }
}

/// Whether a walk that awaits nothing has exactly the given nodes left to
/// visit.
pub open spec fn has_ahead(state: WalkState, nodes: Seq<Node>) -> bool {
    state.reading is None && state.queue == items_of(nodes)
}

/// What a walk will have found in the end, if it is in the given state
/// and the given nodes are what is left to visit.
pub open spec fn promised_files(state: WalkState, nodes: Seq<Node>, source: Seq<char>) -> Seq<
    String,
> {
    state.found + files_below(nodes, source)
}

/// What a walk will have failed to read in the end, if it is in the
/// given state and the given nodes are what is left to visit.
pub open spec fn promised_failures(state: WalkState, nodes: Seq<Node>) -> Seq<String> {
    state.failed + failures_below(nodes)
}

proof fn lemma_files_below_concat(a: Seq<Node>, b: Seq<Node>, source: Seq<char>)
    ensures
        files_below(a + b, source) == files_below(a, source) + files_below(b, source),
    decreases a.len(),
{
    if a.len() == 0 {
        assert(a + b == b);
        assert(files_below(a, source) + files_below(b, source) == files_below(b, source));
    } else {
        let rest = a.subrange(1, a.len() as int);
        assert((a + b)[0] == a[0]);
        assert((a + b).subrange(1, (a + b).len() as int) == rest + b);
        lemma_files_below_concat(rest, b, source);
        assert(files_below(a + b, source) =~= files_below(a, source) + files_below(b, source));
    }
}

proof fn lemma_failures_below_concat(a: Seq<Node>, b: Seq<Node>)
    ensures
        failures_below(a + b) == failures_below(a) + failures_below(b),
    decreases a.len(),
{
    if a.len() == 0 {
        assert(a + b == b);
        assert(failures_below(a) + failures_below(b) == failures_below(b));
    } else {
        let rest = a.subrange(1, a.len() as int);
        assert((a + b)[0] == a[0]);
        assert((a + b).subrange(1, (a + b).len() as int) == rest + b);
        lemma_failures_below_concat(rest, b);
        assert(failures_below(a + b) =~= failures_below(a) + failures_below(b));
    }
}

/// The files in front of the first directory are collected as the tree
/// says, and none of them fails.
proof fn lemma_leading_files(nodes: Seq<Node>, source: Seq<char>, n: int)
    requires
        0 <= n <= first_directory(items_of(nodes), 0),
    ensures
        n <= nodes.len(),
        accepted(items_of(nodes), source, n) == files_below(nodes.subrange(0, n), source),
        failures_below(nodes.subrange(0, n)) == Seq::<String>::empty(),
    decreases n,
{
    let queue = items_of(nodes);
    lemma_first_directory(queue, 0);
    if n == 0 {
        assert(nodes.subrange(0, 0).len() == 0);
    } else {
        lemma_leading_files(nodes, source, n - 1);
        let last = nodes[n - 1];
        assert(!queue[n - 1].is_directory);
        assert(queue[n - 1] == last.item());
        assert(last is File);
        let before = nodes.subrange(0, n - 1);
        let one = seq![last];
        assert(nodes.subrange(0, n) == before + one);
        lemma_files_below_concat(before, one, source);
        lemma_failures_below_concat(before, one);
        assert(one.subrange(1, 1).len() == 0);
        assert(files_below(one.subrange(1, 1), source) == Seq::<String>::empty());
        assert(failures_below(one.subrange(1, 1)) == Seq::<String>::empty());
        assert(files_below(one, source) =~= if pattern_accepts(source, last->File_path@) {
            seq![last->File_path]
        } else {
            Seq::<String>::empty()
        });
        assert(failures_below(one) =~= Seq::<String>::empty());
        assert(accepted(queue, source, n) =~= files_below(nodes.subrange(0, n), source));
        assert(failures_below(nodes.subrange(0, n)) =~= Seq::<String>::empty());
    }
}

/// Moving on keeps what the walk will have found and failed to read.
/// Either the walk is over and holds exactly what was promised, or it
/// awaits the first node that is no file, with the nodes behind it left
/// to visit.
pub proof fn lemma_moving_on_keeps_promise(state: WalkState, nodes: Seq<Node>, source: Seq<char>)
    requires
        has_ahead(state, nodes),
    ensures
        ({
            let after = advanced(state, source);
            let k = first_directory(state.queue, 0);
            let rest = nodes.subrange(k, nodes.len() as int);
            &&& 0 <= k <= nodes.len()
            &&& after.found + files_below(rest, source) == promised_files(state, nodes, source)
            &&& after.failed + failures_below(rest) == promised_failures(state, nodes)
            &&& k == nodes.len() ==> {
                &&& request(after) == WalkStep::Done
                &&& after.queue.len() == 0
                &&& after.found == promised_files(state, nodes, source)
                &&& after.failed == promised_failures(state, nodes)
            }
            &&& k < nodes.len() ==> {
                &&& !(nodes[k] is File)
                &&& request(after) == WalkStep::Read(nodes[k].item().path)
                &&& after.queue == items_of(nodes.subrange(k + 1, nodes.len() as int))
            }
        }),
{
    let queue = state.queue;
    let after = advanced(state, source);
    lemma_first_directory(queue, 0);
    let k = first_directory(queue, 0);
    let front = nodes.subrange(0, k);
    let rest = nodes.subrange(k, nodes.len() as int);
    lemma_leading_files(nodes, source, k);
    assert(nodes == front + rest);
    lemma_files_below_concat(front, rest, source);
    lemma_failures_below_concat(front, rest);
    assert(after.found + files_below(rest, source) =~= state.found + files_below(nodes, source));
    assert(after.failed + failures_below(rest) =~= state.failed + failures_below(nodes));
    if k == nodes.len() {
        assert(rest.len() == 0);
        assert(after.found + files_below(rest, source) == after.found);
        assert(after.failed + failures_below(rest) == after.failed);
    } else {
        assert(queue[k] == nodes[k].item());
        assert(after.queue =~= items_of(nodes.subrange(k + 1, nodes.len() as int)));
    }
}

/// Taking in what came of reading the awaited node keeps what the walk
/// will have found and failed to read: after a listing the directory's
/// children are left to visit in front of the rest; after a failure the
/// rest is, and the node's path is noted.
pub proof fn lemma_delivery_keeps_promise(
    state: WalkState,
    node: Node,
    rest: Seq<Node>,
    event: WalkEvent,
    source: Seq<char>,
)
    requires
        state.reading == Some(node.item().path),
        state.queue == items_of(rest),
        match node {
            Node::File { .. } => false,
            Node::Directory { children, .. } => event matches WalkEvent::Listing(items)
                && items@ == items_of(children),
            Node::Unreadable { .. } => event is Unreadable,
        },
    ensures
        ({
            let after = delivered(state, Some(event));
            let ahead = match node {
                Node::Directory { children, .. } => children + rest,
                _ => rest,
            };
            &&& has_ahead(after, ahead)
            &&& promised_files(after, ahead, source) == state.found + files_below(
                seq![node] + rest,
                source,
            )
            &&& promised_failures(after, ahead) == state.failed + failures_below(seq![node] + rest)
        }),
{
    let after = delivered(state, Some(event));
    let one = seq![node];
    lemma_files_below_concat(one, rest, source);
    lemma_failures_below_concat(one, rest);
    assert(one.subrange(1, 1).len() == 0);
    assert(files_below(one.subrange(1, 1), source) == Seq::<String>::empty());
    assert(failures_below(one.subrange(1, 1)) == Seq::<String>::empty());
    match node {
        Node::File { .. } => {},
        Node::Directory { children, .. } => {
            lemma_files_below_concat(children, rest, source);
            lemma_failures_below_concat(children, rest);
            assert(files_below(one, source) =~= files_below(children, source));
            assert(failures_below(one) =~= failures_below(children));
            assert(after.queue =~= items_of(children + rest));
        },
        Node::Unreadable { path } => {
            assert(files_below(one, source) =~= Seq::<String>::empty());
            assert(failures_below(one) =~= seq![path]);
            assert(after.failed + failures_below(rest) =~= state.failed + (seq![path]
                + failures_below(rest)));
            assert(after.found + files_below(rest, source) =~= state.found + (Seq::<
                String,
            >::empty() + files_below(rest, source)));
        },
    }
}

impl Walker {
    /// The state of the walk.
    pub closed spec fn view(&self) -> WalkState {
        WalkState {
            queue: self.pending@.reverse(),
            reading: self.reading,
            found: self.found@,
            failed: self.failed@,
        }
    }

    /// The text of the walk's pattern.
    pub closed spec fn source(&self) -> Seq<char> {
        self.pattern.source()
    }

    pub closed spec fn wf(&self) -> bool {
        self.pattern.wf()
    }

    /// A walk that is about to ask for its root.
    pub fn new(root: String, pattern: Pattern) -> (walker: Walker)
        requires
            pattern.wf(),
        ensures
            walker.wf(),
            walker.source() == pattern.source(),
            walker@ == (WalkState {
                queue: seq![DirItem { path: root, is_directory: true }],
                reading: None,
                found: Seq::empty(),
                failed: Seq::empty(),
            }),
    {
        let mut pending: Vec<DirItem> = Vec::new();
        pending.push(DirItem { path: root, is_directory: true });
        let walker = Walker {
            pattern,
            pending,
            reading: None,
            found: Vec::new(),
            failed: Vec::new(),
        };
        assert(walker.pending@.reverse() == seq![DirItem { path: root, is_directory: true }]);
        walker
    }

    /// Puts the entries of a directory in front of everything queued.
    fn enqueue(&mut self, items: Vec<DirItem>)
        ensures
            final(self).pending@.reverse() == items@ + old(self).pending@.reverse(),
            final(self).pattern == old(self).pattern,
            final(self).reading == old(self).reading,
            final(self).found == old(self).found,
            final(self).failed == old(self).failed,
    {
        let ghost all = items@;
        let ghost base = self.pending@;
        let mut rest = items;
        while rest.len() > 0
            invariant
                rest@.len() <= all.len(),
                rest@ == all.subrange(0, rest@.len() as int),
                self.pending@ == base + all.subrange(rest@.len() as int, all.len() as int).reverse(),
                self.pattern == old(self).pattern,
                self.reading == old(self).reading,
                self.found == old(self).found,
                self.failed == old(self).failed,
            decreases rest@.len(),
        {
            let ghost n = rest@.len() as int;
            let item = rest.pop().unwrap();
            assert(item == all[n - 1]);
            let ghost before = self.pending@;
            self.pending.push(item);
            assert(self.pending@ == base + all.subrange(n - 1, all.len() as int).reverse()) by {
                let tail = all.subrange(n, all.len() as int).reverse();
                let longer = all.subrange(n - 1, all.len() as int).reverse();
                assert(longer =~= tail.push(all[n - 1]));
                assert(before.push(item) =~= base + tail.push(item));
            }
        }
        assert(all.subrange(0, all.len() as int) == all);
        assert((base + all.reverse()).reverse() =~= all + base.reverse());
    }

    /// Passes files until a directory comes up.
    fn advance(&mut self) -> (next: WalkStep)
        requires
            old(self).wf(),
        ensures
            final(self).wf(),
            final(self).source() == old(self).source(),
            final(self)@ == advanced(old(self)@, old(self).source()),
            next == request(final(self)@),
    {
        if let Some(path) = &self.reading {
            return WalkStep::Read(path.clone());
        }
        let ghost queue = self.pending@.reverse();
        let ghost found = self.found@;
        let ghost source = self.pattern.source();
        let ghost mut passed: int = 0;
        proof {
            assert(queue.subrange(0, queue.len() as int) == queue);
            assert(found + accepted(queue, source, 0) == found);
        }
        while self.pending.len() > 0
            invariant
                0 <= passed <= queue.len(),
                queue == old(self)@.queue,
                found == old(self)@.found,
                old(self)@.reading is None,
                self.pending@.reverse() == queue.subrange(passed, queue.len() as int),
                first_directory(queue, 0) == first_directory(queue, passed),
                self.found@ == found + accepted(queue, source, passed),
                self.reading is None,
                self.pattern == old(self).pattern,
                self.pattern.wf(),
                source == self.pattern.source(),
                self.failed == old(self).failed,
            decreases self.pending@.len(),
        {
            let ghost stack = self.pending@;
            let item = self.pending.pop().unwrap();
            proof {
                let ahead = queue.subrange(passed, queue.len() as int);
                assert(stack.reverse() == ahead);
                assert(stack.reverse().len() == stack.len());
                assert(ahead.len() == queue.len() - passed);
                assert(passed < queue.len());
                assert(stack.reverse()[0] == item);
                assert(ahead[0] == queue[passed]);
                assert(self.pending@.reverse() =~= queue.subrange(passed + 1, queue.len() as int))
                    by {
                    assert forall|i: int| 0 <= i < self.pending@.len() implies self.pending@.reverse()[i]
                        == queue.subrange(passed + 1, queue.len() as int)[i] by {
                        assert(self.pending@.reverse()[i] == stack.reverse()[i + 1]);
                        assert(ahead[i + 1] == queue[passed + 1 + i]);
                    }
                }
            }
            if item.is_directory {
                let path = item.path.clone();
                self.reading = Some(item.path);
                proof {
                    assert(item == queue[passed]);
                    assert(first_directory(queue, passed) == passed);
                    let after = advanced(old(self)@, old(self).source());
                    assert(old(self)@.queue == queue);
                    assert(after.queue == queue.subrange(passed + 1, queue.len() as int));
                    assert(after.reading == Some(queue[passed].path));
                    assert(after.found == found + accepted(queue, source, passed));
                    assert(self@.queue == after.queue);
                    assert(self@.found == after.found);
                    assert(self@.failed == after.failed);
                    assert(self@.reading == after.reading);
                }
                return WalkStep::Read(path);
            }
            if self.pattern.matches(item.path.as_str()) {
                self.found.push(item.path);
            }
            proof {
                assert(found + accepted(queue, source, passed + 1) == (found + accepted(
                    queue,
                    source,
                    passed,
                )) + (if pattern_accepts(source, queue[passed].path@) {
                    seq![queue[passed].path]
                } else {
                    Seq::<String>::empty()
                }));
                passed = passed + 1;
            }
        }
        proof {
            assert(queue.subrange(passed, queue.len() as int).len() == 0);
            assert(self.pending@.reverse() =~= queue.subrange(passed, queue.len() as int));
        }
        WalkStep::Done
    }

    /// Takes in what came of the last request, if anything was requested,
    /// and moves on to the next directory that needs reading.
    ///
    /// The first call passes no event. After that each call passes the
    /// listing of the directory last asked for, or the fact that it could
    /// not be read. An event that arrives while nothing is awaited is
    /// ignored; no event while a directory is awaited repeats the request.
    pub fn step(&mut self, event: Option<WalkEvent>) -> (next: WalkStep)
        requires
            old(self).wf(),
        ensures
            final(self).wf(),
            final(self).source() == old(self).source(),
            final(self)@ == advanced(delivered(old(self)@, event), old(self).source()),
            next == request(final(self)@),
    {
        if self.reading.is_some() {
            match event {
                Some(WalkEvent::Listing(items)) => {
                    self.reading = None;
                    self.enqueue(items);
                },
                Some(WalkEvent::Unreadable) => {
                    let path = self.reading.take().unwrap();
                    self.failed.push(path);
                },
                None => {},
            }
        }
        self.advance()
    }

    /// The accepted files found so far, in traversal order.
    pub fn found(&self) -> (paths: &Vec<String>)
        ensures
            paths@ == self@.found,
    {
        &self.found
    }

    /// The directories that could not be read, in traversal order.
    pub fn failed(&self) -> (paths: &Vec<String>)
        ensures
            paths@ == self@.failed,
    {
        &self.failed
    }
}

} // verus!
