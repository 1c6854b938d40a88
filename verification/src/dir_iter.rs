//! Lazy depth-first walk over a directory tree.
//!
//! The program around the library reads the real directories and hands the
//! walk a listing of [`RawEntry`] values; the walk itself is a single-pass,
//! non-restartable source of full file paths, pre-order and depth-first.
//! Symbolic links are skipped silently; a failure on one entry surfaces as
//! one item of the stream and never suppresses its siblings.  The walk keeps
//! an explicit stack of open listings: a frame is pushed when a directory is
//! entered and popped when its listing is exhausted, so at most one nested
//! listing is live per level.

use crate::iter::Provider;
use vstd::prelude::*;

verus! {

/// A path-tagged failure met during a walk: the path concerned, and the
/// text of the underlying error.
#[derive(Debug)]
pub struct DirIteratorError {
    pub path: String,
    pub err: String,
}

impl DirIteratorError {
    pub fn new(path: &str, err: String) -> (r: Self)
        ensures
            r.path@ == path@,
            r.err@ == err@,
    {
        DirIteratorError { path: path.to_owned(), err }
    }
}

/// One entry of a directory listing, as the reader of the real directory
/// hands it over.  A directory entry carries its own listing; one whose
/// listing could not be opened, or whose kind could not be read, carries the
/// error text instead.
pub enum RawEntry {
    /// A regular file.
    File { name: String },
    /// A directory, with the entries listed inside it.
    Dir { name: String, entries: Vec<RawEntry> },
    /// A symbolic link: skipped silently by the walk.
    Symlink { name: String },
    /// An entry whose kind could not be read; `path` is already complete.
    ReadError { path: String, err: String },
    /// A directory whose listing could not be opened.
    DirOpenError { name: String, err: String },
}

/// The model of one item of the walked stream: a file's full path, or a
/// path-tagged failure.
pub enum WalkItem {
    Path { path: Seq<char> },
    Failure { path: Seq<char>, err: Seq<char> },
}

/// A name appended to a directory path, separated by a slash.
pub open spec fn joined(prefix: Seq<char>, name: Seq<char>) -> Seq<char> {
    prefix + seq!['/'] + name
}

/// The items one entry contributes to the walk of the directory at `prefix`:
/// a file yields its path, a symbolic link yields nothing, a failed entry
/// yields one failure, and a directory yields the walk of its own listing.
pub open spec fn walk_entry(prefix: Seq<char>, e: RawEntry) -> Seq<WalkItem>
    decreases e,
{
    match e {
        RawEntry::File { name } => seq![WalkItem::Path { path: joined(prefix, name@) }],
        RawEntry::Dir { name, entries } => walk_entries(joined(prefix, name@), entries@),
        RawEntry::Symlink { name } => Seq::empty(),
        RawEntry::ReadError { path, err } => seq![
            WalkItem::Failure { path: path@, err: err@ },
        ],
        RawEntry::DirOpenError { name, err } => seq![
            WalkItem::Failure { path: joined(prefix, name@), err: err@ },
        ],
    }
}

/// The items a listing contributes, entry after entry in listing order.
pub open spec fn walk_entries(prefix: Seq<char>, s: Seq<RawEntry>) -> Seq<WalkItem>
    decreases s,
{
    if s.len() == 0 {
        Seq::empty()
    } else {
        walk_entry(prefix, s.first()) + walk_entries(prefix, s.drop_first())
    }
}

/// The structural size of one entry; a directory outweighs its listing, so
/// that entering it shrinks the walk's measure.
pub open spec fn entry_size(e: RawEntry) -> nat
    decreases e,
{
    match e {
        RawEntry::Dir { name, entries } => 2 + entries_size(entries@),
        _ => 1,
    }
}

/// The summed structural size of a listing.
pub open spec fn entries_size(s: Seq<RawEntry>) -> nat
    decreases s,
{
    if s.len() == 0 {
        0
    } else {
        entry_size(s.first()) + entries_size(s.drop_first())
    }
}

/// One open listing: the path of its directory and the entries not yet
/// consumed.
struct Frame {
    path: String,
    entries: Vec<RawEntry>,
}

spec fn frame_items(f: Frame) -> Seq<WalkItem> {
    walk_entries(f.path@, f.entries@)
}

spec fn frame_size(f: Frame) -> nat {
    1 + entries_size(f.entries@)
}

/// The items the whole stack still owes: the top (innermost) listing first,
/// then each enclosing listing's leftover entries.
spec fn stack_items(s: Seq<Frame>) -> Seq<WalkItem>
    decreases s.len(),
{
    if s.len() == 0 {
        Seq::empty()
    } else {
        frame_items(s.last()) + stack_items(s.drop_last())
    }
}

spec fn stack_size(s: Seq<Frame>) -> nat
    decreases s.len(),
{
    if s.len() == 0 {
        0
    } else {
        frame_size(s.last()) + stack_size(s.drop_last())
    }
}

/// The model of one produced item.
pub open spec fn item_model(r: &Result<String, DirIteratorError>) -> WalkItem {
    match r {
        Ok(p) => WalkItem::Path { path: p@ },
        Err(e) => WalkItem::Failure { path: e.path@, err: e.err@ },
    }
}

/// The lazy walk itself: a stack of open listings, the innermost on top.
pub struct DirIterator {
    stack: Vec<Frame>,
}

fn join_path(prefix: &String, name: &str) -> (r: String)
    ensures
        r@ == joined(prefix@, name@),
{
    let mut s = prefix.clone();
    s.append("/");
    s.append(name);
    proof {
        reveal_strlit("/");
        assert(s@ =~= joined(prefix@, name@));
    }
    s
}

impl DirIterator {
    /// The models of the items the walk will still produce, in order.
    pub closed spec fn remaining(&self) -> Seq<WalkItem> {
        stack_items(self.stack@)
    }

    /// Open a walk over the directory at `path`, whose listing the caller
    /// has read: the walk owes exactly the pre-order items of that listing.
    /// A root whose listing could not be read fails construction instead.
    pub fn new(path: &str, listing: Result<Vec<RawEntry>, String>) -> (r: Result<
        DirIterator,
        DirIteratorError,
    >)
        ensures
            r is Ok <==> listing is Ok,
            listing matches Ok(entries) ==> (r matches Ok(d) && d.remaining() == walk_entries(
                path@,
                entries@,
            )),
            listing matches Err(msg) ==> (r matches Err(e) && e.path@ == path@ && e.err@ == msg@),
    {
        match listing {
            Ok(entries) => {
                let ghost ges = entries@;
                let frame = Frame { path: path.to_owned(), entries };
                let mut stack: Vec<Frame> = Vec::new();
                stack.push(frame);
                let d = DirIterator { stack };
                proof {
                    assert(d.stack@.drop_last() =~= Seq::<Frame>::empty());
                    assert(stack_items(d.stack@.drop_last()) == Seq::<WalkItem>::empty());
                    assert(d.remaining() =~= walk_entries(path@, ges));
                }
                Ok(d)
            },
            Err(msg) => Err(DirIteratorError::new(path, msg)),
        }
    }

    /// Produce the next item of the walk: the first item still owed, or
    /// nothing once the walk is exhausted.  Exhaustion is absorbing.
    pub fn next(&mut self) -> (r: Option<Result<String, DirIteratorError>>)
        ensures
            old(self).remaining().len() == 0 ==> (r is None && final(self).remaining() == old(
                self,
            ).remaining()),
            old(self).remaining().len() > 0 ==> (r matches Some(item) && item_model(&item) == old(
                self,
            ).remaining().first() && final(self).remaining() == old(self).remaining().drop_first()),
    {
        loop
            invariant
                stack_items(self.stack@) == old(self).remaining(),
            decreases stack_size(self.stack@),
        {
            let ghost prev_stack = self.stack@;
            if self.stack.len() == 0 {
                return None;
            }
            let mut f = self.stack.pop().unwrap();
            let ghost popped = self.stack@;
            let ghost es = f.entries@;
            if f.entries.len() == 0 {
                // This listing is exhausted: drop its frame and go on in the
                // enclosing one.
                proof {
                    assert(stack_items(prev_stack) =~= stack_items(popped));
                    assert(stack_size(popped) < stack_size(prev_stack));
                }
                continue ;
            }
            let e = f.entries.remove(0);
            let ghost fpath = f.path@;
            let ghost items0 = old(self).remaining();
            proof {
                assert(es.remove(0) =~= es.drop_first());
            }
            match e {
                RawEntry::File { name } => {
                    let ghost gname = name@;
                    let p = join_path(&f.path, name.as_str());
                    self.stack.push(f);
                    proof {
                        assert(self.stack@.drop_last() =~= popped);
                        Self::lemma_after_top_update(prev_stack, self.stack@, fpath, es);
                        assert(walk_entry(fpath, es.first()) == seq![
                            WalkItem::Path { path: joined(fpath, gname) },
                        ]);
                        assert(items0.first() == WalkItem::Path { path: joined(fpath, gname) });
                        assert(stack_items(self.stack@) =~= items0.drop_first());
                    }
                    return Some(Ok(p));
                },
                RawEntry::Symlink { name } => {
                    self.stack.push(f);
                    proof {
                        assert(self.stack@.drop_last() =~= popped);
                        Self::lemma_after_top_update(prev_stack, self.stack@, fpath, es);
                        assert(walk_entry(fpath, es.first()) == Seq::<WalkItem>::empty());
                        assert(stack_items(self.stack@) =~= stack_items(prev_stack));
                        assert(stack_size(self.stack@) < stack_size(prev_stack));
                    }
                },
                RawEntry::ReadError { path, err } => {
                    let ghost gpath = path@;
                    let ghost gerr = err@;
                    self.stack.push(f);
                    let item = DirIteratorError { path, err };
                    proof {
                        assert(self.stack@.drop_last() =~= popped);
                        Self::lemma_after_top_update(prev_stack, self.stack@, fpath, es);
                        assert(walk_entry(fpath, es.first()) == seq![
                            WalkItem::Failure { path: gpath, err: gerr },
                        ]);
                        assert(items0.first() == WalkItem::Failure { path: gpath, err: gerr });
                        assert(stack_items(self.stack@) =~= items0.drop_first());
                    }
                    return Some(Err(item));
                },
                RawEntry::DirOpenError { name, err } => {
                    let ghost gname = name@;
                    let ghost gerr = err@;
                    let p = join_path(&f.path, name.as_str());
                    self.stack.push(f);
                    let item = DirIteratorError { path: p, err };
                    proof {
                        assert(self.stack@.drop_last() =~= popped);
                        Self::lemma_after_top_update(prev_stack, self.stack@, fpath, es);
                        assert(walk_entry(fpath, es.first()) == seq![
                            WalkItem::Failure { path: joined(fpath, gname), err: gerr },
                        ]);
                        assert(items0.first() == WalkItem::Failure {
                            path: joined(fpath, gname),
                            err: gerr,
                        });
                        assert(stack_items(self.stack@) =~= items0.drop_first());
                    }
                    return Some(Err(item));
                },
                RawEntry::Dir { name, entries } => {
                    let ghost gname = name@;
                    let ghost child_entries = entries@;
                    let child = Frame { path: join_path(&f.path, name.as_str()), entries };
                    let ghost gchild = child;
                    let ghost parent_stack_after = popped.push(f);
                    self.stack.push(f);
                    proof {
                        assert(self.stack@.drop_last() =~= popped);
                        Self::lemma_after_top_update(prev_stack, self.stack@, fpath, es);
                    }
                    self.stack.push(child);
                    proof {
                        assert(self.stack@.last() == gchild);
                        assert(self.stack@.drop_last() =~= parent_stack_after);
                        assert(frame_items(gchild) == walk_entries(joined(fpath, gname),
                            child_entries));
                        assert(walk_entry(fpath, es.first()) == walk_entries(
                            joined(fpath, gname),
                            child_entries,
                        ));
                        assert(stack_items(self.stack@) == frame_items(gchild) + stack_items(
                            parent_stack_after,
                        ));
                        assert(stack_items(self.stack@) =~= stack_items(prev_stack));
                        assert(entry_size(es.first()) == 2 + entries_size(child_entries));
                        assert(frame_size(gchild) == 1 + entries_size(child_entries));
                        assert(stack_size(self.stack@) == frame_size(gchild) + stack_size(
                            parent_stack_after,
                        ));
                        assert(stack_size(self.stack@) < stack_size(prev_stack));
                    }
                },
            }
        }
    }

    /// After the top frame of `prev` loses its first entry, the stack owes
    /// the walk of that entry followed by what is owed now, and its measure
    /// shrank by at least that entry's size.
    proof fn lemma_after_top_update(
        prev: Seq<Frame>,
        cur: Seq<Frame>,
        fpath: Seq<char>,
        es: Seq<RawEntry>,
    )
        requires
            prev.len() > 0,
            cur.len() == prev.len(),
            cur.drop_last() == prev.drop_last(),
            prev.last().path@ == fpath,
            prev.last().entries@ == es,
            es.len() > 0,
            cur.last().path@ == fpath,
            cur.last().entries@ == es.drop_first(),
        ensures
            stack_items(prev) == walk_entry(fpath, es.first()) + stack_items(cur),
            stack_items(cur) == walk_entries(fpath, es.drop_first()) + stack_items(
                prev.drop_last(),
            ),
            stack_size(cur) + entry_size(es.first()) == stack_size(prev),
            entry_size(es.first()) >= 1,
    {
        assert(stack_items(prev) == frame_items(prev.last()) + stack_items(prev.drop_last()));
        assert(frame_items(prev.last()) == walk_entry(fpath, es.first()) + walk_entries(
            fpath,
            es.drop_first(),
        ));
        assert(stack_items(cur) == walk_entries(fpath, es.drop_first()) + stack_items(
            cur.drop_last(),
        ));
        assert(stack_items(prev) =~= walk_entry(fpath, es.first()) + stack_items(cur));
        assert(entry_size(es.first()) >= 1) by {
            match es.first() {
                RawEntry::Dir { name, entries } => {},
                _ => {},
            }
        }
    }
}

/// The paths of the regular files one entry makes reachable: a file
/// contributes its own path, a directory the files under it, and a symbolic
/// link or a failed entry contributes nothing.
pub open spec fn file_paths_entry(prefix: Seq<char>, e: RawEntry) -> Seq<Seq<char>>
    decreases e,
{
    match e {
        RawEntry::File { name } => seq![joined(prefix, name@)],
        RawEntry::Dir { name, entries } => file_paths_entries(joined(prefix, name@), entries@),
        _ => Seq::empty(),
    }
}

/// The paths of the regular files reachable through a listing, pre-order.
pub open spec fn file_paths_entries(prefix: Seq<char>, s: Seq<RawEntry>) -> Seq<Seq<char>>
    decreases s,
{
    if s.len() == 0 {
        Seq::empty()
    } else {
        file_paths_entry(prefix, s.first()) + file_paths_entries(prefix, s.drop_first())
    }
}

/// The file paths among a stream's items, in stream order, failures left
/// aside.
pub open spec fn ok_paths(items: Seq<WalkItem>) -> Seq<Seq<char>>
    decreases items.len(),
{
    if items.len() == 0 {
        Seq::empty()
    } else {
        (match items.first() {
            WalkItem::Path { path } => seq![path],
            WalkItem::Failure { .. } => Seq::empty(),
        }) + ok_paths(items.drop_first())
    }
}

proof fn lemma_ok_paths_add(a: Seq<WalkItem>, b: Seq<WalkItem>)
    ensures
        ok_paths(a + b) == ok_paths(a) + ok_paths(b),
    decreases a.len(),
{
    if a.len() == 0 {
        assert(a + b =~= b);
        assert(ok_paths(a) + ok_paths(b) =~= ok_paths(b));
    } else {
        assert((a + b).first() == a.first());
        assert((a + b).drop_first() =~= a.drop_first() + b);
        lemma_ok_paths_add(a.drop_first(), b);
        assert(ok_paths(a + b) =~= ok_paths(a) + ok_paths(b));
    }
}

/// The walk of one entry yields exactly the paths of the regular files it
/// makes reachable, in pre-order, each exactly once; a symbolic link yields
/// none of its targets.
pub proof fn lemma_walk_entry_visits_exactly_files(prefix: Seq<char>, e: RawEntry)
    ensures
        ok_paths(walk_entry(prefix, e)) == file_paths_entry(prefix, e),
    decreases e,
{
    let items = walk_entry(prefix, e);
    match e {
        RawEntry::File { name } => {
            assert(items.drop_first() =~= Seq::<WalkItem>::empty());
            assert(ok_paths(items.drop_first()) == Seq::<Seq<char>>::empty());
            assert(ok_paths(items) =~= seq![joined(prefix, name@)]);
        },
        RawEntry::Dir { name, entries } => {
            lemma_walk_visits_exactly_files(joined(prefix, name@), entries@);
        },
        RawEntry::Symlink { name } => {
        },
        RawEntry::ReadError { path, err } => {
            assert(items.drop_first() =~= Seq::<WalkItem>::empty());
            assert(ok_paths(items.drop_first()) == Seq::<Seq<char>>::empty());
            assert(ok_paths(items) =~= Seq::<Seq<char>>::empty());
        },
        RawEntry::DirOpenError { name, err } => {
            assert(items.drop_first() =~= Seq::<WalkItem>::empty());
            assert(ok_paths(items.drop_first()) == Seq::<Seq<char>>::empty());
            assert(ok_paths(items) =~= Seq::<Seq<char>>::empty());
        },
    }
}

/// The walk of a listing yields exactly the paths of the regular,
/// non-symlinked files reachable through it, pre-order and each exactly
/// once: the stream's file paths and the tree's file paths are the same
/// sequence.
pub proof fn lemma_walk_visits_exactly_files(prefix: Seq<char>, s: Seq<RawEntry>)
    ensures
        ok_paths(walk_entries(prefix, s)) == file_paths_entries(prefix, s),
    decreases s,
{
    if s.len() == 0 {
    } else {
        lemma_walk_entry_visits_exactly_files(prefix, s.first());
        lemma_walk_visits_exactly_files(prefix, s.drop_first());
        lemma_ok_paths_add(walk_entry(prefix, s.first()), walk_entries(prefix, s.drop_first()));
    }
}

/// A file or directory name fit for path building: nonempty and free of
/// separators.
pub open spec fn name_ok(n: Seq<char>) -> bool {
    n.len() > 0 && forall|i: int| 0 <= i < n.len() ==> n[i] != '/'
}

/// The name under which an entry contributes file paths, where it has one:
/// a file or a directory.  A symbolic link or a failed entry contributes no
/// file path.
pub open spec fn entry_path_name(e: RawEntry) -> Option<Seq<char>> {
    match e {
        RawEntry::File { name } => Some(name@),
        RawEntry::Dir { name, entries } => Some(name@),
        _ => None,
    }
}

/// A well-formed entry: its name is fit for path building, and a
/// directory's listing is well-formed in turn.
pub open spec fn entry_wf(e: RawEntry) -> bool
    decreases e,
{
    match e {
        RawEntry::File { name } => name_ok(name@),
        RawEntry::Dir { name, entries } => name_ok(name@) && entries_wf(entries@),
        _ => true,
    }
}

/// A well-formed listing: every entry is well-formed, and no two siblings
/// that contribute file paths share a name — what a real directory
/// guarantees.
pub open spec fn entries_wf(s: Seq<RawEntry>) -> bool
    decreases s,
{
    &&& (forall|i: int| 0 <= i < s.len() ==> entry_wf(#[trigger] s[i]))
    &&& (forall|i: int, j: int|
        0 <= i < j < s.len() && (#[trigger] entry_path_name(s[i])) is Some && (#[trigger] entry_path_name(s[j])) is Some
            ==> entry_path_name(s[i]) != entry_path_name(s[j]))
}

/// The run of characters before the first separator.
pub open spec fn head_segment(p: Seq<char>) -> Seq<char>
    decreases p.len(),
{
    if p.len() == 0 || p.first() == '/' {
        Seq::empty()
    } else {
        seq![p.first()] + head_segment(p.drop_first())
    }
}

proof fn lemma_head_segment_of(n: Seq<char>, rest: Seq<char>)
    requires
        forall|i: int| 0 <= i < n.len() ==> n[i] != '/',
        rest.len() == 0 || rest.first() == '/',
    ensures
        head_segment(n + rest) == n,
    decreases n.len(),
{
    if n.len() == 0 {
        assert(n + rest =~= rest);
        assert(head_segment(rest) =~= n);
    } else {
        assert((n + rest).first() == n.first());
        assert((n + rest).drop_first() =~= n.drop_first() + rest);
        lemma_head_segment_of(n.drop_first(), rest);
        assert(head_segment(n + rest) =~= n);
    }
}

/// Where one path sits relative to the directory at `prefix` that an entry
/// named `n` contributed it from: it continues `prefix` with a separator,
/// and the segment right after that separator is `n`.
pub open spec fn path_under(prefix: Seq<char>, n: Seq<char>, p: Seq<char>) -> bool {
    &&& p.len() > prefix.len()
    &&& p.subrange(0, prefix.len() + 1 as int) == prefix + seq!['/']
    &&& head_segment(p.skip(prefix.len() + 1 as int)) == n
}

proof fn lemma_entry_paths_shape(prefix: Seq<char>, e: RawEntry, n: Seq<char>)
    requires
        entry_wf(e),
        entry_path_name(e) == Some(n),
    ensures
        forall|k: int|
            0 <= k < file_paths_entry(prefix, e).len() ==> path_under(
                prefix,
                n,
                #[trigger] file_paths_entry(prefix, e)[k],
            ),
    decreases e,
{
    match e {
        RawEntry::File { name } => {
            let p = joined(prefix, n);
            assert(file_paths_entry(prefix, e)[0] == p);
            assert(p.subrange(0, prefix.len() + 1 as int) =~= prefix + seq!['/']);
            assert(p.skip(prefix.len() + 1 as int) =~= n);
            lemma_head_segment_of(n, Seq::empty());
            assert(n + Seq::<char>::empty() =~= n);
            assert(path_under(prefix, n, p));
        },
        RawEntry::Dir { name, entries } => {
            let q = joined(prefix, n);
            lemma_entries_paths_prefix(q, entries@);
            assert forall|k: int| 0 <= k < file_paths_entry(prefix, e).len() implies path_under(
                prefix,
                n,
                #[trigger] file_paths_entry(prefix, e)[k],
            ) by {
                let p = file_paths_entry(prefix, e)[k];
                assert(p == file_paths_entries(q, entries@)[k]);
                assert(p.len() > q.len());
                assert(p.subrange(0, q.len() + 1 as int) == q + seq!['/']);
                assert forall|idx: int| 0 <= idx < q.len() + 1 as int implies p[idx] == (q
                    + seq!['/'])[idx] by {
                    assert((p.subrange(0, q.len() + 1 as int))[idx] == p[idx]);
                }
                assert(p.subrange(0, prefix.len() + 1 as int) =~= prefix + seq!['/']);
                let rest = p.skip(q.len() + 1 as int);
                let tail = seq!['/'] + rest;
                assert(p.skip(prefix.len() + 1 as int) =~= n + tail);
                lemma_head_segment_of(n, tail);
            }
        },
        _ => {},
    }
}

proof fn lemma_entries_paths_prefix(q: Seq<char>, s: Seq<RawEntry>)
    requires
        entries_wf(s),
    ensures
        forall|k: int|
            0 <= k < file_paths_entries(q, s).len() ==> ((#[trigger] file_paths_entries(q, s)[k]).len()
                > q.len() && file_paths_entries(q, s)[k].subrange(0, q.len() + 1 as int) == q
                + seq!['/']),
    decreases s,
{
    if s.len() == 0 {
    } else {
        let a = file_paths_entry(q, s.first());
        let b = file_paths_entries(q, s.drop_first());
        assert(entry_wf(s[0]));
        match s.first() {
            RawEntry::File { name } => {
                lemma_entry_paths_shape(q, s.first(), name@);
            },
            RawEntry::Dir { name, entries } => {
                lemma_entry_paths_shape(q, s.first(), name@);
            },
            _ => {},
        }
        assert(entries_wf(s.drop_first())) by {
            assert(forall|i: int|
                0 <= i < s.drop_first().len() ==> #[trigger] s.drop_first()[i] == s[i + 1]);
        }
        lemma_entries_paths_prefix(q, s.drop_first());
        assert forall|k: int| 0 <= k < file_paths_entries(q, s).len() implies ((
        #[trigger] file_paths_entries(q, s)[k]).len() > q.len() && file_paths_entries(q, s)[
            k
        ].subrange(0, q.len() + 1 as int) == q + seq!['/']) by {
            if k < a.len() {
                assert(file_paths_entries(q, s)[k] == a[k]);
                assert(path_under(q, entry_path_name(s.first())->0, a[k]));
            } else {
                assert(file_paths_entries(q, s)[k] == b[k - a.len()]);
            }
        }
    }
}

proof fn lemma_entries_paths_head(q: Seq<char>, s: Seq<RawEntry>)
    requires
        entries_wf(s),
    ensures
        forall|k: int|
            0 <= k < file_paths_entries(q, s).len() ==> exists|i: int|
                0 <= i < s.len() && (#[trigger] entry_path_name(s[i])) is Some && head_segment(
                    (#[trigger] file_paths_entries(q, s)[k]).skip(q.len() + 1 as int),
                ) == entry_path_name(s[i])->0,
    decreases s,
{
    if s.len() == 0 {
    } else {
        let a = file_paths_entry(q, s.first());
        let b = file_paths_entries(q, s.drop_first());
        assert(entry_wf(s[0]));
        assert(entries_wf(s.drop_first())) by {
            assert(forall|i: int|
                0 <= i < s.drop_first().len() ==> #[trigger] s.drop_first()[i] == s[i + 1]);
        }
        lemma_entries_paths_head(q, s.drop_first());
        assert forall|k: int| 0 <= k < file_paths_entries(q, s).len() implies exists|i: int|
            0 <= i < s.len() && (#[trigger] entry_path_name(s[i])) is Some && head_segment(
                (#[trigger] file_paths_entries(q, s)[k]).skip(q.len() + 1 as int),
            ) == entry_path_name(s[i])->0 by {
            if k < a.len() {
                let n0 = entry_path_name(s.first())->0;
                lemma_entry_paths_shape(q, s.first(), n0);
                assert(file_paths_entries(q, s)[k] == a[k]);
                assert(path_under(q, n0, a[k]));
                assert(0 <= 0 < s.len() && (entry_path_name(s[0])) is Some && head_segment(
                    (file_paths_entries(q, s)[k]).skip(q.len() + 1 as int),
                ) == entry_path_name(s[0])->0);
            } else {
                assert(file_paths_entries(q, s)[k] == b[k - a.len()]);
                let i0 = choose|i: int|
                    0 <= i < s.drop_first().len() && (#[trigger] entry_path_name(
                        s.drop_first()[i],
                    )) is Some && head_segment(
                        b[k - a.len()].skip(q.len() + 1 as int),
                    ) == entry_path_name(s.drop_first()[i])->0;
                assert(s.drop_first()[i0] == s[i0 + 1]);
                assert(0 <= i0 + 1 < s.len() && (entry_path_name(s[i0 + 1])) is Some
                    && head_segment(
                    (file_paths_entries(q, s)[k]).skip(q.len() + 1 as int),
                ) == entry_path_name(s[i0 + 1])->0);
            }
        }
    }
}

/// Under well-formed listings the walked file paths are pairwise distinct:
/// together with [`lemma_walk_visits_exactly_files`], the walk visits each
/// reachable regular file exactly once.
pub proof fn lemma_file_paths_distinct(q: Seq<char>, s: Seq<RawEntry>)
    requires
        entries_wf(s),
    ensures
        file_paths_entries(q, s).no_duplicates(),
    decreases s,
{
    if s.len() == 0 {
    } else {
        let a = file_paths_entry(q, s.first());
        let b = file_paths_entries(q, s.drop_first());
        assert(entry_wf(s[0]));
        // the head entry's own paths are distinct
        match s.first() {
            RawEntry::File { name } => {
                assert(a.no_duplicates());
            },
            RawEntry::Dir { name, entries } => {
                lemma_file_paths_distinct(joined(q, name@), entries@);
            },
            _ => {
                assert(a.no_duplicates());
            },
        }
        // the tail's paths are distinct
        assert(entries_wf(s.drop_first())) by {
            assert(forall|i: int|
                0 <= i < s.drop_first().len() ==> #[trigger] s.drop_first()[i] == s[i + 1]);
        }
        lemma_file_paths_distinct(q, s.drop_first());
        // the head's and the tail's paths cannot meet: the segment after
        // the shared prefix names the sibling each came from
        assert forall|i: int, j: int| 0 <= i < a.len() && 0 <= j < b.len() implies a[i] != b[
            j
        ] by {
            let n0 = entry_path_name(s.first())->0;
            lemma_entry_paths_shape(q, s.first(), n0);
            assert(path_under(q, n0, a[i]));
            lemma_entries_paths_head(q, s.drop_first());
            let i0 = choose|i2: int|
                0 <= i2 < s.drop_first().len() && (#[trigger] entry_path_name(
                    s.drop_first()[i2],
                )) is Some && head_segment(b[j].skip(q.len() + 1 as int)) == entry_path_name(
                    s.drop_first()[i2],
                )->0;
            assert(s.drop_first()[i0] == s[i0 + 1]);
            assert(entry_path_name(s[0]) != entry_path_name(s[i0 + 1]));
            assert(head_segment(a[i].skip(q.len() + 1 as int)) != head_segment(b[j].skip(q.len() + 1 as int)));
        }
        vstd::seq_lib::lemma_no_dup_in_concat(a, b);
    }
}

/// For every well-formed tree, the walk visits exactly the set of
/// non-symlinked regular files reachable through the listing, each exactly
/// once: its file paths are the pre-order paths of those files, and they
/// are pairwise distinct.  Symbolic links contribute nothing, so a
/// symlinked target is never visited.
pub proof fn lemma_walk_visits_each_file_once(prefix: Seq<char>, s: Seq<RawEntry>)
    requires
        entries_wf(s),
    ensures
        ok_paths(walk_entries(prefix, s)) == file_paths_entries(prefix, s),
        ok_paths(walk_entries(prefix, s)).no_duplicates(),
{
    lemma_walk_visits_exactly_files(prefix, s);
    lemma_file_paths_distinct(prefix, s);
}

/// A walk splits around any position of the listing: what comes before and
/// after entry `i` is contributed unchanged, whatever that entry is.
pub proof fn lemma_walk_split(prefix: Seq<char>, s: Seq<RawEntry>, i: int)
    requires
        0 <= i < s.len(),
    ensures
        walk_entries(prefix, s) == walk_entries(prefix, s.take(i)) + walk_entry(prefix, s[i])
            + walk_entries(prefix, s.skip(i + 1)),
    decreases i,
{
    if i == 0 {
        assert(s.take(0) =~= Seq::<RawEntry>::empty());
        assert(s.skip(1) =~= s.drop_first());
        assert(walk_entries(prefix, s) =~= walk_entries(prefix, s.take(0)) + walk_entry(
            prefix,
            s[0],
        ) + walk_entries(prefix, s.skip(1)));
    } else {
        let t = s.drop_first();
        lemma_walk_split(prefix, t, i - 1);
        assert(s.take(i).first() == s.first());
        assert(s.take(i).drop_first() =~= t.take(i - 1));
        assert(t[i - 1] == s[i]);
        assert(t.skip(i) =~= s.skip(i + 1));
        assert(walk_entries(prefix, s) =~= walk_entries(prefix, s.take(i)) + walk_entry(
            prefix,
            s[i],
        ) + walk_entries(prefix, s.skip(i + 1)));
    }
}

/// A failure on one entry does not suppress its siblings: replacing entry
/// `i` of a listing (for instance by an unreadable one) replaces only that
/// entry's own items, and every other entry's items, before and after, are
/// produced unchanged.
pub proof fn lemma_failure_does_not_suppress_siblings(
    prefix: Seq<char>,
    s: Seq<RawEntry>,
    i: int,
    e: RawEntry,
)
    requires
        0 <= i < s.len(),
    ensures
        walk_entries(prefix, s.update(i, e)) == walk_entries(prefix, s.take(i)) + walk_entry(
            prefix,
            e,
        ) + walk_entries(prefix, s.skip(i + 1)),
{
    let u = s.update(i, e);
    lemma_walk_split(prefix, u, i);
    assert(u.take(i) =~= s.take(i));
    assert(u.skip(i + 1) =~= s.skip(i + 1));
}

/// An empty listing owes nothing: the walk of an empty directory yields no
/// items at all.
pub proof fn lemma_empty_listing_walks_empty(prefix: Seq<char>)
    ensures
        walk_entries(prefix, Seq::<RawEntry>::empty()) == Seq::<WalkItem>::empty(),
{
}

impl Provider for DirIterator {
    type Item = Result<String, DirIteratorError>;

    type Model = WalkItem;

    open spec fn model_of(item: &Result<String, DirIteratorError>) -> WalkItem {
        item_model(item)
    }

    open spec fn remaining(&self) -> Seq<WalkItem> {
        DirIterator::remaining(self)
    }

    fn pull(&mut self) -> (r: Option<Result<String, DirIteratorError>>) {
        self.next()
    }
}

} // verus!
