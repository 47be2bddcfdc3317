//! The traversal engine: an explicit-stack, lazily resumable walker that
//! consumes the compiled segments against a filesystem and produces matches
//! and in-band errors. The engine itself never touches a filesystem: it asks
//! the caller, one question at a time, whether a path names a file or a
//! directory (`NeedChild`) or for the entries of a directory (`NeedDir`), and
//! the caller hands the answer back. Every step is specified exactly, so a
//! run is a function of the compiled search and of the answers alone.

use vstd::prelude::*;

use crate::matcher::regex_is_match;
use crate::pattern::{seg_views, MyGlobSearch, SegView, Segment};
use crate::strutil::{lower_of, str_eq, str_views, to_lowercase};

verus! {

/// Engine output: a filesystem entry that satisfied all segments, or a
/// filesystem access failure encountered during traversal. Directory matches
/// are deliberately not in scope: the engine yields files only.
pub enum MyGlobMatch {
    File(String),
    Error(String),
}

/// The view of an emitted match.
pub enum MatchView {
    File(Seq<char>),
    Error(Seq<char>),
}

impl View for MyGlobMatch {
    type V = MatchView;

    open spec fn view(&self) -> MatchView {
        match self {
            MyGlobMatch::File(p) => MatchView::File(p@),
            MyGlobMatch::Error(e) => MatchView::Error(e@),
        }
    }
}

/// One directory entry as the caller reports it: the base name and what kind
/// of entry it is (a symlink or special file may be neither file nor dir).
pub struct EntryInfo {
    pub name: String,
    pub is_file: bool,
    pub is_dir: bool,
}

/// The view of a reported directory entry.
pub struct EntryInfoV {
    pub name: Seq<char>,
    pub is_file: bool,
    pub is_dir: bool,
}

impl View for EntryInfo {
    type V = EntryInfoV;

    open spec fn view(&self) -> EntryInfoV {
        EntryInfoV { name: self.name@, is_file: self.is_file, is_dir: self.is_dir }
    }
}

/// One item of a directory listing: an entry, or a per-entry read failure
/// (its message), which must not halt the rest of the enumeration.
pub enum DirItem {
    Entry(EntryInfo),
    Error(String),
}

/// The view of a listing item.
pub enum DirItemV {
    Entry(EntryInfoV),
    Error(Seq<char>),
}

impl View for DirItem {
    type V = DirItemV;

    open spec fn view(&self) -> DirItemV {
        match self {
            DirItem::Entry(e) => DirItemV::Entry(e@),
            DirItem::Error(s) => DirItemV::Error(s@),
        }
    }
}

pub open spec fn dir_item_views(v: Seq<DirItem>) -> Seq<DirItemV> {
    v.map_values(|d: DirItem| d@)
}

/// The view of a listing handed to `provide_dir`: the items, or the message
/// of a whole-directory read failure.
pub open spec fn listing_view(l: Result<&Vec<DirItem>, &str>) -> Result<Seq<DirItemV>, Seq<char>> {
    match l {
        Ok(v) => Ok(dir_item_views(v@)),
        Err(e) => Err(e@),
    }
}

/// Pending work: a folder still to be examined against segment `idx` (the
/// flag says it was queued while expanding recursively), a resolved match
/// awaiting emission, or an error awaiting emission.
enum Pending {
    Folder(String, usize, bool),
    Found(String),
    Failed(String),
}

/// The view of a pending work item.
pub enum PendView {
    Folder(Seq<char>, int, bool),
    Found(Seq<char>),
    Failed(Seq<char>),
}

impl View for Pending {
    type V = PendView;

    closed spec fn view(&self) -> PendView {
        match self {
            Pending::Folder(p, idx, rec) => PendView::Folder(p@, *idx as int, *rec),
            Pending::Found(p) => PendView::Found(p@),
            Pending::Failed(e) => PendView::Failed(e@),
        }
    }
}

spec fn pend_views(v: Seq<Pending>) -> Seq<PendView> {
    v.map_values(|p: Pending| p@)
}

/// The question the engine has asked and not yet had answered, with what it
/// needs to finish that step.
enum Awaiting {
    Idle,
    RootFile(String),
    ConstChild { path: String, child: String, idx: usize, rec: bool },
    ConstDir { path: String, idx: usize },
    FilterDir { path: String, idx: usize, rec: bool },
}

/// The view of the engine's question state.
pub enum AwaitView {
    Idle,
    RootFile(Seq<char>),
    ConstChild { path: Seq<char>, child: Seq<char>, idx: int, rec: bool },
    ConstDir { path: Seq<char>, idx: int },
    FilterDir { path: Seq<char>, idx: int, rec: bool },
}

impl View for Awaiting {
    type V = AwaitView;

    closed spec fn view(&self) -> AwaitView {
        match self {
            Awaiting::Idle => AwaitView::Idle,
            Awaiting::RootFile(p) => AwaitView::RootFile(p@),
            Awaiting::ConstChild { path, child, idx, rec } => AwaitView::ConstChild {
                path: path@,
                child: child@,
                idx: *idx as int,
                rec: *rec,
            },
            Awaiting::ConstDir { path, idx } => AwaitView::ConstDir {
                path: path@,
                idx: *idx as int,
            },
            Awaiting::FilterDir { path, idx, rec } => AwaitView::FilterDir {
                path: path@,
                idx: *idx as int,
                rec: *rec,
            },
        }
    }
}

/// What the engine asks of its caller next: answer a question, take an
/// emitted match, or stop.
pub enum Action {
    NeedChild(String),
    NeedDir(String),
    Emit(MyGlobMatch),
    Done,
}

/// The view of an engine action.
pub enum ActView {
    NeedChild(Seq<char>),
    NeedDir(Seq<char>),
    Emit(MatchView),
    Done,
}

impl View for Action {
    type V = ActView;

    open spec fn view(&self) -> ActView {
        match self {
            Action::NeedChild(p) => ActView::NeedChild(p@),
            Action::NeedDir(p) => ActView::NeedDir(p@),
            Action::Emit(m) => ActView::Emit(m@),
            Action::Done => ActView::Done,
        }
    }
}

/// One traversal in progress: the work stack and the question state. All
/// state lives here; two traversals over the same search are independent.
pub struct Traversal {
    stack: Vec<Pending>,
    awaiting: Awaiting,
}

/// The view of a traversal.
#[verifier::ext_equal]
pub struct TravView {
    pub stack: Seq<PendView>,
    pub awaiting: AwaitView,
}

impl View for Traversal {
    type V = TravView;

    closed spec fn view(&self) -> TravView {
        TravView { stack: pend_views(self.stack@), awaiting: self.awaiting@ }
    }
}

/// Joining a directory path and an entry name.
pub open spec fn spec_join(path: Seq<char>, name: Seq<char>) -> Seq<char> {
    path + seq!['/'] + name
}

/// The message reported when a directory cannot be read at all.
pub open spec fn read_err_v(path: Seq<char>, e: Seq<char>) -> Seq<char> {
    "Error reading dir "@ + path + ": "@ + e
}

/// The message reported when one entry of a directory cannot be read.
pub open spec fn enum_err_v(path: Seq<char>, e: Seq<char>) -> Seq<char> {
    "Error enumerating dir "@ + path + ": "@ + e
}

/// True iff the lowercase form of `name` is on the ignore list.
pub open spec fn ignored(name: Seq<char>, ignore: Seq<Seq<char>>) -> bool {
    exists|i: int| 0 <= i < ignore.len() && ignore[i] == lower_of(name)
}

/// The name a constant segment requires, or the pattern of a filter segment.
pub open spec fn const_name(sv: SegView) -> Seq<char> {
    match sv {
        SegView::Constant(n) => n,
        _ => Seq::empty(),
    }
}

pub open spec fn filter_pat(sv: SegView) -> Seq<char> {
    match sv {
        SegView::Filter(p) => p,
        _ => Seq::empty(),
    }
}

/// The second component of the drain measure: how many segments the top
/// folder item still has before it.
pub open spec fn top_measure(stack: Seq<PendView>, segs: Seq<SegView>) -> int {
    if stack.len() == 0 {
        0
    } else {
        match stack.last() {
            PendView::Folder(_, idx, _) => if 0 <= idx <= segs.len() {
                segs.len() - idx + 1
            } else {
                0
            },
            _ => 0,
        }
    }
}

/// What one call of `next_action` does: re-ask an unanswered question, or pop
/// work items until one requires emitting a match, asking a question, or
/// stopping. A recurse segment hands off to the following segment at the same
/// location in recursing mode; a folder item whose index equals the segment
/// count carries no further work and is dropped.
pub open spec fn spec_next(tv: TravView, segs: Seq<SegView>) -> (TravView, ActView)
    decreases tv.stack.len(), top_measure(tv.stack, segs),
{
    match tv.awaiting {
        AwaitView::RootFile(p) => (tv, ActView::NeedChild(p)),
        AwaitView::ConstChild { child, .. } => (tv, ActView::NeedChild(child)),
        AwaitView::ConstDir { path, .. } => (tv, ActView::NeedDir(path)),
        AwaitView::FilterDir { path, .. } => (tv, ActView::NeedDir(path)),
        AwaitView::Idle => {
            if tv.stack.len() == 0 {
                (tv, ActView::Done)
            } else {
                let top = tv.stack.last();
                let rest = tv.stack.drop_last();
                match top {
                    PendView::Failed(e) => (
                        TravView { stack: rest, awaiting: AwaitView::Idle },
                        ActView::Emit(MatchView::Error(e)),
                    ),
                    PendView::Found(p) => (
                        TravView { stack: rest, awaiting: AwaitView::Idle },
                        ActView::Emit(MatchView::File(p)),
                    ),
                    PendView::Folder(path, idx, rec) => {
                        if idx < 0 || idx >= segs.len() {
                            spec_next(TravView { stack: rest, awaiting: AwaitView::Idle }, segs)
                        } else {
                            match segs[idx] {
                                SegView::Recurse => spec_next(
                                    TravView {
                                        stack: rest.push(PendView::Folder(path, idx + 1, true)),
                                        awaiting: AwaitView::Idle,
                                    },
                                    segs,
                                ),
                                SegView::Constant(name) => (
                                    TravView {
                                        stack: rest,
                                        awaiting: AwaitView::ConstChild {
                                            path: path,
                                            child: spec_join(path, name),
                                            idx: idx,
                                            rec: rec,
                                        },
                                    },
                                    ActView::NeedChild(spec_join(path, name)),
                                ),
                                SegView::Filter(_) => (
                                    TravView {
                                        stack: rest,
                                        awaiting: AwaitView::FilterDir {
                                            path: path,
                                            idx: idx,
                                            rec: rec,
                                        },
                                    },
                                    ActView::NeedDir(path),
                                ),
                            }
                        }
                    },
                }
            }
        },
    }
}

/// What answering a `NeedChild` question does. For the root probe of a
/// pattern with no segments, an existing file becomes the single match. For a
/// constant segment, the child becomes a match when it is the last segment
/// and names a file, or new folder work when it is not the last segment and
/// names a directory; when the folder was reached in recursing mode the
/// engine then needs the directory listing to keep descending.
pub open spec fn spec_provide_child(
    tv: TravView,
    segs: Seq<SegView>,
    is_file: bool,
    is_dir: bool,
) -> TravView {
    match tv.awaiting {
        AwaitView::RootFile(p) => TravView {
            stack: if is_file {
                tv.stack.push(PendView::Found(p))
            } else {
                tv.stack
            },
            awaiting: AwaitView::Idle,
        },
        AwaitView::ConstChild { path, child, idx, rec } => {
            let stack1 = if idx == segs.len() - 1 {
                if is_file {
                    tv.stack.push(PendView::Found(child))
                } else {
                    tv.stack
                }
            } else {
                if is_dir {
                    tv.stack.push(PendView::Folder(child, idx + 1, false))
                } else {
                    tv.stack
                }
            };
            TravView {
                stack: stack1,
                awaiting: if rec {
                    AwaitView::ConstDir { path, idx }
                } else {
                    AwaitView::Idle
                },
            }
        },
        _ => tv,
    }
}

/// The work items queued for the items of a listing read while recursively
/// expanding a constant segment, from position `t` on: every subdirectory not
/// on the ignore list is queued for the same segment one level deeper, and
/// every per-entry failure becomes one error item.
pub open spec fn const_pushes_from(
    path: Seq<char>,
    idx: int,
    ignore: Seq<Seq<char>>,
    items: Seq<DirItemV>,
    t: int,
) -> Seq<PendView>
    decreases items.len() - t,
{
    if t < 0 || t >= items.len() {
        Seq::empty()
    } else {
        let head: Seq<PendView> = match items[t] {
            DirItemV::Error(e) => seq![PendView::Failed(enum_err_v(path, e))],
            DirItemV::Entry(en) => if en.is_dir && !ignored(en.name, ignore) {
                seq![PendView::Folder(spec_join(path, en.name), idx, true)]
            } else {
                Seq::empty()
            },
        };
        head + const_pushes_from(path, idx, ignore, items, t + 1)
    }
}

/// The work items queued for the items of a listing read for a filter
/// segment, from position `t` on: a file matching the pattern at the last
/// segment becomes a match; a non-ignored directory matching at an earlier
/// segment becomes folder work for the next segment; per-entry failures
/// become error items.
pub open spec fn filter_pushes_from(
    path: Seq<char>,
    idx: int,
    nsegs: int,
    pat: Seq<char>,
    ignore: Seq<Seq<char>>,
    items: Seq<DirItemV>,
    t: int,
) -> Seq<PendView>
    decreases items.len() - t,
{
    if t < 0 || t >= items.len() {
        Seq::empty()
    } else {
        let head: Seq<PendView> = match items[t] {
            DirItemV::Error(e) => seq![PendView::Failed(enum_err_v(path, e))],
            DirItemV::Entry(en) => if en.is_file {
                if idx == nsegs - 1 && regex_is_match(pat, en.name) {
                    seq![PendView::Found(spec_join(path, en.name))]
                } else {
                    Seq::empty()
                }
            } else if en.is_dir && !ignored(en.name, ignore) && idx < nsegs - 1 && regex_is_match(
                pat,
                en.name,
            ) {
                seq![PendView::Folder(spec_join(path, en.name), idx + 1, false)]
            } else {
                Seq::empty()
            },
        };
        head + filter_pushes_from(path, idx, nsegs, pat, ignore, items, t + 1)
    }
}

/// The joined paths of the non-ignored subdirectories of a listing, from
/// position `t` on, in listing order: these are collected during a filter
/// enumeration and queued for recursive expansion afterwards.
pub open spec fn dirs_from(
    path: Seq<char>,
    ignore: Seq<Seq<char>>,
    items: Seq<DirItemV>,
    t: int,
) -> Seq<Seq<char>>
    decreases items.len() - t,
{
    if t < 0 || t >= items.len() {
        Seq::empty()
    } else {
        let head: Seq<Seq<char>> = match items[t] {
            DirItemV::Entry(en) => if !en.is_file && en.is_dir && !ignored(en.name, ignore) {
                seq![spec_join(path, en.name)]
            } else {
                Seq::empty()
            },
            DirItemV::Error(_) => Seq::empty(),
        };
        head + dirs_from(path, ignore, items, t + 1)
    }
}

/// The folder items queued to reapply segment `idx` one level deeper in each
/// collected subdirectory, from position `t` on.
pub open spec fn rec_pushes_from(dirs: Seq<Seq<char>>, idx: int, t: int) -> Seq<PendView>
    decreases dirs.len() - t,
{
    if t < 0 || t >= dirs.len() {
        Seq::empty()
    } else {
        seq![PendView::Folder(dirs[t], idx, true)] + rec_pushes_from(dirs, idx, t + 1)
    }
}

/// Everything queued when a listing answers a recursive constant expansion:
/// one error item for an unreadable directory, else the per-item work.
pub open spec fn const_dir_pushes(
    path: Seq<char>,
    idx: int,
    ignore: Seq<Seq<char>>,
    listing: Result<Seq<DirItemV>, Seq<char>>,
) -> Seq<PendView> {
    match listing {
        Err(e) => seq![PendView::Failed(read_err_v(path, e))],
        Ok(items) => const_pushes_from(path, idx, ignore, items, 0),
    }
}

/// Everything queued when a listing answers a filter segment: one error item
/// for an unreadable directory, else the per-item work followed, in recursing
/// mode, by the collected subdirectories queued for the same segment.
pub open spec fn filter_dir_pushes(
    path: Seq<char>,
    idx: int,
    nsegs: int,
    pat: Seq<char>,
    rec: bool,
    ignore: Seq<Seq<char>>,
    listing: Result<Seq<DirItemV>, Seq<char>>,
) -> Seq<PendView> {
    match listing {
        Err(e) => seq![PendView::Failed(read_err_v(path, e))],
        Ok(items) => filter_pushes_from(path, idx, nsegs, pat, ignore, items, 0) + (if rec {
            rec_pushes_from(dirs_from(path, ignore, items, 0), idx, 0)
        } else {
            Seq::empty()
        }),
    }
}

/// What answering a `NeedDir` question does.
pub open spec fn spec_provide_dir(
    tv: TravView,
    segs: Seq<SegView>,
    ignore: Seq<Seq<char>>,
    listing: Result<Seq<DirItemV>, Seq<char>>,
) -> TravView {
    match tv.awaiting {
        AwaitView::ConstDir { path, idx } => TravView {
            stack: tv.stack + const_dir_pushes(path, idx, ignore, listing),
            awaiting: AwaitView::Idle,
        },
        AwaitView::FilterDir { path, idx, rec } => TravView {
            stack: tv.stack + filter_dir_pushes(
                path,
                idx,
                segs.len() as int,
                filter_pat(segs[idx]),
                rec,
                ignore,
                listing,
            ),
            awaiting: AwaitView::Idle,
        },
        _ => tv,
    }
}

/// The initial state of a traversal: with no segments the single literal root
/// is probed as a file; otherwise the root is queued against the first
/// segment.
pub open spec fn spec_start(root: Seq<char>, segs: Seq<SegView>) -> TravView {
    if segs.len() == 0 {
        TravView { stack: Seq::empty(), awaiting: AwaitView::RootFile(root) }
    } else {
        TravView { stack: seq![PendView::Folder(root, 0, false)], awaiting: AwaitView::Idle }
    }
}

/// Joins a directory path and an entry name.
pub fn join_path(path: &str, name: &str) -> (r: String)
    ensures
        r@ == spec_join(path@, name@),
{
    let mut s = path.to_owned();
    s.append("/");
    s.append(name);
    proof {
        reveal_strlit("/");
        assert(s@ =~= spec_join(path@, name@));
    }
    s
}

fn read_err(path: &str, e: &str) -> (r: String)
    ensures
        r@ == read_err_v(path@, e@),
{
    let mut s = String::from_str("Error reading dir ");
    s.append(path);
    s.append(": ");
    s.append(e);
    proof {
        assert(s@ =~= read_err_v(path@, e@));
    }
    s
}

fn enum_err(path: &str, e: &str) -> (r: String)
    ensures
        r@ == enum_err_v(path@, e@),
{
    let mut s = String::from_str("Error enumerating dir ");
    s.append(path);
    s.append(": ");
    s.append(e);
    proof {
        assert(s@ =~= enum_err_v(path@, e@));
    }
    s
}

/// Case-insensitive membership on the ignore list.
fn is_ignored(name: &str, ignore: &Vec<String>) -> (b: bool)
    ensures
        b == ignored(name@, str_views(ignore@)),
{
    let low = to_lowercase(name);
    let n = ignore.len();
    let mut i: usize = 0;
    while i < n
        invariant
            n == ignore@.len(),
            i <= n,
            low@ == lower_of(name@),
            forall|k: int| 0 <= k < i ==> #[trigger] ignore@[k]@ != lower_of(name@),
        decreases n - i,
    {
        if ignore[i].eq(&low) {
            assert(str_views(ignore@)[i as int] == lower_of(name@));
            return true;
        }
        i += 1;
    }
    proof {
        assert forall|k: int| 0 <= k < n implies #[trigger] str_views(ignore@)[k] != lower_of(
            name@,
        ) by {
            assert(str_views(ignore@)[k] == ignore@[k]@);
        }
    }
    false
}

impl MyGlobSearch {
    /// Starts an independent traversal of this search.
    pub fn explore_iter(&self) -> (t: Traversal)
        ensures
            t@ == spec_start(self.root_view(), self.segs_view()),
            t.wf(self),
    {
        proof {
            self.lemma_views();
        }
        if self.segments.len() == 0 {
            let t = Traversal { stack: Vec::new(), awaiting: Awaiting::RootFile(self.root.clone()) };
            proof {
                assert(t@.stack =~= Seq::<PendView>::empty());
                assert(t@ =~= spec_start(self.root_view(), self.segs_view()));
            }
            t
        } else {
            let mut stack: Vec<Pending> = Vec::new();
            stack.push(Pending::Folder(self.root.clone(), 0, false));
            let t = Traversal { stack, awaiting: Awaiting::Idle };
            proof {
                assert(t@.stack =~= seq![PendView::Folder(self.root_view(), 0, false)]);
                assert(t@ =~= spec_start(self.root_view(), self.segs_view()));
            }
            t
        }
    }
}

impl Traversal {
    /// The question state is consistent with the search the traversal was
    /// built from: a pending question points at a real segment of the right
    /// kind.
    pub open spec fn wf(&self, search: &MyGlobSearch) -> bool {
        match self@.awaiting {
            AwaitView::Idle => true,
            AwaitView::RootFile(_) => true,
            AwaitView::ConstChild { idx, .. } => 0 <= idx < search.segs_view().len(),
            AwaitView::ConstDir { idx, .. } => 0 <= idx < search.segs_view().len(),
            AwaitView::FilterDir { idx, .. } => 0 <= idx < search.segs_view().len()
                && search.segs_view()[idx] is Filter,
        }
    }

    /// Resumes the traversal: asks again an unanswered question, or pops work
    /// items until a match is emitted, a new question is asked, or the stack
    /// is exhausted — exactly as `spec_next` states.
    pub fn next_action(&mut self, search: &MyGlobSearch) -> (a: Action)
        requires
            old(self).wf(search),
        ensures
            final(self).wf(search),
            (final(self)@, a@) == spec_next(old(self)@, search.segs_view()),
    {
        match &self.awaiting {
            Awaiting::RootFile(p) => {
                return Action::NeedChild(p.clone());
            },
            Awaiting::ConstChild { child, .. } => {
                return Action::NeedChild(child.clone());
            },
            Awaiting::ConstDir { path, .. } => {
                return Action::NeedDir(path.clone());
            },
            Awaiting::FilterDir { path, .. } => {
                return Action::NeedDir(path.clone());
            },
            Awaiting::Idle => {},
        }
        let ghost tv0 = self@;
        let ghost segs = search.segs_view();
        proof {
            search.lemma_views();
            assert(segs.len() == search.segments@.len());
        }
        loop
            invariant
                self@.awaiting is Idle,
                tv0 == old(self)@,
                search.segs_view() == segs,
                segs.len() == search.segments@.len(),
                spec_next(self@, segs) == spec_next(tv0, segs),
            decreases self@.stack.len(), top_measure(self@.stack, segs),
        {
            proof {
                search.lemma_views();
            }
            let ghost tv_pre = self@;
            match self.stack.pop() {
                None => {
                    proof {
                        assert(tv_pre.stack.len() == 0);
                        assert(self@ == tv_pre);
                        assert(spec_next(tv_pre, segs) == (tv_pre, ActView::Done));
                    }
                    return Action::Done;
                },
                Some(item) => {
                    proof {
                        assert(tv_pre.stack.len() > 0);
                        assert(pend_views(self.stack@) =~= tv_pre.stack.drop_last());
                        assert(tv_pre.stack.last() == item@);
                    }
                    let ghost rest = tv_pre.stack.drop_last();
                    match item {
                        Pending::Failed(e) => {
                            proof {
                                assert(spec_next(tv_pre, segs) == (
                                    TravView { stack: rest, awaiting: AwaitView::Idle },
                                    ActView::Emit(MatchView::Error(e@)),
                                ));
                                assert(self@ =~= TravView { stack: rest, awaiting: AwaitView::Idle });
                            }
                            return Action::Emit(MyGlobMatch::Error(e));
                        },
                        Pending::Found(p) => {
                            proof {
                                assert(spec_next(tv_pre, segs) == (
                                    TravView { stack: rest, awaiting: AwaitView::Idle },
                                    ActView::Emit(MatchView::File(p@)),
                                ));
                                assert(self@ =~= TravView { stack: rest, awaiting: AwaitView::Idle });
                            }
                            return Action::Emit(MyGlobMatch::File(p));
                        },
                        Pending::Folder(path, idx, rec) => {
                            let ghost pv = path@;
                            if idx >= search.segments.len() {
                                // No segment left for this item: it carries no work.
                                proof {
                                    assert(self@ =~= TravView {
                                        stack: rest,
                                        awaiting: AwaitView::Idle,
                                    });
                                    assert(spec_next(tv_pre, segs) == spec_next(self@, segs));
                                }
                            } else {
                                proof {
                                    assert(segs[idx as int] == search.segments@[idx as int]@);
                                }
                                match &search.segments[idx] {
                                    Segment::Recurse => {
                                        self.stack.push(Pending::Folder(path, idx + 1, true));
                                        proof {
                                            assert(pend_views(self.stack@) =~= rest.push(
                                                PendView::Folder(pv, idx as int + 1, true),
                                            ));
                                            assert(self@ =~= TravView {
                                                stack: rest.push(
                                                    PendView::Folder(pv, idx as int + 1, true),
                                                ),
                                                awaiting: AwaitView::Idle,
                                            });
                                            assert(spec_next(tv_pre, segs) == spec_next(
                                                self@,
                                                segs,
                                            ));
                                        }
                                    },
                                    Segment::Constant(name) => {
                                        let ghost nv = name@;
                                        let child = join_path(path.as_str(), name.as_str());
                                        let out = child.clone();
                                        self.awaiting = Awaiting::ConstChild {
                                            path,
                                            child,
                                            idx,
                                            rec,
                                        };
                                        proof {
                                            assert(self@ =~= TravView {
                                                stack: rest,
                                                awaiting: AwaitView::ConstChild {
                                                    path: pv,
                                                    child: spec_join(pv, nv),
                                                    idx: idx as int,
                                                    rec: rec,
                                                },
                                            });
                                            assert(spec_next(tv_pre, segs) == (
                                                self@,
                                                ActView::NeedChild(spec_join(pv, nv)),
                                            ));
                                        }
                                        return Action::NeedChild(out);
                                    },
                                    Segment::Filter(_) => {
                                        let out = path.clone();
                                        self.awaiting = Awaiting::FilterDir { path, idx, rec };
                                        proof {
                                            assert(self@ =~= TravView {
                                                stack: rest,
                                                awaiting: AwaitView::FilterDir {
                                                    path: pv,
                                                    idx: idx as int,
                                                    rec: rec,
                                                },
                                            });
                                            assert(spec_next(tv_pre, segs) == (
                                                self@,
                                                ActView::NeedDir(pv),
                                            ));
                                        }
                                        return Action::NeedDir(out);
                                    },
                                }
                            }
                        },
                    }
                },
            }
        }
    }

    /// Answers a `NeedChild` question: whether the asked path names an
    /// existing file and whether it names an existing directory — exactly as
    /// `spec_provide_child` states.
    pub fn provide_child(&mut self, search: &MyGlobSearch, is_file: bool, is_dir: bool)
        requires
            old(self).wf(search),
            old(self)@.awaiting is RootFile || old(self)@.awaiting is ConstChild,
        ensures
            final(self).wf(search),
            final(self)@ == spec_provide_child(old(self)@, search.segs_view(), is_file, is_dir),
    {
        let ghost segsv = search.segs_view();
        proof {
            search.lemma_views();
            assert(segsv.len() == search.segments@.len());
        }
        let mut aw = Awaiting::Idle;
        core::mem::swap(&mut aw, &mut self.awaiting);
        proof {
            assert(aw@ == old(self)@.awaiting);
            assert(self@.stack == old(self)@.stack);
        }
        match aw {
            Awaiting::RootFile(p) => {
                if is_file {
                    let ghost st = self@.stack;
                    let ghost pview = p@;
                    self.stack.push(Pending::Found(p));
                    proof {
                        assert(pend_views(self.stack@) =~= st.push(PendView::Found(pview)));
                    }
                }
                assert(self@ =~= spec_provide_child(old(self)@, segsv, is_file, is_dir));
            },
            Awaiting::ConstChild { path, child, idx, rec } => {
                let nsegs = search.segments.len();
                assert((idx as int) < segsv.len());
                assert(idx < nsegs);
                let ghost pathv = path@;
                let ghost childv = child@;
                if idx + 1 == nsegs {
                    if is_file {
                        let ghost st = self@.stack;
                        self.stack.push(Pending::Found(child));
                        proof {
                            assert(pend_views(self.stack@) =~= st.push(PendView::Found(childv)));
                        }
                    }
                } else {
                    if is_dir {
                        let ghost st = self@.stack;
                        self.stack.push(Pending::Folder(child, idx + 1, false));
                        proof {
                            assert(pend_views(self.stack@) =~= st.push(
                                PendView::Folder(childv, idx as int + 1, false),
                            ));
                        }
                    }
                }
                if rec {
                    self.awaiting = Awaiting::ConstDir { path, idx };
                }
                assert(self@ =~= spec_provide_child(old(self)@, segsv, is_file, is_dir));
            },
            _ => {
                proof {
                    assert(false);
                }
            },
        }
    }

    /// Answers a `NeedDir` question with the directory listing, or with the
    /// message of a whole-directory read failure — exactly as
    /// `spec_provide_dir` states. A read failure becomes one error item; a
    /// per-entry failure becomes one error item without halting the rest of
    /// the enumeration.
    pub fn provide_dir(&mut self, search: &MyGlobSearch, listing: Result<&Vec<DirItem>, &str>)
        requires
            old(self).wf(search),
            old(self)@.awaiting is ConstDir || old(self)@.awaiting is FilterDir,
        ensures
            final(self).wf(search),
            final(self)@ == spec_provide_dir(
                old(self)@,
                search.segs_view(),
                search.ignore_view(),
                listing_view(listing),
            ),
    {
        let ghost segsv = search.segs_view();
        let ghost ignv = search.ignore_view();
        let ghost lv = listing_view(listing);
        proof {
            search.lemma_views();
        }
        let mut aw = Awaiting::Idle;
        core::mem::swap(&mut aw, &mut self.awaiting);
        let ghost st0 = self@.stack;
        match aw {
            Awaiting::ConstDir { path, idx } => {
                let ghost pathv = path@;
                match listing {
                    Err(e) => {
                        self.stack.push(Pending::Failed(read_err(path.as_str(), e)));
                        proof {
                            assert(pend_views(self.stack@) =~= st0 + const_dir_pushes(
                                pathv,
                                idx as int,
                                ignv,
                                lv,
                            ));
                            assert(self@ =~= spec_provide_dir(old(self)@, segsv, ignv, lv));
                        }
                    },
                    Ok(items) => {
                        let ghost itemsv = dir_item_views(items@);
                        let n = items.len();
                        let mut t: usize = 0;
                        while t < n
                            invariant
                                n == items@.len(),
                                itemsv == dir_item_views(items@),
                                itemsv.len() == n,
                                t <= n,
                                ignv == str_views(search.ignore_folders@),
                                self@.awaiting is Idle,
                                pend_views(self.stack@) + const_pushes_from(
                                    pathv,
                                    idx as int,
                                    ignv,
                                    itemsv,
                                    t as int,
                                ) == st0 + const_pushes_from(pathv, idx as int, ignv, itemsv, 0),
                                pathv == path@,
                            decreases n - t,
                        {
                            let ghost stpre = pend_views(self.stack@);
                            proof {
                                assert(itemsv[t as int] == items@[t as int]@);
                            }
                            match &items[t] {
                                DirItem::Error(e) => {
                                    self.stack.push(
                                        Pending::Failed(enum_err(path.as_str(), e.as_str())),
                                    );
                                    proof {
                                        assert(pend_views(self.stack@) =~= stpre.push(
                                            PendView::Failed(enum_err_v(pathv, e@)),
                                        ));
                                        assert(stpre.push(PendView::Failed(enum_err_v(pathv, e@)))
                                            + const_pushes_from(
                                            pathv,
                                            idx as int,
                                            ignv,
                                            itemsv,
                                            t as int + 1,
                                        ) =~= stpre + const_pushes_from(
                                            pathv,
                                            idx as int,
                                            ignv,
                                            itemsv,
                                            t as int,
                                        ));
                                    }
                                },
                                DirItem::Entry(en) => {
                                    if en.is_dir && !is_ignored(
                                        en.name.as_str(),
                                        &search.ignore_folders,
                                    ) {
                                        let sub = join_path(path.as_str(), en.name.as_str());
                                        self.stack.push(Pending::Folder(sub, idx, true));
                                        proof {
                                            assert(pend_views(self.stack@) =~= stpre.push(
                                                PendView::Folder(
                                                    spec_join(pathv, en.name@),
                                                    idx as int,
                                                    true,
                                                ),
                                            ));
                                            assert(pend_views(self.stack@) + const_pushes_from(
                                                pathv,
                                                idx as int,
                                                ignv,
                                                itemsv,
                                                t as int + 1,
                                            ) =~= stpre + const_pushes_from(
                                                pathv,
                                                idx as int,
                                                ignv,
                                                itemsv,
                                                t as int,
                                            ));
                                        }
                                    } else {
                                        proof {
                                            assert(pend_views(self.stack@) + const_pushes_from(
                                                pathv,
                                                idx as int,
                                                ignv,
                                                itemsv,
                                                t as int + 1,
                                            ) =~= stpre + const_pushes_from(
                                                pathv,
                                                idx as int,
                                                ignv,
                                                itemsv,
                                                t as int,
                                            ));
                                        }
                                    }
                                },
                            }
                            t += 1;
                        }
                        proof {
                            assert(const_pushes_from(pathv, idx as int, ignv, itemsv, n as int)
                                =~= Seq::<PendView>::empty());
                            assert(pend_views(self.stack@) + Seq::<PendView>::empty()
                                =~= pend_views(self.stack@));
                            assert(self@ =~= spec_provide_dir(old(self)@, segsv, ignv, lv));
                        }
                    },
                }
            },
            Awaiting::FilterDir { path, idx, rec } => {
                let ghost pathv = path@;
                let nsegs = search.segments.len();
                proof {
                    assert((idx as int) < segsv.len());
                    assert(segsv[idx as int] == search.segments@[idx as int]@);
                }
                match &search.segments[idx] {
                    Segment::Filter(m) => {
                        let ghost pat = m.pat();
                        proof {
                            assert(filter_pat(segsv[idx as int]) == pat);
                        }
                        match listing {
                            Err(e) => {
                                self.stack.push(Pending::Failed(read_err(path.as_str(), e)));
                                proof {
                                    assert(pend_views(self.stack@) =~= st0 + filter_dir_pushes(
                                        pathv,
                                        idx as int,
                                        segsv.len() as int,
                                        pat,
                                        rec,
                                        ignv,
                                        lv,
                                    ));
                                    assert(self@ =~= spec_provide_dir(old(self)@, segsv, ignv, lv));
                                }
                            },
                            Ok(items) => {
                                let ghost itemsv = dir_item_views(items@);
                                let n = items.len();
                                let mut dirs: Vec<String> = Vec::new();
                                let mut t: usize = 0;
                                proof {
                                    assert(str_views(dirs@) =~= Seq::<Seq<char>>::empty());
                                }
                                while t < n
                                    invariant
                                        n == items@.len(),
                                        itemsv == dir_item_views(items@),
                                        itemsv.len() == n,
                                        t <= n,
                                        idx < nsegs,
                                        nsegs == search.segments@.len() == segsv.len(),
                                        ignv == str_views(search.ignore_folders@),
                                        self@.awaiting is Idle,
                                        pathv == path@,
                                        pat == filter_pat(segsv[idx as int]),
                                        segsv[idx as int] is Filter,
                                        search.segments@[idx as int]@ == segsv[idx as int],
                                        segsv == seg_views(search.segments@),
                                        pend_views(self.stack@) + filter_pushes_from(
                                            pathv,
                                            idx as int,
                                            nsegs as int,
                                            pat,
                                            ignv,
                                            itemsv,
                                            t as int,
                                        ) == st0 + filter_pushes_from(
                                            pathv,
                                            idx as int,
                                            nsegs as int,
                                            pat,
                                            ignv,
                                            itemsv,
                                            0,
                                        ),
                                        str_views(dirs@) + dirs_from(pathv, ignv, itemsv, t as int)
                                            == dirs_from(pathv, ignv, itemsv, 0),
                                    decreases n - t,
                                {
                                    let ghost stpre = pend_views(self.stack@);
                                    let ghost dirspre = str_views(dirs@);
                                    proof {
                                        assert(itemsv[t as int] == items@[t as int]@);
                                    }
                                    let m2 = match &search.segments[idx] {
                                        Segment::Filter(mm) => mm,
                                        _ => {
                                            proof {
                                                assert(false);
                                            }
                                            vstd::pervasive::unreached()
                                        },
                                    };
                                    match &items[t] {
                                        DirItem::Error(e) => {
                                            self.stack.push(
                                                Pending::Failed(
                                                    enum_err(path.as_str(), e.as_str()),
                                                ),
                                            );
                                            proof {
                                                assert(pend_views(self.stack@) =~= stpre.push(
                                                    PendView::Failed(enum_err_v(pathv, e@)),
                                                ));
                                                assert(pend_views(self.stack@)
                                                    + filter_pushes_from(
                                                    pathv,
                                                    idx as int,
                                                    nsegs as int,
                                                    pat,
                                                    ignv,
                                                    itemsv,
                                                    t as int + 1,
                                                ) =~= stpre + filter_pushes_from(
                                                    pathv,
                                                    idx as int,
                                                    nsegs as int,
                                                    pat,
                                                    ignv,
                                                    itemsv,
                                                    t as int,
                                                ));
                                                assert(str_views(dirs@) + dirs_from(
                                                    pathv,
                                                    ignv,
                                                    itemsv,
                                                    t as int + 1,
                                                ) =~= dirspre + dirs_from(
                                                    pathv,
                                                    ignv,
                                                    itemsv,
                                                    t as int,
                                                ));
                                            }
                                        },
                                        DirItem::Entry(en) => {
                                            if en.is_file {
                                                if idx + 1 == nsegs && m2.is_match(
                                                    en.name.as_str(),
                                                ) {
                                                    let f = join_path(
                                                        path.as_str(),
                                                        en.name.as_str(),
                                                    );
                                                    self.stack.push(Pending::Found(f));
                                                    proof {
                                                        assert(pend_views(self.stack@)
                                                            =~= stpre.push(
                                                            PendView::Found(
                                                                spec_join(pathv, en.name@),
                                                            ),
                                                        ));
                                                    }
                                                }
                                            } else if en.is_dir {
                                                if !is_ignored(
                                                    en.name.as_str(),
                                                    &search.ignore_folders,
                                                ) {
                                                    if idx + 1 < nsegs && m2.is_match(
                                                        en.name.as_str(),
                                                    ) {
                                                        let f = join_path(
                                                            path.as_str(),
                                                            en.name.as_str(),
                                                        );
                                                        self.stack.push(
                                                            Pending::Folder(f, idx + 1, false),
                                                        );
                                                        proof {
                                                            assert(pend_views(self.stack@)
                                                                =~= stpre.push(
                                                                PendView::Folder(
                                                                    spec_join(pathv, en.name@),
                                                                    idx as int + 1,
                                                                    false,
                                                                ),
                                                            ));
                                                        }
                                                    }
                                                    let d = join_path(
                                                        path.as_str(),
                                                        en.name.as_str(),
                                                    );
                                                    dirs.push(d);
                                                    proof {
                                                        assert(str_views(dirs@) =~= dirspre.push(
                                                            spec_join(pathv, en.name@),
                                                        ));
                                                    }
                                                }
                                            }
                                            proof {
                                                assert(pend_views(self.stack@)
                                                    + filter_pushes_from(
                                                    pathv,
                                                    idx as int,
                                                    nsegs as int,
                                                    pat,
                                                    ignv,
                                                    itemsv,
                                                    t as int + 1,
                                                ) =~= stpre + filter_pushes_from(
                                                    pathv,
                                                    idx as int,
                                                    nsegs as int,
                                                    pat,
                                                    ignv,
                                                    itemsv,
                                                    t as int,
                                                ));
                                                assert(str_views(dirs@) + dirs_from(
                                                    pathv,
                                                    ignv,
                                                    itemsv,
                                                    t as int + 1,
                                                ) =~= dirspre + dirs_from(
                                                    pathv,
                                                    ignv,
                                                    itemsv,
                                                    t as int,
                                                ));
                                            }
                                        },
                                    }
                                    t += 1;
                                }
                                proof {
                                    assert(filter_pushes_from(
                                        pathv,
                                        idx as int,
                                        nsegs as int,
                                        pat,
                                        ignv,
                                        itemsv,
                                        n as int,
                                    ) =~= Seq::<PendView>::empty());
                                    assert(dirs_from(pathv, ignv, itemsv, n as int)
                                        =~= Seq::<Seq<char>>::empty());
                                    assert(pend_views(self.stack@) =~= st0 + filter_pushes_from(
                                        pathv,
                                        idx as int,
                                        nsegs as int,
                                        pat,
                                        ignv,
                                        itemsv,
                                        0,
                                    ));
                                    assert(str_views(dirs@) =~= dirs_from(pathv, ignv, itemsv, 0));
                                }
                                let ghost dirsv = str_views(dirs@);
                                let ghost stmid = pend_views(self.stack@);
                                if rec {
                                    let nd = dirs.len();
                                    let mut k: usize = 0;
                                    while k < nd
                                        invariant
                                            nd == dirs@.len(),
                                            dirsv == str_views(dirs@),
                                            dirsv.len() == nd,
                                            k <= nd,
                                            self@.awaiting is Idle,
                                            pend_views(self.stack@) + rec_pushes_from(
                                                dirsv,
                                                idx as int,
                                                k as int,
                                            ) == stmid + rec_pushes_from(dirsv, idx as int, 0),
                                        decreases nd - k,
                                    {
                                        let ghost stpre = pend_views(self.stack@);
                                        self.stack.push(
                                            Pending::Folder(dirs[k].clone(), idx, true),
                                        );
                                        proof {
                                            assert(dirsv[k as int] == dirs@[k as int]@);
                                            assert(pend_views(self.stack@) =~= stpre.push(
                                                PendView::Folder(dirsv[k as int], idx as int, true),
                                            ));
                                            assert(pend_views(self.stack@) + rec_pushes_from(
                                                dirsv,
                                                idx as int,
                                                k as int + 1,
                                            ) =~= stpre + rec_pushes_from(
                                                dirsv,
                                                idx as int,
                                                k as int,
                                            ));
                                        }
                                        k += 1;
                                    }
                                    proof {
                                        assert(rec_pushes_from(dirsv, idx as int, nd as int)
                                            =~= Seq::<PendView>::empty());
                                        assert(pend_views(self.stack@) =~= stmid + rec_pushes_from(
                                            dirsv,
                                            idx as int,
                                            0,
                                        ));
                                    }
                                }
                                proof {
                                    assert(self@.stack =~= st0 + filter_dir_pushes(
                                        pathv,
                                        idx as int,
                                        segsv.len() as int,
                                        pat,
                                        rec,
                                        ignv,
                                        lv,
                                    ));
                                    assert(self@ =~= spec_provide_dir(old(self)@, segsv, ignv, lv));
                                }
                            },
                        }
                    },
                    _ => {
                        proof {
                            assert(false);
                        }
                    },
                }
            },
            _ => {
                proof {
                    assert(false);
                }
            },
        }
    }
}


/// The views of a list of matches.
pub open spec fn match_views(v: Seq<MyGlobMatch>) -> Seq<MatchView> {
    v.map_values(|m: MyGlobMatch| m@)
}

/// The views of a directory table.
pub open spec fn dir_table_views(v: Seq<(String, Vec<DirItem>)>) -> Seq<(Seq<char>, Seq<DirItemV>)> {
    v.map_values(|p: (String, Vec<DirItem>)| (p.0@, dir_item_views(p.1@)))
}

/// The views of an unreadable-directory table.
pub open spec fn err_table_views(v: Seq<(String, String)>) -> Seq<(Seq<char>, Seq<char>)> {
    v.map_values(|p: (String, String)| (p.0@, p.1@))
}

/// An in-memory model of a filesystem subtree, for driving whole traversals
/// deterministically: the files that exist, the readable directories with
/// their listings, and the directories whose read fails with a message.
pub struct FsModel {
    pub files: Vec<String>,
    pub dirs: Vec<(String, Vec<DirItem>)>,
    pub unreadable: Vec<(String, String)>,
}

/// The view of a filesystem model.
#[verifier::ext_equal]
pub struct FsView {
    pub files: Seq<Seq<char>>,
    pub dirs: Seq<(Seq<char>, Seq<DirItemV>)>,
    pub unreadable: Seq<(Seq<char>, Seq<char>)>,
}

impl View for FsModel {
    type V = FsView;

    open spec fn view(&self) -> FsView {
        FsView {
            files: str_views(self.files@),
            dirs: dir_table_views(self.dirs@),
            unreadable: err_table_views(self.unreadable@),
        }
    }
}

/// Whether `p` names a file of the model.
pub open spec fn fsm_is_file(fs: FsView, p: Seq<char>) -> bool {
    exists|i: int| 0 <= i < fs.files.len() && fs.files[i] == p
}

/// The first entry of a keyed table whose key is `p`, from position `i` on.
pub open spec fn table_find<T>(table: Seq<(Seq<char>, T)>, p: Seq<char>, i: int) -> Option<int>
    decreases table.len() - i,
{
    if i < 0 || i >= table.len() {
        None
    } else if table[i].0 == p {
        Some(i)
    } else {
        table_find(table, p, i + 1)
    }
}

/// Whether `p` names a directory of the model (readable or not).
pub open spec fn fsm_is_dir(fs: FsView, p: Seq<char>) -> bool {
    table_find(fs.dirs, p, 0) is Some || table_find(fs.unreadable, p, 0) is Some
}

/// What reading directory `p` of the model yields: its listing, the stated
/// error for an unreadable directory, or a fixed error for a path that names
/// no directory at all.
pub open spec fn fsm_listing(fs: FsView, p: Seq<char>) -> Result<Seq<DirItemV>, Seq<char>> {
    match table_find(fs.dirs, p, 0) {
        Some(i) => Ok(fs.dirs[i].1),
        None => match table_find(fs.unreadable, p, 0) {
            Some(i) => Err(fs.unreadable[i].1),
            None => Err("no such directory"@),
        },
    }
}

impl FsModel {
    /// An empty model.
    pub fn new() -> (r: FsModel)
        ensures
            r@.files == Seq::<Seq<char>>::empty(),
            r@.dirs == Seq::<(Seq<char>, Seq<DirItemV>)>::empty(),
            r@.unreadable == Seq::<(Seq<char>, Seq<char>)>::empty(),
    {
        let r = FsModel { files: Vec::new(), dirs: Vec::new(), unreadable: Vec::new() };
        proof {
            assert(r@.files =~= Seq::<Seq<char>>::empty());
            assert(r@.dirs =~= Seq::<(Seq<char>, Seq<DirItemV>)>::empty());
            assert(r@.unreadable =~= Seq::<(Seq<char>, Seq<char>)>::empty());
        }
        r
    }

    /// Whether `p` names a file of the model.
    pub fn is_file(&self, p: &str) -> (b: bool)
        ensures
            b == fsm_is_file(self@, p@),
    {
        let n = self.files.len();
        let mut i: usize = 0;
        while i < n
            invariant
                n == self.files@.len(),
                i <= n,
                forall|k: int| 0 <= k < i ==> #[trigger] self.files@[k]@ != p@,
            decreases n - i,
        {
            if str_eq(self.files[i].as_str(), p) {
                assert(self@.files[i as int] == p@);
                return true;
            }
            i += 1;
        }
        proof {
            assert forall|k: int| 0 <= k < n implies #[trigger] self@.files[k] != p@ by {
                assert(self@.files[k] == self.files@[k]@);
            }
        }
        false
    }

    fn find_dir(&self, p: &str) -> (r: Option<usize>)
        ensures
            match r {
                Some(i) => table_find(self@.dirs, p@, 0) == Some(i as int) && i < self.dirs@.len(),
                None => table_find(self@.dirs, p@, 0) is None,
            },
    {
        let n = self.dirs.len();
        let mut i: usize = 0;
        while i < n
            invariant
                n == self.dirs@.len(),
                i <= n,
                self@.dirs.len() == n,
                table_find(self@.dirs, p@, 0) == table_find(self@.dirs, p@, i as int),
            decreases n - i,
        {
            proof {
                assert(self@.dirs[i as int] == (self.dirs@[i as int].0@, dir_item_views(
                    self.dirs@[i as int].1@,
                )));
            }
            if str_eq(self.dirs[i].0.as_str(), p) {
                assert(table_find(self@.dirs, p@, i as int) == Some(i as int));
                return Some(i);
            }
            i += 1;
        }
        assert(table_find(self@.dirs, p@, n as int) is None);
        None
    }

    fn find_unreadable(&self, p: &str) -> (r: Option<usize>)
        ensures
            match r {
                Some(i) => table_find(self@.unreadable, p@, 0) == Some(i as int) && i
                    < self.unreadable@.len(),
                None => table_find(self@.unreadable, p@, 0) is None,
            },
    {
        let n = self.unreadable.len();
        let mut i: usize = 0;
        while i < n
            invariant
                n == self.unreadable@.len(),
                i <= n,
                self@.unreadable.len() == n,
                table_find(self@.unreadable, p@, 0) == table_find(self@.unreadable, p@, i as int),
            decreases n - i,
        {
            proof {
                assert(self@.unreadable[i as int] == (
                    self.unreadable@[i as int].0@,
                    self.unreadable@[i as int].1@,
                ));
            }
            if str_eq(self.unreadable[i].0.as_str(), p) {
                assert(table_find(self@.unreadable, p@, i as int) == Some(i as int));
                return Some(i);
            }
            i += 1;
        }
        assert(table_find(self@.unreadable, p@, n as int) is None);
        None
    }

    /// Whether `p` names a directory of the model, readable or not.
    pub fn is_dir(&self, p: &str) -> (b: bool)
        ensures
            b == fsm_is_dir(self@, p@),
    {
        self.find_dir(p).is_some() || self.find_unreadable(p).is_some()
    }

    /// Reads directory `p` of the model.
    pub fn listing(&self, p: &str) -> (r: Result<&Vec<DirItem>, &str>)
        ensures
            listing_view(r) == fsm_listing(self@, p@),
    {
        match self.find_dir(p) {
            Some(i) => {
                proof {
                    assert(self@.dirs[i as int].1 == dir_item_views(self.dirs@[i as int].1@));
                }
                Ok(&self.dirs[i].1)
            },
            None => match self.find_unreadable(p) {
                Some(i) => {
                    proof {
                        assert(self@.unreadable[i as int].1 == self.unreadable@[i as int].1@);
                    }
                    Err(self.unreadable[i].1.as_str())
                },
                None => Err("no such directory"),
            },
        }
    }
}

/// The matches a traversal in state `tv` goes on to emit within `fuel` engine
/// steps over the model `fs`: the pure interpretation of the engine, one
/// `spec_next` and at most one answer per unit of fuel.
pub open spec fn spec_run(
    tv: TravView,
    segs: Seq<SegView>,
    ignore: Seq<Seq<char>>,
    fs: FsView,
    fuel: nat,
) -> Seq<MatchView>
    decreases fuel,
{
    if fuel == 0 {
        Seq::empty()
    } else {
        let r = spec_next(tv, segs);
        match r.1 {
            ActView::Done => Seq::empty(),
            ActView::Emit(m) => seq![m] + spec_run(r.0, segs, ignore, fs, (fuel - 1) as nat),
            ActView::NeedChild(p) => spec_run(
                spec_provide_child(r.0, segs, fsm_is_file(fs, p), fsm_is_dir(fs, p)),
                segs,
                ignore,
                fs,
                (fuel - 1) as nat,
            ),
            ActView::NeedDir(p) => spec_run(
                spec_provide_dir(r.0, segs, ignore, fsm_listing(fs, p)),
                segs,
                ignore,
                fs,
                (fuel - 1) as nat,
            ),
        }
    }
}

/// The matches a whole run of `search` emits over the model `fs` within
/// `fuel` engine steps.
pub open spec fn spec_explore(search: &MyGlobSearch, fs: FsView, fuel: nat) -> Seq<MatchView> {
    spec_run(
        spec_start(search.root_view(), search.segs_view()),
        search.segs_view(),
        search.ignore_view(),
        fs,
        fuel,
    )
}

/// After a step, the question state matches the action asked: this lets a
/// driver answer with `provide_child` or `provide_dir` as asked.
pub proof fn lemma_next_shape(tv: TravView, segs: Seq<SegView>)
    ensures
        spec_next(tv, segs).1 is NeedChild ==> (spec_next(tv, segs).0.awaiting is RootFile
            || spec_next(tv, segs).0.awaiting is ConstChild),
        spec_next(tv, segs).1 is NeedDir ==> (spec_next(tv, segs).0.awaiting is ConstDir
            || spec_next(tv, segs).0.awaiting is FilterDir),
    decreases tv.stack.len(), top_measure(tv.stack, segs),
{
    match tv.awaiting {
        AwaitView::Idle => {
            if tv.stack.len() > 0 {
                let top = tv.stack.last();
                let rest = tv.stack.drop_last();
                match top {
                    PendView::Folder(path, idx, rec) => {
                        if idx < 0 || idx >= segs.len() {
                            lemma_next_shape(
                                TravView { stack: rest, awaiting: AwaitView::Idle },
                                segs,
                            );
                        } else {
                            match segs[idx] {
                                SegView::Recurse => {
                                    lemma_next_shape(
                                        TravView {
                                            stack: rest.push(PendView::Folder(path, idx + 1, true)),
                                            awaiting: AwaitView::Idle,
                                        },
                                        segs,
                                    );
                                },
                                _ => {},
                            }
                        }
                    },
                    _ => {},
                }
            }
        },
        _ => {},
    }
}

impl MyGlobSearch {
    /// Runs a whole traversal against an in-memory filesystem model, taking
    /// at most `max_steps` engine steps, and collects the emitted matches:
    /// exactly `spec_explore` of the search, the model, and the budget.
    pub fn explore(&self, fs: &FsModel, max_steps: usize) -> (r: Vec<MyGlobMatch>)
        ensures
            match_views(r@) == spec_explore(self, fs@, max_steps as nat),
    {
        let ghost segs = self.segs_view();
        let ghost ignore = self.ignore_view();
        let ghost total = spec_explore(self, fs@, max_steps as nat);
        let mut t = self.explore_iter();
        let mut out: Vec<MyGlobMatch> = Vec::new();
        let mut fuel = max_steps;
        proof {
            assert(match_views(out@) =~= Seq::<MatchView>::empty());
            assert(match_views(out@) + spec_run(t@, segs, ignore, fs@, fuel as nat) =~= total);
        }
        loop
            invariant_except_break
                t.wf(self),
                self.segs_view() == segs,
                self.ignore_view() == ignore,
                match_views(out@) + spec_run(t@, segs, ignore, fs@, fuel as nat) == total,
            ensures
                match_views(out@) == total,
            decreases fuel,
        {
            if fuel == 0 {
                proof {
                    assert(spec_run(t@, segs, ignore, fs@, 0) =~= Seq::<MatchView>::empty());
                    assert(match_views(out@) + Seq::<MatchView>::empty() =~= match_views(out@));
                }
                break ;
            }
            let ghost fuel0 = fuel as nat;
            let ghost tv_pre = t@;
            fuel -= 1;
            let a = t.next_action(self);
            proof {
                lemma_next_shape(tv_pre, segs);
            }
            match a {
                Action::Done => {
                    proof {
                        assert(spec_run(tv_pre, segs, ignore, fs@, fuel0) =~= Seq::<
                            MatchView,
                        >::empty());
                        assert(match_views(out@) + Seq::<MatchView>::empty() =~= match_views(
                            out@,
                        ));
                    }
                    break ;
                },
                Action::Emit(m) => {
                    let ghost outv = match_views(out@);
                    let ghost mv = m@;
                    out.push(m);
                    proof {
                        assert(match_views(out@) =~= outv.push(mv));
                        assert(spec_run(tv_pre, segs, ignore, fs@, fuel0) == seq![mv] + spec_run(
                            t@,
                            segs,
                            ignore,
                            fs@,
                            fuel as nat,
                        ));
                        assert(match_views(out@) + spec_run(t@, segs, ignore, fs@, fuel as nat)
                            =~= outv + spec_run(tv_pre, segs, ignore, fs@, fuel0));
                    }
                },
                Action::NeedChild(p) => {
                    let f = fs.is_file(p.as_str());
                    let d = fs.is_dir(p.as_str());
                    t.provide_child(self, f, d);
                },
                Action::NeedDir(p) => {
                    let l = fs.listing(p.as_str());
                    t.provide_dir(self, l);
                },
            }
        }
        out
    }
}

/// Law: a run is a function of the compiled search, the filesystem model, and
/// the step budget alone, so exploring the same compiled search twice over an
/// unchanged filesystem yields the same matches — the same sequence, hence
/// the same unordered collection.
pub proof fn lemma_explore_deterministic(
    r1: Seq<MatchView>,
    r2: Seq<MatchView>,
    search: &MyGlobSearch,
    fs: FsView,
    fuel: nat,
)
    requires
        r1 == spec_explore(search, fs, fuel),
        r2 == spec_explore(search, fs, fuel),
    ensures
        r1 == r2,
        r1.to_multiset() == r2.to_multiset(),
{
}

/// Law: a directory whose name lowercases to an entry of the ignore list is
/// never queued for expansion when a listing is consumed — not while
/// recursively expanding a constant segment, and not while enumerating for a
/// filter segment, whatever else the listing holds.
pub proof fn lemma_ignored_never_expanded(
    path: Seq<char>,
    idx: int,
    nsegs: int,
    pat: Seq<char>,
    ignore: Seq<Seq<char>>,
    items: Seq<DirItemV>,
    name: Seq<char>,
    t: int,
)
    requires
        ignored(name, ignore),
    ensures
        forall|j: int|
            0 <= j < const_pushes_from(path, idx, ignore, items, t).len() ==> !(
            #[trigger] const_pushes_from(path, idx, ignore, items, t)[j] matches PendView::Folder(
                q,
                _,
                _,
            ) && q == spec_join(path, name)),
        forall|j: int|
            0 <= j < filter_pushes_from(path, idx, nsegs, pat, ignore, items, t).len() ==> !(
            #[trigger] filter_pushes_from(
                path,
                idx,
                nsegs,
                pat,
                ignore,
                items,
                t,
            )[j] matches PendView::Folder(q, _, _) && q == spec_join(path, name)),
        forall|j: int|
            0 <= j < dirs_from(path, ignore, items, t).len() ==> #[trigger] dirs_from(
                path,
                ignore,
                items,
                t,
            )[j] != spec_join(path, name),
    decreases items.len() - t,
{
    if 0 <= t < items.len() {
        lemma_ignored_never_expanded(path, idx, nsegs, pat, ignore, items, name, t + 1);
        assert(spec_join(path, name).len() == path.len() + 1 + name.len());
        let d0 = dirs_from(path, ignore, items, t);
        let d1 = dirs_from(path, ignore, items, t + 1);
        match items[t] {
            DirItemV::Entry(en) => {
                if spec_join(path, en.name) == spec_join(path, name) {
                    assert(en.name =~= name) by {
                        assert forall|k: int| 0 <= k < name.len() implies en.name[k] == name[k] by {
                            assert(spec_join(path, en.name)[path.len() + 1 + k] == en.name[k]);
                            assert(spec_join(path, name)[path.len() + 1 + k] == name[k]);
                        }
                        assert(en.name.len() == name.len());
                    }
                    assert(ignored(en.name, ignore));
                }
                if !en.is_file && en.is_dir && !ignored(en.name, ignore) {
                    assert(d0 == seq![spec_join(path, en.name)] + d1);
                    assert(spec_join(path, en.name) != spec_join(path, name));
                    assert forall|j: int| 0 <= j < d0.len() implies d0[j] != spec_join(
                        path,
                        name,
                    ) by {
                        if j == 0 {
                            assert(d0[0] == spec_join(path, en.name));
                        } else {
                            assert(d0[j] == d1[j - 1]);
                        }
                    }
                } else {
                    assert(d0 =~= d1);
                }
            },
            DirItemV::Error(_) => {
                assert(d0 =~= d1);
            },
        }
    } else {
        assert(dirs_from(path, ignore, items, t) =~= Seq::<Seq<char>>::empty());
    }
}

/// Law: an unreadable directory contributes exactly one error item, carrying
/// the offending path, and leaves all other pending work untouched, so a
/// single inaccessible subtree never disturbs the exploration of its
/// siblings.
pub proof fn lemma_unreadable_isolated(
    tv: TravView,
    segs: Seq<SegView>,
    ignore: Seq<Seq<char>>,
    e: Seq<char>,
)
    requires
        tv.awaiting is ConstDir || tv.awaiting is FilterDir,
    ensures
        spec_provide_dir(tv, segs, ignore, Err(e)).stack == tv.stack.push(
            PendView::Failed(
                read_err_v(
                    match tv.awaiting {
                        AwaitView::ConstDir { path, .. } => path,
                        AwaitView::FilterDir { path, .. } => path,
                        _ => Seq::empty(),
                    },
                    e,
                ),
            ),
        ),
        spec_provide_dir(tv, segs, ignore, Err(e)).awaiting is Idle,
{
    match tv.awaiting {
        AwaitView::ConstDir { path, idx } => {
            assert(spec_provide_dir(tv, segs, ignore, Err(e)).stack =~= tv.stack.push(
                PendView::Failed(read_err_v(path, e)),
            ));
        },
        AwaitView::FilterDir { path, idx, rec } => {
            assert(spec_provide_dir(tv, segs, ignore, Err(e)).stack =~= tv.stack.push(
                PendView::Failed(read_err_v(path, e)),
            ));
        },
        _ => {},
    }
}


/// The number of per-entry failures in a listing, from position `t` on.
pub open spec fn count_entry_errors(items: Seq<DirItemV>, t: int) -> int
    decreases items.len() - t,
{
    if t < 0 || t >= items.len() {
        0
    } else {
        (match items[t] {
            DirItemV::Error(_) => 1int,
            DirItemV::Entry(_) => 0int,
        }) + count_entry_errors(items, t + 1)
    }
}

/// The number of error items among queued work.
pub open spec fn count_failed(pushes: Seq<PendView>) -> int
    decreases pushes.len(),
{
    if pushes.len() == 0 {
        0
    } else {
        (match pushes.first() {
            PendView::Failed(_) => 1int,
            _ => 0int,
        }) + count_failed(pushes.drop_first())
    }
}

pub proof fn lemma_count_failed_concat(a: Seq<PendView>, b: Seq<PendView>)
    ensures
        count_failed(a + b) == count_failed(a) + count_failed(b),
    decreases a.len(),
{
    if a.len() == 0 {
        assert(a + b =~= b);
    } else {
        assert((a + b).drop_first() =~= a.drop_first() + b);
        assert((a + b).first() == a.first());
        lemma_count_failed_concat(a.drop_first(), b);
    }
}

proof fn lemma_count_failed_single(p: PendView)
    ensures
        count_failed(seq![p]) == (match p {
            PendView::Failed(_) => 1int,
            _ => 0int,
        }),
{
    assert(seq![p].drop_first() =~= Seq::<PendView>::empty());
    assert(count_failed(Seq::<PendView>::empty()) == 0);
    assert(seq![p].first() == p);
}

/// Law: recursive constant expansion surfaces exactly one error item for each
/// per-entry failure of the listing, never more and never fewer.
pub proof fn lemma_const_failures_surfaced_once(
    path: Seq<char>,
    idx: int,
    ignore: Seq<Seq<char>>,
    items: Seq<DirItemV>,
    t: int,
)
    ensures
        count_failed(const_pushes_from(path, idx, ignore, items, t)) == count_entry_errors(
            items,
            t,
        ),
    decreases items.len() - t,
{
    if 0 <= t < items.len() {
        lemma_const_failures_surfaced_once(path, idx, ignore, items, t + 1);
        let head: Seq<PendView> = match items[t] {
            DirItemV::Error(e) => seq![PendView::Failed(enum_err_v(path, e))],
            DirItemV::Entry(en) => if en.is_dir && !ignored(en.name, ignore) {
                seq![PendView::Folder(spec_join(path, en.name), idx, true)]
            } else {
                Seq::empty()
            },
        };
        lemma_count_failed_concat(head, const_pushes_from(path, idx, ignore, items, t + 1));
        if head.len() > 0 {
            lemma_count_failed_single(head.first());
            assert(head =~= seq![head.first()]);
        }
    }
}

proof fn lemma_rec_pushes_no_failures(dirs: Seq<Seq<char>>, idx: int, t: int)
    ensures
        count_failed(rec_pushes_from(dirs, idx, t)) == 0,
    decreases dirs.len() - t,
{
    if 0 <= t < dirs.len() {
        lemma_rec_pushes_no_failures(dirs, idx, t + 1);
        let head = seq![PendView::Folder(dirs[t], idx, true)];
        lemma_count_failed_concat(head, rec_pushes_from(dirs, idx, t + 1));
        lemma_count_failed_single(head.first());
        assert(head =~= seq![head.first()]);
    }
}

proof fn lemma_filter_items_failures(
    path: Seq<char>,
    idx: int,
    nsegs: int,
    pat: Seq<char>,
    ignore: Seq<Seq<char>>,
    items: Seq<DirItemV>,
    t: int,
)
    ensures
        count_failed(filter_pushes_from(path, idx, nsegs, pat, ignore, items, t))
            == count_entry_errors(items, t),
    decreases items.len() - t,
{
    if 0 <= t < items.len() {
        lemma_filter_items_failures(path, idx, nsegs, pat, ignore, items, t + 1);
        let head: Seq<PendView> = match items[t] {
            DirItemV::Error(e) => seq![PendView::Failed(enum_err_v(path, e))],
            DirItemV::Entry(en) => if en.is_file {
                if idx == nsegs - 1 && regex_is_match(pat, en.name) {
                    seq![PendView::Found(spec_join(path, en.name))]
                } else {
                    Seq::empty()
                }
            } else if en.is_dir && !ignored(en.name, ignore) && idx < nsegs - 1 && regex_is_match(
                pat,
                en.name,
            ) {
                seq![PendView::Folder(spec_join(path, en.name), idx + 1, false)]
            } else {
                Seq::empty()
            },
        };
        lemma_count_failed_concat(
            head,
            filter_pushes_from(path, idx, nsegs, pat, ignore, items, t + 1),
        );
        if head.len() > 0 {
            lemma_count_failed_single(head.first());
            assert(head =~= seq![head.first()]);
        }
    }
}

/// Law: a filter enumeration surfaces exactly one error item for each
/// per-entry failure of the listing, whether or not the folder was reached in
/// recursing mode; the recursion work carries no error items of its own.
pub proof fn lemma_filter_failures_surfaced_once(
    path: Seq<char>,
    idx: int,
    nsegs: int,
    pat: Seq<char>,
    rec: bool,
    ignore: Seq<Seq<char>>,
    items: Seq<DirItemV>,
)
    ensures
        count_failed(filter_dir_pushes(path, idx, nsegs, pat, rec, ignore, Ok(items)))
            == count_entry_errors(items, 0),
{
    lemma_filter_items_failures(path, idx, nsegs, pat, ignore, items, 0);
    let fp = filter_pushes_from(path, idx, nsegs, pat, ignore, items, 0);
    if rec {
        lemma_rec_pushes_no_failures(dirs_from(path, ignore, items, 0), idx, 0);
        lemma_count_failed_concat(fp, rec_pushes_from(dirs_from(path, ignore, items, 0), idx, 0));
    } else {
        lemma_count_failed_concat(fp, Seq::empty());
    }
}

} // verus!


