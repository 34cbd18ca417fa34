//! Depth-first, name-sorted directory traversal as an explicit state
//! machine. The engine owns the work stack, the depth policy and the
//! symlink-cycle bookkeeping; its caller performs the filesystem reads. One
//! round: `next_step` hands out either an entry to emit or a directory to
//! list; a listing is handed back through `feed`, which sorts the children
//! by name, prunes hidden ones, emits each survivor and schedules descent
//! into sub-directories that the depth and symlink policies admit. A
//! directory whose canonical identity was already claimed is never listed
//! twice, so cyclic links cannot recurse. Every step is a function of the
//! engine's state and the listing alone, so a repeated walk of an unchanged
//! tree repeats the same steps in the same order.

use vstd::prelude::*;
use crate::filter::EntryKind;
use crate::filter::FilterSpec;
use crate::filter::FsEntry;
use crate::filter::is_hidden_name;
use crate::filter::DOT;
use crate::pattern::SEPARATOR;
use crate::text::bytes_le;
use crate::text::lex_le;

verus! {

/// One directory child as the caller read it: base name, observed kind
/// (a symlink is reported as a symlink), size, modification time, whether
/// the walk could descend into it, and the canonical identity of the
/// directory it leads to (read only when symlinks are followed).
pub struct RawChild {
    pub name: Vec<u8>,
    pub kind: EntryKind,
    pub size: u64,
    pub modified: Option<u64>,
    /// A directory, or a symlink whose target is a directory.
    pub dir_target: bool,
    /// Canonical identity (device, inode) of the directory target.
    pub canon: Option<(u64, u64)>,
}

/// Work still owed: an entry to hand out, or a directory to list.
pub enum Task {
    Report(FsEntry),
    Descend { path: Vec<u8>, depth: usize, canon: Option<(u64, u64)> },
}

/// What the caller is asked to do next.
pub enum Step {
    /// Pass this entry on: evaluate it and render or act.
    Emit(FsEntry),
    /// Read this directory and hand its children to `feed`; on a read
    /// failure feed an empty listing, and the subtree is skipped.
    NeedListing { path: Vec<u8>, depth: usize },
}

/// Ghost image of an emitted entry.
pub struct EntryModel {
    pub path: Seq<u8>,
    pub name: Seq<u8>,
    pub kind: EntryKind,
    pub size: u64,
    pub modified: Option<u64>,
    pub depth: int,
}

/// Ghost image of a stack task.
pub enum TaskModel {
    Report(EntryModel),
    Descend(Seq<u8>, int, Option<(u64, u64)>),
}

impl View for FsEntry {
    type V = EntryModel;

    open spec fn view(&self) -> EntryModel {
        EntryModel {
            path: self.path@,
            name: self.name@,
            kind: self.kind,
            size: self.size,
            modified: self.modified,
            depth: self.depth as int,
        }
    }
}

impl View for Task {
    type V = TaskModel;

    open spec fn view(&self) -> TaskModel {
        match self {
            Task::Report(e) => TaskModel::Report(e@),
            Task::Descend { path, depth, canon } => TaskModel::Descend(
                path@,
                *depth as int,
                *canon,
            ),
        }
    }
}

/// Whether depth `d` still lies strictly under the depth limit.
pub open spec fn depth_lt(d: int, limit: Option<usize>) -> bool {
    match limit {
        Option::None => true,
        Option::Some(l) => d < l,
    }
}

/// The depth limit one search runs under: a non-recursive search behaves as
/// depth limit 1; otherwise the configured limit, or none.
pub open spec fn effective_depth(f: FilterSpec) -> Option<usize> {
    if !f.recursive {
        Option::Some(1usize)
    } else {
        f.max_depth
    }
}

/// A child's path: its parent's path, a separator, its name.
pub open spec fn joined(parent: Seq<u8>, name: Seq<u8>) -> Seq<u8> {
    parent + seq![SEPARATOR] + name
}

/// The entry a child is reported as, one level below its parent.
pub open spec fn child_model(parent: Seq<u8>, pd: int, c: RawChild) -> EntryModel {
    EntryModel {
        path: joined(parent, c.name@),
        name: c.name@,
        kind: c.kind,
        size: c.size,
        modified: c.modified,
        depth: pd + 1,
    }
}

/// Hidden children are pruned whole — neither emitted nor descended —
/// unless hidden entries were asked for.
pub open spec fn skip_child(c: RawChild, include_hidden: bool) -> bool {
    !include_hidden && is_hidden_name(c.name@)
}

/// Whether the walk descends into a child of a directory at depth `pd`:
/// it must lead to a directory, a symlink is followed only under the
/// follow policy, the child's own depth must lie under the limit, and under
/// the follow policy its canonical identity must be fresh.
pub open spec fn admits_descend(
    c: RawChild,
    pd: int,
    limit: Option<usize>,
    follow: bool,
    visited: Seq<(u64, u64)>,
) -> bool {
    &&& c.dir_target
    &&& (c.kind is Symlink ==> follow)
    &&& depth_lt(pd + 1, limit)
    &&& (follow ==> c.canon is Some && !visited.contains(c.canon.unwrap()))
}

/// `c` inserted before the first element it does not come after.
pub open spec fn insert_sorted(c: RawChild, s: Seq<RawChild>) -> Seq<RawChild>
    decreases s.len(),
{
    if s.len() == 0 {
        seq![c]
    } else if lex_le(c.name@, s[0].name@) {
        seq![c] + s
    } else {
        seq![s[0]] + insert_sorted(c, s.skip(1))
    }
}

/// The first `i` children, insertion-sorted by name.
pub open spec fn insort_upto(s: Seq<RawChild>, i: int) -> Seq<RawChild>
    decreases i,
{
    if i <= 0 {
        Seq::empty()
    } else {
        insert_sorted(s[i - 1], insort_upto(s, i - 1))
    }
}

/// A listing's children in the order the walk takes them: sorted by name.
pub open spec fn sorted_children(s: Seq<RawChild>) -> Seq<RawChild> {
    insort_upto(s, s.len() as int)
}

/// Earlier siblings come no later by name.
pub open spec fn sorted_by_name(s: Seq<RawChild>) -> bool {
    forall|i: int, j: int|
        #![trigger s[i], s[j]]
        0 <= i < j < s.len() ==> lex_le(s[i].name@, s[j].name@)
}

proof fn lemma_insert_sorted_shape(c: RawChild, s: Seq<RawChild>)
    ensures
        insert_sorted(c, s).len() == s.len() + 1,
        forall|k: int|
            0 <= k < insert_sorted(c, s).len() ==> insert_sorted(c, s)[k] == c || exists|m: int|
                0 <= m < s.len() && insert_sorted(c, s)[k] == s[m],
    decreases s.len(),
{
    let r = insert_sorted(c, s);
    if s.len() == 0 {
    } else if lex_le(c.name@, s[0].name@) {
        assert forall|k: int| 0 <= k < r.len() implies r[k] == c || exists|m: int|
            0 <= m < s.len() && r[k] == s[m] by {
            if k > 0 {
                assert(r[k] == s[k - 1]);
            }
        }
    } else {
        lemma_insert_sorted_shape(c, s.skip(1));
        let rr = insert_sorted(c, s.skip(1));
        assert forall|k: int| 0 <= k < r.len() implies r[k] == c || exists|m: int|
            0 <= m < s.len() && r[k] == s[m] by {
            if k == 0 {
                assert(r[0] == s[0]);
            } else {
                assert(r[k] == rr[k - 1]);
                if rr[k - 1] != c {
                    let m = choose|m: int| 0 <= m < s.skip(1).len() && rr[k - 1] == s.skip(1)[m];
                    assert(s.skip(1)[m] == s[m + 1]);
                    assert(r[k] == s[m + 1]);
                }
            }
        }
    }
}

proof fn lemma_insert_sorted_keeps(c: RawChild, s: Seq<RawChild>)
    requires
        sorted_by_name(s),
    ensures
        sorted_by_name(insert_sorted(c, s)),
    decreases s.len(),
{
    let r = insert_sorted(c, s);
    if s.len() == 0 {
    } else if lex_le(c.name@, s[0].name@) {
        assert forall|i: int, j: int| 0 <= i < j < r.len() implies lex_le(r[i].name@,
            r[j].name@) by {
            if i == 0 {
                assert(r[j] == s[j - 1]);
                if j > 1 {
                    crate::text::lemma_lex_le_trans(c.name@, s[0].name@, s[j - 1].name@);
                }
            } else {
                assert(r[i] == s[i - 1] && r[j] == s[j - 1]);
            }
        }
    } else {
        assert(forall|i: int, j: int|
            #![trigger s.skip(1)[i], s.skip(1)[j]]
            0 <= i < j < s.skip(1).len() ==> s.skip(1)[i] == s[i + 1] && s.skip(1)[j] == s[j + 1]);
        assert(sorted_by_name(s.skip(1)));
        lemma_insert_sorted_keeps(c, s.skip(1));
        lemma_insert_sorted_shape(c, s.skip(1));
        crate::text::lemma_lex_le_total(c.name@, s[0].name@);
        let rr = insert_sorted(c, s.skip(1));
        assert forall|i: int, j: int| 0 <= i < j < r.len() implies lex_le(r[i].name@,
            r[j].name@) by {
            if i == 0 {
                assert(r[0] == s[0]);
                assert(r[j] == rr[j - 1]);
                if rr[j - 1] == c {
                    assert(lex_le(s[0].name@, c.name@));
                } else {
                    let m = choose|m: int| 0 <= m < s.skip(1).len() && rr[j - 1] == s.skip(1)[m];
                    assert(s.skip(1)[m] == s[m + 1]);
                    assert(lex_le(s[0].name@, s[m + 1].name@));
                }
            } else {
                assert(r[i] == rr[i - 1] && r[j] == rr[j - 1]);
            }
        }
    }
}

proof fn lemma_insort_upto_sorted(s: Seq<RawChild>, i: int)
    ensures
        sorted_by_name(insort_upto(s, i)),
    decreases i,
{
    if i <= 0 {
    } else {
        lemma_insort_upto_sorted(s, i - 1);
        lemma_insert_sorted_keeps(s[i - 1], insort_upto(s, i - 1));
    }
}

/// Siblings are visited in name order: the sequence `feed` takes a
/// listing's children in is sorted by name. With the pinned contracts of
/// `feed` and `next_step`, a walk's match sequence is the name-sorted
/// depth-first order — the same on every run over an unchanged tree.
pub proof fn lemma_sorted_children_sorted(s: Seq<RawChild>)
    ensures
        sorted_by_name(sorted_children(s)),
{
    lemma_insort_upto_sorted(s, s.len() as int);
}

proof fn lemma_insert_sorted_at(c: RawChild, s: Seq<RawChild>, k: int)
    requires
        0 <= k <= s.len(),
        forall|j: int| 0 <= j < k ==> !lex_le(c.name@, #[trigger] s[j].name@),
        k < s.len() ==> lex_le(c.name@, s[k].name@),
    ensures
        insert_sorted(c, s) == s.take(k) + seq![c] + s.skip(k),
    decreases k,
{
    if k == 0 {
        assert(insert_sorted(c, s) =~= s.take(0) + seq![c] + s.skip(0));
    } else {
        assert(!lex_le(c.name@, s[0].name@));
        assert(forall|j: int| 0 <= j < k - 1 ==> s.skip(1)[j] == s[j + 1]);
        if k - 1 < s.skip(1).len() {
            assert(s.skip(1)[k - 1] == s[k]);
        }
        lemma_insert_sorted_at(c, s.skip(1), k - 1);
        assert(insert_sorted(c, s) == seq![s[0]] + insert_sorted(c, s.skip(1)));
        assert(seq![s[0]] + (s.skip(1).take(k - 1) + seq![c] + s.skip(1).skip(k - 1)) =~= s.take(k)
            + seq![c] + s.skip(k));
    }
}

/// Inserts one child into a name-sorted vector, keeping the sort.
fn insert_child(out: &mut Vec<RawChild>, c: RawChild)
    ensures
        final(out)@ == insert_sorted(c, old(out)@),
{
    let mut k: usize = 0;
    while k < out.len() && !bytes_le(c.name.as_slice(), out[k].name.as_slice())
        invariant
            k <= out@.len(),
            forall|j: int| 0 <= j < k ==> !lex_le(c.name@, #[trigger] out@[j].name@),
            out@ == old(out)@,
        decreases out@.len() - k,
    {
        k += 1;
    }
    proof {
        lemma_insert_sorted_at(c, out@, k as int);
    }
    let ghost pre = out@;
    out.insert(k, c);
    proof {
        assert(out@ =~= pre.take(k as int) + seq![c] + pre.skip(k as int));
    }
}

/// Sorts a listing by name, the order in which siblings are visited.
fn sort_children(mut v: Vec<RawChild>) -> (r: Vec<RawChild>)
    ensures
        r@ == sorted_children(v@),
{
    let ghost s0 = v@;
    let n = v.len();
    let mut out: Vec<RawChild> = Vec::new();
    let mut i: usize = 0;
    while v.len() > 0
        invariant
            i <= n,
            n == s0.len(),
            v@ == s0.skip(i as int),
            out@ == insort_upto(s0, i as int),
        decreases v@.len(),
    {
        let c = v.remove(0);
        proof {
            assert(c == s0[i as int]);
            assert(v@ =~= s0.skip(i as int + 1));
        }
        insert_child(&mut out, c);
        i += 1;
    }
    proof {
        assert(s0.skip(s0.len() as int).len() == 0);
    }
    out
}

/// Well-formedness of one pending task against the engine's policy and
/// bookkeeping: a report never lies past the depth limit; a descent lies
/// strictly under it, and its canonical identity, where it carries one, was
/// claimed in `visited` and not yet handed out in `issued`.
pub open spec fn task_model_wf(
    t: TaskModel,
    limit: Option<usize>,
    visited: Seq<(u64, u64)>,
    issued: Seq<(u64, u64)>,
) -> bool {
    match t {
        TaskModel::Report(e) => match limit {
            Option::None => true,
            Option::Some(l) => e.depth <= l,
        },
        TaskModel::Descend(path, d, canon) => {
            &&& depth_lt(d, limit)
            &&& (canon is Some ==> visited.contains(canon.unwrap()) && !issued.contains(
                canon.unwrap(),
            ))
        },
    }
}

pub open spec fn task_canon(t: TaskModel) -> Option<(u64, u64)> {
    match t {
        TaskModel::Report(_) => Option::None,
        TaskModel::Descend(_, _, c) => c,
    }
}

/// All pending tasks are well formed, and no two descents claim the same
/// canonical identity.
pub open spec fn tasks_wf(
    ts: Seq<TaskModel>,
    limit: Option<usize>,
    visited: Seq<(u64, u64)>,
    issued: Seq<(u64, u64)>,
) -> bool {
    &&& forall|i: int| 0 <= i < ts.len() ==> task_model_wf(#[trigger] ts[i], limit, visited, issued)
    &&& forall|i: int, j: int|
        0 <= i < ts.len() && 0 <= j < ts.len() && i != j && #[trigger] task_canon(ts[i]) is Some
            && #[trigger] task_canon(ts[j]) is Some ==> task_canon(ts[i]) != task_canon(ts[j])
}

/// The traversal engine: a work stack, the canonical identities already
/// claimed for descent, the policy fields fixed at construction, and the
/// ghost record of listings already handed out.
pub struct Walker {
    pub stack: Vec<Task>,
    pub visited: Vec<(u64, u64)>,
    pub include_hidden: bool,
    pub follow: bool,
    pub depth_limit: Option<usize>,
    pub issued: Ghost<Seq<(u64, u64)>>,
}

fn id_seen(v: &Vec<(u64, u64)>, id: (u64, u64)) -> (r: bool)
    ensures
        r == v@.contains(id),
{
    let mut i: usize = 0;
    while i < v.len()
        invariant
            i <= v@.len(),
            forall|j: int| 0 <= j < i ==> v@[j] != id,
        decreases v@.len() - i,
    {
        let e = v[i];
        if e.0 == id.0 && e.1 == id.1 {
            proof {
                assert(v@[i as int] == id);
            }
            return true;
        }
        i += 1;
    }
    false
}

impl Walker {
    /// The stack as pending-task models, bottom first.
    pub open spec fn stack_model(self) -> Seq<TaskModel> {
        self.stack@.map_values(|t: Task| t@)
    }

    /// The engine's invariant: pending tasks respect the depth limit and the
    /// cycle bookkeeping, listings already handed out are pairwise distinct
    /// identities, and every identity handed out was first claimed.
    pub open spec fn wf(self) -> bool {
        &&& tasks_wf(self.stack_model(), self.depth_limit, self.visited@, self.issued@)
        &&& forall|i: int, j: int|
            0 <= i < j < self.issued@.len() ==> self.issued@[i] != self.issued@[j]
        &&& forall|i: int|
            0 <= i < self.issued@.len() ==> self.visited@.contains(#[trigger] self.issued@[i])
    }

    /// Starts a walk at `root` (depth 0). The root is listed — never emitted
    /// — provided depth 0 lies under the limit and, under the follow policy,
    /// its canonical identity is known; its identity is claimed at once, so
    /// a cycle of links leading back to the root is never re-entered.
    pub fn new(root: Vec<u8>, f: &FilterSpec, root_canon: Option<(u64, u64)>) -> (w: Walker)
        ensures
            w.wf(),
            w.include_hidden == f.include_hidden,
            w.follow == f.follow_symlinks,
            w.depth_limit == effective_depth(*f),
            w.issued@ == Seq::<(u64, u64)>::empty(),
            w.visited@ == match root_canon {
                Option::Some(id) => seq![id],
                Option::None => Seq::<(u64, u64)>::empty(),
            },
            w.stack_model() == if depth_lt(0, effective_depth(*f)) && (f.follow_symlinks
                ==> root_canon is Some) {
                seq![TaskModel::Descend(root@, 0, root_canon)]
            } else {
                Seq::<TaskModel>::empty()
            },
    {
        let limit: Option<usize> = if !f.recursive {
            Option::Some(1)
        } else {
            f.max_depth
        };
        let room = match limit {
            Option::None => true,
            Option::Some(l) => l > 0,
        };
        let descend_root = room && (!f.follow_symlinks || root_canon.is_some());
        let mut visited: Vec<(u64, u64)> = Vec::new();
        match root_canon {
            Option::Some(id) => visited.push(id),
            Option::None => {},
        }
        let mut stack: Vec<Task> = Vec::new();
        if descend_root {
            stack.push(Task::Descend { path: root, depth: 0, canon: root_canon });
        }
        let w = Walker {
            stack,
            visited,
            include_hidden: f.include_hidden,
            follow: f.follow_symlinks,
            depth_limit: limit,
            issued: Ghost(Seq::empty()),
        };
        proof {
            if descend_root {
                assert(w.stack_model() =~= seq![TaskModel::Descend(root@, 0, root_canon)]);
                match root_canon {
                    Option::Some(id) => {
                        assert(w.visited@[0] == id);
                        assert(w.visited@.contains(id));
                    },
                    Option::None => {},
                }
                assert(task_model_wf(w.stack_model()[0], limit, w.visited@, w.issued@));
            } else {
                assert(w.stack_model() =~= Seq::<TaskModel>::empty());
            }
        }
        w
    }

    /// Hands out the next unit of work, top of the stack first. A listing
    /// request never lies at or past the depth limit, and never carries a
    /// canonical identity that was already handed out: no directory is
    /// listed twice in one walk.
    pub fn next_step(&mut self) -> (r: Option<Step>)
        requires
            old(self).wf(),
        ensures
            final(self).wf(),
            final(self).include_hidden == old(self).include_hidden,
            final(self).follow == old(self).follow,
            final(self).depth_limit == old(self).depth_limit,
            final(self).visited@ == old(self).visited@,
            old(self).stack@.len() == 0 ==> r is None && final(self).stack@ == old(self).stack@
                && final(self).issued@ == old(self).issued@,
            old(self).stack@.len() > 0 ==> final(self).stack@ == old(self).stack@.drop_last()
                && match old(self).stack@.last()@ {
                TaskModel::Report(e) => (r matches Some(Step::Emit(ent)) && ent@ == e)
                    && final(self).issued@ == old(self).issued@,
                TaskModel::Descend(path, d, canon) => {
                    &&& (r matches Some(Step::NeedListing { path: p, depth: dd }) && p@ == path
                        && dd as int == d)
                    &&& depth_lt(d, old(self).depth_limit)
                    &&& (canon is Some ==> !old(self).issued@.contains(canon.unwrap()))
                    &&& final(self).issued@ == match canon {
                        Option::Some(id) => old(self).issued@.push(id),
                        Option::None => old(self).issued@,
                    }
                },
            },
    {
        let popped = self.stack.pop();
        match popped {
            Option::None => Option::None,
            Option::Some(Task::Report(e)) => {
                proof {
                    assert(old(self).stack_model().drop_last() =~= self.stack_model());
                }
                Option::Some(Step::Emit(e))
            },
            Option::Some(Task::Descend { path, depth, canon }) => {
                proof {
                    assert(old(self).stack_model().drop_last() =~= self.stack_model());
                    assert(old(self).stack_model().last() == TaskModel::Descend(
                        path@,
                        depth as int,
                        canon,
                    ));
                }
                match canon {
                    Option::Some(id) => {
                        proof {
                            let m = old(self).stack_model();
                            assert(task_model_wf(m[m.len() - 1], old(self).depth_limit,
                                old(self).visited@, old(self).issued@));
                        }
                        self.issued = Ghost(self.issued@.push(id));
                        proof {
                            let m = old(self).stack_model();
                            let iss0 = old(self).issued@;
                            // Remaining descents carried other identities, so
                            // none of them is in the grown issued record.
                            assert forall|i: int|
                                0 <= i < self.stack_model().len() implies task_model_wf(
                                #[trigger] self.stack_model()[i],
                                self.depth_limit,
                                self.visited@,
                                self.issued@,
                            ) by {
                                assert(self.stack_model()[i] == m[i]);
                                assert(task_model_wf(m[i], old(self).depth_limit, old(self).visited@,
                                    iss0));
                                if task_canon(m[i]) is Some {
                                    assert(task_canon(m[m.len() - 1]) == Option::Some(id));
                                    assert(task_canon(m[i]) != task_canon(m[m.len() - 1]));
                                }
                            }
                            assert forall|i: int|
                                0 <= i < self.issued@.len() implies self.visited@.contains(
                                #[trigger] self.issued@[i],
                            ) by {
                                if i < iss0.len() {
                                    assert(self.issued@[i] == iss0[i]);
                                } else {
                                    assert(self.issued@[i] == id);
                                    assert(self.visited@.contains(id));
                                }
                            }
                        }
                    },
                    Option::None => {},
                }
                Option::Some(Step::NeedListing { path, depth })
            },
        }
    }

    /// Takes one directory listing in: sorts the children by name, prunes
    /// hidden ones, schedules a report for each survivor in that order, and
    /// between a sub-directory's report and its siblings schedules its
    /// listing, so the walk is depth-first. What the listing contributes is
    /// a function of the engine's state and the listing alone.
    pub fn feed(&mut self, parent_path: &[u8], parent_depth: usize, children: Vec<RawChild>)
        requires
            old(self).wf(),
            depth_lt(parent_depth as int, old(self).depth_limit),
            parent_depth < usize::MAX,
        ensures
            final(self).wf(),
            final(self).include_hidden == old(self).include_hidden,
            final(self).follow == old(self).follow,
            final(self).depth_limit == old(self).depth_limit,
            final(self).issued@ == old(self).issued@,
            ({
                let (tasks, vis) = feed_result(
                    children@,
                    parent_path@,
                    parent_depth as int,
                    old(self).include_hidden,
                    old(self).follow,
                    old(self).depth_limit,
                    old(self).visited@,
                );
                final(self).stack_model() == old(self).stack_model() + tasks.reverse()
                    && final(self).visited@ == vis
            }),
    {
        let ghost pd: int = parent_depth as int;
        let ghost ih = self.include_hidden;
        let ghost fl = self.follow;
        let ghost lim = self.depth_limit;
        let mut sorted = sort_children(children);
        let ghost s0 = sorted@;
        let n = sorted.len();
        let mut tasks: Vec<Task> = Vec::new();
        proof {
            assert(tasks@.map_values(|t: Task| t@) =~= Seq::<TaskModel>::empty());
            assert(self.stack_model() + tasks@.map_values(|t: Task| t@) =~= self.stack_model());
        }
        let mut idx: usize = 0;
        while sorted.len() > 0
            invariant
                idx <= n,
                n == s0.len(),
                sorted@ == s0.skip(idx as int),
                parent_depth < usize::MAX,
                depth_lt(parent_depth as int, lim),
                pd == parent_depth as int,
                self.include_hidden == ih,
                self.follow == fl,
                self.depth_limit == lim,
                self.stack@ == old(self).stack@,
                self.issued@ == old(self).issued@,
                forall|i: int, j: int|
                    0 <= i < j < self.issued@.len() ==> self.issued@[i] != self.issued@[j],
                forall|i: int|
                    0 <= i < self.issued@.len() ==> self.visited@.contains(
                        #[trigger] self.issued@[i],
                    ),
                feed_loop(s0, idx as int, parent_path@, pd, ih, fl, lim,
                    tasks@.map_values(|t: Task| t@), self.visited@) == feed_loop(s0, 0,
                    parent_path@, pd, ih, fl, lim, Seq::<TaskModel>::empty(), old(self).visited@),
                tasks_wf(self.stack_model() + tasks@.map_values(|t: Task| t@), lim, self.visited@,
                    self.issued@),
            decreases sorted@.len(),
        {
            let ghost tasksm0 = tasks@.map_values(|t: Task| t@);
            let ghost vis0 = self.visited@;
            let c = sorted.remove(0);
            proof {
                assert(c == s0[idx as int]);
                assert(sorted@ =~= s0.skip(idx as int + 1));
            }
            let hidden_skip = !self.include_hidden && c.name.len() > 0 && c.name[0] == DOT;
            proof {
                assert(hidden_skip == skip_child(c, ih));
            }
            if !hidden_skip {
                let child_depth = parent_depth + 1;
                let depth_ok = match self.depth_limit {
                    Option::None => true,
                    Option::Some(l) => child_depth < l,
                };
                let follow_ok = match c.kind {
                    EntryKind::Symlink => self.follow,
                    _ => true,
                };
                let canon_ok = if self.follow {
                    match c.canon {
                        Option::Some(id) => !id_seen(&self.visited, id),
                        Option::None => false,
                    }
                } else {
                    true
                };
                let descend = c.dir_target && follow_ok && depth_ok && canon_ok;
                proof {
                    assert(descend == admits_descend(c, pd, lim, fl, self.visited@));
                }
                let path = join_path(parent_path, c.name.as_slice());
                let ghost em = child_model(parent_path@, pd, c);
                if descend {
                    let dpath = crate::text::copy_bytes(path.as_slice());
                    let canon = if self.follow {
                        c.canon
                    } else {
                        Option::None
                    };
                    match canon {
                        Option::Some(id) => self.visited.push(id),
                        Option::None => {},
                    }
                    let entry = FsEntry {
                        path,
                        name: c.name,
                        kind: c.kind,
                        size: c.size,
                        modified: c.modified,
                        depth: child_depth,
                    };
                    proof {
                        assert(entry@ == em);
                    }
                    tasks.push(Task::Report(entry));
                    tasks.push(Task::Descend { path: dpath, depth: child_depth, canon });
                    proof {
                        let dm = TaskModel::Descend(em.path, pd + 1, canon);
                        assert(tasks@.map_values(|t: Task| t@) =~= tasksm0 + seq![
                            TaskModel::Report(em),
                            dm,
                        ]);
                        // The grown visited set keeps every earlier identity.
                        assert forall|x: (u64, u64)| vis0.contains(x) implies self.visited@.contains(
                            x,
                        ) by {
                            let w = choose|w: int| 0 <= w < vis0.len() && vis0[w] == x;
                            assert(self.visited@[w] == x);
                        }
                        let comb0 = self.stack_model() + tasksm0;
                        let comb = self.stack_model() + tasks@.map_values(|t: Task| t@);
                        assert(comb =~= comb0 + seq![TaskModel::Report(em), dm]);
                        assert forall|i: int| 0 <= i < comb.len() implies task_model_wf(
                            #[trigger] comb[i],
                            lim,
                            self.visited@,
                            self.issued@,
                        ) by {
                            if i < comb0.len() {
                                assert(comb[i] == comb0[i]);
                                assert(task_model_wf(comb0[i], lim, vis0, self.issued@));
                            } else if i == comb0.len() {
                                assert(comb[i] == TaskModel::Report(em));
                            } else {
                                assert(comb[i] == dm);
                                match canon {
                                    Option::Some(id) => {
                                        assert(self.visited@.last() == id);
                                        assert(self.visited@.contains(id));
                                        assert(!vis0.contains(id));
                                        assert(!self.issued@.contains(id));
                                    },
                                    Option::None => {},
                                }
                            }
                        }
                        assert forall|i: int, j: int|
                            0 <= i < comb.len() && 0 <= j < comb.len() && i != j
                                && #[trigger] task_canon(comb[i]) is Some
                                && #[trigger] task_canon(comb[j]) is Some implies task_canon(
                            comb[i],
                        ) != task_canon(comb[j]) by {
                            if i < comb0.len() && j < comb0.len() {
                                assert(comb[i] == comb0[i] && comb[j] == comb0[j]);
                            } else {
                                // At most one of the two new tasks carries an
                                // identity, and it is fresh for vis0 while
                                // every older one lies in vis0.
                                if i >= comb0.len() {
                                    assert(comb[i] == dm || comb[i] == TaskModel::Report(em));
                                }
                                if j >= comb0.len() {
                                    assert(comb[j] == dm || comb[j] == TaskModel::Report(em));
                                }
                                if i < comb0.len() {
                                    assert(task_model_wf(comb0[i], lim, vis0, self.issued@));
                                }
                                if j < comb0.len() {
                                    assert(task_model_wf(comb0[j], lim, vis0, self.issued@));
                                }
                            }
                        }
                        assert(feed_loop(s0, idx as int, parent_path@, pd, ih, fl, lim, tasksm0,
                            vis0) == feed_loop(s0, idx as int + 1, parent_path@, pd, ih, fl, lim,
                            tasksm0 + seq![TaskModel::Report(em), dm], self.visited@));
                    }
                } else {
                    let entry = FsEntry {
                        path,
                        name: c.name,
                        kind: c.kind,
                        size: c.size,
                        modified: c.modified,
                        depth: child_depth,
                    };
                    proof {
                        assert(entry@ == em);
                    }
                    tasks.push(Task::Report(entry));
                    proof {
                        assert(tasks@.map_values(|t: Task| t@) =~= tasksm0.push(
                            TaskModel::Report(em),
                        ));
                        let comb0 = self.stack_model() + tasksm0;
                        let comb = self.stack_model() + tasks@.map_values(|t: Task| t@);
                        assert(comb =~= comb0.push(TaskModel::Report(em)));
                        assert forall|i: int| 0 <= i < comb.len() implies task_model_wf(
                            #[trigger] comb[i],
                            lim,
                            self.visited@,
                            self.issued@,
                        ) by {
                            if i < comb0.len() {
                                assert(comb[i] == comb0[i]);
                            } else {
                                assert(comb[i] == TaskModel::Report(em));
                            }
                        }
                        assert forall|i: int, j: int|
                            0 <= i < comb.len() && 0 <= j < comb.len() && i != j
                                && #[trigger] task_canon(comb[i]) is Some
                                && #[trigger] task_canon(comb[j]) is Some implies task_canon(
                            comb[i],
                        ) != task_canon(comb[j]) by {
                            if i < comb0.len() && j < comb0.len() {
                                assert(comb[i] == comb0[i] && comb[j] == comb0[j]);
                            }
                        }
                        assert(feed_loop(s0, idx as int, parent_path@, pd, ih, fl, lim, tasksm0,
                            vis0) == feed_loop(s0, idx as int + 1, parent_path@, pd, ih, fl, lim,
                            tasksm0.push(TaskModel::Report(em)), self.visited@));
                    }
                }
            }
            idx += 1;
        }
        proof {
            assert(idx == n);
            assert(feed_loop(s0, n as int, parent_path@, pd, ih, fl, lim,
                tasks@.map_values(|t: Task| t@), self.visited@) == (
            tasks@.map_values(|t: Task| t@), self.visited@));
        }
        let ghost ftasks = tasks@.map_values(|t: Task| t@);
        let ghost fvis = self.visited@;
        while tasks.len() > 0
            invariant
                self.include_hidden == ih,
                self.follow == fl,
                self.depth_limit == lim,
                self.issued@ == old(self).issued@,
                self.visited@ == fvis,
                forall|i: int, j: int|
                    0 <= i < j < self.issued@.len() ==> self.issued@[i] != self.issued@[j],
                forall|i: int|
                    0 <= i < self.issued@.len() ==> self.visited@.contains(
                        #[trigger] self.issued@[i],
                    ),
                tasks@.len() <= ftasks.len(),
                tasks@.map_values(|t: Task| t@) == ftasks.take(tasks@.len() as int),
                self.stack_model() == old(self).stack_model() + ftasks.skip(
                    tasks@.len() as int,
                ).reverse(),
                tasks_wf(self.stack_model() + tasks@.map_values(|t: Task| t@), lim, self.visited@,
                    self.issued@),
            decreases tasks@.len(),
        {
            let ghost k = tasks@.len() as int;
            let ghost stack0 = self.stack_model();
            let ghost tasksm0 = tasks@.map_values(|t: Task| t@);
            let t = tasks.pop().unwrap();
            self.stack.push(t);
            proof {
                assert(tasksm0.len() == k);
                assert(t@ == tasksm0[k - 1]);
                assert(tasksm0 == ftasks.take(k));
                assert(ftasks.take(k)[k - 1] == ftasks[k - 1]);
                assert(t@ == ftasks[k - 1]);
                assert(tasks@.map_values(|t: Task| t@) =~= ftasks.take(k - 1));
                assert(self.stack_model() =~= stack0.push(t@));
                assert(ftasks.skip(k - 1).reverse() =~= ftasks.skip(k).reverse().push(
                    ftasks[k - 1],
                ));
                let comb0 = stack0 + tasksm0;
                let comb = self.stack_model() + tasks@.map_values(|t: Task| t@);
                assert(comb.len() == comb0.len());
                let sl = stack0.len() as int;
                assert forall|i: int| 0 <= i < comb.len() implies comb[i] == comb0[
                    if i < sl {
                        i
                    } else if i == sl {
                        comb0.len() - 1
                    } else {
                        i - 1
                    }
                ] by {
                    if i < sl {
                        assert(comb[i] == stack0[i]);
                    } else if i == sl {
                        assert(comb[i] == t@);
                        assert(comb0[comb0.len() - 1] == tasksm0[k - 1]);
                        assert(tasksm0[k - 1] == ftasks[k - 1]);
                    } else {
                        assert(comb[i] == tasks@.map_values(|t: Task| t@)[i - sl - 1]);
                        assert(comb0[i - 1] == tasksm0[i - sl - 1]);
                    }
                }
                assert forall|i: int| 0 <= i < comb.len() implies task_model_wf(
                    #[trigger] comb[i],
                    lim,
                    self.visited@,
                    self.issued@,
                ) by {
                    let m = if i < sl {
                        i
                    } else if i == sl {
                        comb0.len() - 1
                    } else {
                        i - 1
                    };
                    assert(comb[i] == comb0[m]);
                    assert(task_model_wf(comb0[m], lim, self.visited@, self.issued@));
                }
                assert forall|i: int, j: int|
                    0 <= i < comb.len() && 0 <= j < comb.len() && i != j
                        && #[trigger] task_canon(comb[i]) is Some
                        && #[trigger] task_canon(comb[j]) is Some implies task_canon(comb[i])
                    != task_canon(comb[j]) by {
                    let mi = if i < sl {
                        i
                    } else if i == sl {
                        comb0.len() - 1
                    } else {
                        i - 1
                    };
                    let mj = if j < sl {
                        j
                    } else if j == sl {
                        comb0.len() - 1
                    } else {
                        j - 1
                    };
                    assert(comb[i] == comb0[mi] && comb[j] == comb0[mj]);
                    assert(mi != mj);
                }
            }
        }
        proof {
            assert(ftasks.skip(0).reverse() == ftasks.reverse());
            assert(ftasks.skip(0) =~= ftasks);
            assert(tasks@.map_values(|t: Task| t@).len() == 0);
        }
    }
}

/// A child's path built in executable code.
fn join_path(parent: &[u8], name: &[u8]) -> (r: Vec<u8>)
    ensures
        r@ == joined(parent@, name@),
{
    let mut out = crate::text::copy_bytes(parent);
    out.push(SEPARATOR);
    let mut i: usize = 0;
    while i < name.len()
        invariant
            i <= name@.len(),
            out@ == parent@ + seq![SEPARATOR] + name@.take(i as int),
        decreases name@.len() - i,
    {
        out.push(name[i]);
        proof {
            assert(parent@ + seq![SEPARATOR] + name@.take(i as int + 1) =~= (parent@ + seq![
                SEPARATOR,
            ] + name@.take(i as int)).push(name@[i as int]));
        }
        i += 1;
    }
    proof {
        assert(name@.take(name@.len() as int) =~= name@);
    }
    out
}

/// The tasks a listing contributes and the visited set after it, children
/// taken in order from position `i` on. A hidden child is pruned whole; any
/// other child is reported, and a child the policy admits is also scheduled
/// for descent, claiming its canonical identity at once (identities are
/// carried only under the follow policy).
pub open spec fn feed_loop(
    cs: Seq<RawChild>,
    i: int,
    parent: Seq<u8>,
    pd: int,
    include_hidden: bool,
    follow: bool,
    limit: Option<usize>,
    tasks: Seq<TaskModel>,
    visited: Seq<(u64, u64)>,
) -> (Seq<TaskModel>, Seq<(u64, u64)>)
    decreases cs.len() - i,
{
    if i < 0 || i >= cs.len() {
        (tasks, visited)
    } else {
        let c = cs[i];
        if skip_child(c, include_hidden) {
            feed_loop(cs, i + 1, parent, pd, include_hidden, follow, limit, tasks, visited)
        } else {
            let em = child_model(parent, pd, c);
            if admits_descend(c, pd, limit, follow, visited) {
                let cc = if follow {
                    c.canon
                } else {
                    Option::<(u64, u64)>::None
                };
                feed_loop(
                    cs,
                    i + 1,
                    parent,
                    pd,
                    include_hidden,
                    follow,
                    limit,
                    tasks + seq![
                        TaskModel::Report(em),
                        TaskModel::Descend(em.path, pd + 1, cc),
                    ],
                    match cc {
                        Option::Some(id) => visited.push(id),
                        Option::None => visited,
                    },
                )
            } else {
                feed_loop(
                    cs,
                    i + 1,
                    parent,
                    pd,
                    include_hidden,
                    follow,
                    limit,
                    tasks.push(TaskModel::Report(em)),
                    visited,
                )
            }
        }
    }
}

/// What one listing does to the walk: its children sorted by name, then
/// taken through `feed_loop` from a clean slate.
pub open spec fn feed_result(
    cs: Seq<RawChild>,
    parent: Seq<u8>,
    pd: int,
    include_hidden: bool,
    follow: bool,
    limit: Option<usize>,
    visited: Seq<(u64, u64)>,
) -> (Seq<TaskModel>, Seq<(u64, u64)>) {
    feed_loop(
        sorted_children(cs),
        0,
        parent,
        pd,
        include_hidden,
        follow,
        limit,
        Seq::empty(),
        visited,
    )
}

/// Traversal is deterministic: what a listing contributes is a function of
/// the engine's configuration, its visited set and the listing alone, and
/// the next step is a function of the stack alone. Two walks that start
/// alike and read an unchanged tree alike therefore yield identical match
/// sequences.
pub proof fn lemma_walk_deterministic(
    w1: Walker,
    w2: Walker,
    cs: Seq<RawChild>,
    parent: Seq<u8>,
    pd: int,
)
    requires
        w1.stack_model() == w2.stack_model(),
        w1.visited@ == w2.visited@,
        w1.include_hidden == w2.include_hidden,
        w1.follow == w2.follow,
        w1.depth_limit == w2.depth_limit,
    ensures
        feed_result(cs, parent, pd, w1.include_hidden, w1.follow, w1.depth_limit, w1.visited@)
            == feed_result(cs, parent, pd, w2.include_hidden, w2.follow, w2.depth_limit,
        w2.visited@),
        w1.stack_model().len() > 0 ==> w1.stack_model().last() == w2.stack_model().last(),
{
}

} // verus!
