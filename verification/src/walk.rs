//! The two walks of the tree materialiser as work lists. A walk says which
//! directory is to be read next; the caller reads it and hands back what it
//! holds; the walk answers with what is to be done to each entry and keeps
//! the directories that are to be read later.

use vstd::prelude::*;
use crate::builtin::{builtin_views, Context};
use crate::config::present_views;
use crate::engine::Reframe;
use crate::param::param_views;
use crate::path::{join_path, joined};
use crate::text::texts;
use crate::tree::{
    copy_decision, process_decision, CopyAction, ProcessAction, ProcessPlan, ProcessPlanView,
};

verus! {

/// An entry of a directory, as a listing gives it.
#[derive(Clone, Debug, PartialEq, Eq)]
pub struct Entry {
    pub name: String,
    pub is_dir: bool,
}

/// The mathematical content of an [`Entry`].
pub struct EntryView {
    pub name: Seq<char>,
    pub is_dir: bool,
}

impl View for Entry {
    type V = EntryView;

    open spec fn view(&self) -> EntryView {
        EntryView { name: self.name@, is_dir: self.is_dir }
    }
}

/// The views of the entries in `entries`.
pub open spec fn entry_views(entries: Seq<Entry>) -> Seq<EntryView> {
    entries.map_values(|e: Entry| e@)
}

// ---------------------------------------------------------------------------
// The copy pass
// ---------------------------------------------------------------------------

/// One step of the copy pass. The path is relative to the root of the
/// template, and so to the root of the output.
#[derive(Clone, Debug, PartialEq, Eq)]
pub enum CopyOp {
    /// The directory is created in the output.
    MakeDir { path: String },
    /// The file is copied to the output.
    CopyFile { path: String },
}

/// The mathematical content of a [`CopyOp`].
pub enum CopyOpView {
    MakeDir { path: Seq<char> },
    CopyFile { path: Seq<char> },
}

impl View for CopyOp {
    type V = CopyOpView;

    open spec fn view(&self) -> CopyOpView {
        match self {
            CopyOp::MakeDir { path } => CopyOpView::MakeDir { path: path@ },
            CopyOp::CopyFile { path } => CopyOpView::CopyFile { path: path@ },
        }
    }
}

/// The views of the steps in `ops`.
pub open spec fn copy_op_views(ops: Seq<CopyOp>) -> Seq<CopyOpView> {
    ops.map_values(|op: CopyOp| op@)
}

/// What the copy pass of `run` does with the entry at `path`.
pub open spec fn copies(run: Reframe, path: Seq<char>, is_dir: bool) -> CopyAction {
    copy_decision(
        run.config.project@,
        present_views(run.config.presents@),
        param_views(run.param@),
        path,
        is_dir,
    )
}

/// The steps for the entries of the directory `dir`, in order: nothing for
/// an entry that is skipped.
pub open spec fn copy_ops(run: Reframe, dir: Seq<char>, entries: Seq<EntryView>) -> Seq<
    CopyOpView,
>
    decreases entries.len(),
{
    if entries.len() == 0 {
        Seq::empty()
    } else {
        let before = copy_ops(run, dir, entries.drop_last());
        let path = joined(dir, entries.last().name);
        match copies(run, path, entries.last().is_dir) {
            CopyAction::Skip => before,
            CopyAction::Descend => before.push(CopyOpView::MakeDir { path }),
            CopyAction::CopyFile => before.push(CopyOpView::CopyFile { path }),
        }
    }
}

/// The directories among the entries of `dir` that are descended into.
pub open spec fn copy_descents(run: Reframe, dir: Seq<char>, entries: Seq<EntryView>) -> Seq<
    Seq<char>,
>
    decreases entries.len(),
{
    if entries.len() == 0 {
        Seq::empty()
    } else {
        let before = copy_descents(run, dir, entries.drop_last());
        let path = joined(dir, entries.last().name);
        match copies(run, path, entries.last().is_dir) {
            CopyAction::Descend => before.push(path),
            _ => before,
        }
    }
}

/// Whether the copy pass of `run` may read the directory at `path`: it is
/// the root of the template, or a directory that the pass descends into.
pub open spec fn may_read(run: Reframe, path: Seq<char>) -> bool {
    path.len() == 0 || copies(run, path, true) == CopyAction::Descend
}

/// The copy pass reads only directories that it descends into.
pub proof fn lemma_descents_may_be_read(run: Reframe, dir: Seq<char>, entries: Seq<EntryView>)
    ensures
        forall|i: int|
            0 <= i < copy_descents(run, dir, entries).len() ==> may_read(
                run,
                #[trigger] copy_descents(run, dir, entries)[i],
            ),
    decreases entries.len(),
{
    if entries.len() > 0 {
        lemma_descents_may_be_read(run, dir, entries.drop_last());
        let before = copy_descents(run, dir, entries.drop_last());
        let all = copy_descents(run, dir, entries);
        let path = joined(dir, entries.last().name);
        assert forall|i: int| 0 <= i < all.len() implies may_read(run, #[trigger] all[i]) by {
            if i < before.len() {
                assert(all[i] == before[i]);
            } else {
                assert(all[i] == path);
                assert(copies(run, path, entries.last().is_dir) == CopyAction::Descend);
                assert(entries.last().is_dir);
            }
        }
    }
}

/// The work list of the copy pass: the directories still to be read, as
/// paths relative to the root of the template. The root is the empty path.
#[derive(Clone, Debug, PartialEq, Eq)]
pub struct CopyWalk {
    pub pending: Vec<String>,
}

impl CopyWalk {
    /// Whether every directory on the list may be read by the copy pass of
    /// `run`.
    pub open spec fn admitted(&self, run: Reframe) -> bool {
        forall|i: int| 0 <= i < self.pending@.len() ==> may_read(run, #[trigger] self.pending@[i]@)
    }

    /// The walk that has the root of the template to read.
    pub fn new() -> (r: CopyWalk)
        ensures
            texts(r.pending@) == seq![Seq::<char>::empty()],
            forall|run: Reframe| r.admitted(run),
    {
        let mut pending: Vec<String> = Vec::new();
        pending.push(String::new());
        assert(texts(pending@) =~= seq![Seq::<char>::empty()]);
        CopyWalk { pending }
    }

    /// The directory to read next: the one that was put on the list last.
    /// `None` where the walk is over.
    pub fn next(&mut self) -> (r: Option<String>)
        ensures
            match r {
                Some(dir) => old(self).pending@.len() > 0 && dir == old(self).pending@.last()
                    && final(self).pending@ == old(self).pending@.drop_last(),
                None => old(self).pending@.len() == 0 && final(self).pending@.len() == 0,
            },
            forall|run: Reframe|
                old(self).admitted(run) ==> final(self).admitted(run) && (r matches Some(dir)
                    ==> may_read(run, dir@)),
    {
        self.pending.pop()
    }

    /// Takes the entries of the directory `dir` and says what is to be done:
    /// each entry that is not skipped is copied, or, a directory, created and
    /// put on the list.
    pub fn visit(&mut self, run: &Reframe, dir: &str, entries: &[Entry]) -> (r: Vec<CopyOp>)
        ensures
            copy_op_views(r@) == copy_ops(*run, dir@, entry_views(entries@)),
            texts(final(self).pending@) == texts(old(self).pending@) + copy_descents(
                *run,
                dir@,
                entry_views(entries@),
            ),
            old(self).admitted(*run) ==> final(self).admitted(*run),
    {
        let mut ops: Vec<CopyOp> = Vec::new();
        let ghost all = entry_views(entries@);
        let ghost start = texts(self.pending@);
        let mut i: usize = 0;
        assert(all.take(0) =~= Seq::<EntryView>::empty());
        assert(copy_op_views(ops@) =~= Seq::<CopyOpView>::empty());
        assert(texts(self.pending@) =~= start + Seq::<Seq<char>>::empty());
        while i < entries.len()
            invariant
                i <= entries.len(),
                all == entry_views(entries@),
                copy_op_views(ops@) == copy_ops(*run, dir@, all.take(i as int)),
                texts(self.pending@) == start + copy_descents(*run, dir@, all.take(i as int)),
            decreases entries.len() - i,
        {
            let ghost next = all.take(i + 1);
            assert(next.drop_last() =~= all.take(i as int));
            assert(next.last() == entries@[i as int]@);
            let ghost ops_before = copy_op_views(ops@);
            let ghost pending_before = texts(self.pending@);
            let path = join_path(dir, entries[i].name.as_str());
            match run.copy_action(path.as_str(), entries[i].is_dir) {
                CopyAction::Skip => {},
                CopyAction::Descend => {
                    self.pending.push(path.clone());
                    assert(texts(self.pending@) =~= pending_before.push(path@));
                    ops.push(CopyOp::MakeDir { path });
                    assert(copy_op_views(ops@) =~= ops_before.push(
                        CopyOpView::MakeDir { path: path@ },
                    ));
                },
                CopyAction::CopyFile => {
                    ops.push(CopyOp::CopyFile { path });
                    assert(copy_op_views(ops@) =~= ops_before.push(
                        CopyOpView::CopyFile { path: path@ },
                    ));
                },
            }
            i += 1;
        }
        assert(all.take(entries.len() as int) =~= all);
        proof {
            lemma_descents_may_be_read(*run, dir@, all);
            if old(self).admitted(*run) {
                let added = copy_descents(*run, dir@, all);
                assert forall|k: int| 0 <= k < self.pending@.len() implies may_read(
                    *run,
                    #[trigger] self.pending@[k]@,
                ) by {
                    assert(texts(self.pending@)[k] == self.pending@[k]@);
                    if k < start.len() {
                        assert(texts(old(self).pending@)[k] == old(self).pending@[k]@);
                    } else {
                        assert(self.pending@[k]@ == added[k - start.len()]);
                    }
                }
            }
        }
        ops
    }
}

// ---------------------------------------------------------------------------
// The process pass
// ---------------------------------------------------------------------------

/// A piece of work of the process pass.
#[derive(Clone, Debug, PartialEq, Eq)]
pub enum Work {
    /// The directory at `dir` is to be read.
    Read { dir: String },
    /// The directory at `from`, whose entries are done, gets the name `name`.
    Rename { from: String, name: String },
}

/// The mathematical content of a [`Work`].
pub enum WorkView {
    Read { dir: Seq<char> },
    Rename { from: Seq<char>, name: Seq<char> },
}

impl View for Work {
    type V = WorkView;

    open spec fn view(&self) -> WorkView {
        match self {
            Work::Read { dir } => WorkView::Read { dir: dir@ },
            Work::Rename { from, name } => WorkView::Rename { from: from@, name: name@ },
        }
    }
}

/// The views of the pieces of work in `work`.
pub open spec fn work_views(work: Seq<Work>) -> Seq<WorkView> {
    work.map_values(|w: Work| w@)
}

/// What is done to one entry when its directory is read: it is renamed from
/// `from` to the path of the plan where the plan says so; a file is then
/// left alone or rewritten, and gets its final name where the plan has one.
/// A directory is put on the work list.
#[derive(Clone, Debug, PartialEq, Eq)]
pub struct ProcessStep {
    pub from: String,
    pub plan: ProcessPlan,
}

/// The mathematical content of a [`ProcessStep`].
pub struct ProcessStepView {
    pub from: Seq<char>,
    pub plan: ProcessPlanView,
}

impl View for ProcessStep {
    type V = ProcessStepView;

    open spec fn view(&self) -> ProcessStepView {
        ProcessStepView { from: self.from@, plan: self.plan@ }
    }
}

/// The views of the steps in `steps`.
pub open spec fn step_views(steps: Seq<ProcessStep>) -> Seq<ProcessStepView> {
    steps.map_values(|s: ProcessStep| s@)
}

/// What the process pass of `run` does with the entry at `path`.
pub open spec fn processes(run: Reframe, path: Seq<char>, is_dir: bool, ctx: Context)
    -> ProcessPlanView {
    process_decision(
        path,
        is_dir,
        run.config.project@,
        param_views(run.param@),
        builtin_views(run.builtin_vars@),
        ctx,
    )
}

/// The step for one entry of the directory `dir`. The final name of a
/// directory is not part of the step: the directory is renamed when its
/// entries are done.
pub open spec fn step_for(run: Reframe, dir: Seq<char>, e: EntryView, ctx: Context)
    -> ProcessStepView {
    let from = joined(dir, e.name);
    let plan = processes(run, from, e.is_dir, ctx);
    ProcessStepView {
        from,
        plan: ProcessPlanView {
            path: plan.path,
            renamed: plan.renamed,
            action: plan.action,
            final_name: if plan.action == ProcessAction::Descend {
                None
            } else {
                plan.final_name
            },
        },
    }
}

/// The steps for the entries of the directory `dir`, in order.
pub open spec fn process_steps(
    run: Reframe,
    dir: Seq<char>,
    entries: Seq<EntryView>,
    ctx: Context,
) -> Seq<ProcessStepView> {
    entries.map_values(|e: EntryView| step_for(run, dir, e, ctx))
}

/// The work that the entries of the directory `dir` leave: for each
/// directory among them, in order, first its renaming, where it gets another
/// name, and on top of that its reading.
pub open spec fn process_work(
    run: Reframe,
    dir: Seq<char>,
    entries: Seq<EntryView>,
    ctx: Context,
) -> Seq<WorkView>
    decreases entries.len(),
{
    if entries.len() == 0 {
        Seq::empty()
    } else {
        let before = process_work(run, dir, entries.drop_last(), ctx);
        let plan = processes(run, joined(dir, entries.last().name), entries.last().is_dir, ctx);
        if plan.action == ProcessAction::Descend {
            match plan.final_name {
                Some(name) => before.push(WorkView::Rename { from: plan.path, name }).push(
                    WorkView::Read { dir: plan.path },
                ),
                None => before.push(WorkView::Read { dir: plan.path }),
            }
        } else {
            before
        }
    }
}

/// The work list of the process pass. The piece of work that was put on it
/// last is done first, so that a directory is renamed only when all below it
/// is done.
#[derive(Clone, Debug, PartialEq, Eq)]
pub struct ProcessWalk {
    pub pending: Vec<Work>,
}

impl ProcessWalk {
    /// The walk that has the directory `root` to read.
    pub fn new(root: &str) -> (r: ProcessWalk)
        ensures
            work_views(r.pending@) == seq![WorkView::Read { dir: root@ }],
    {
        let mut pending: Vec<Work> = Vec::new();
        pending.push(Work::Read { dir: root.to_owned() });
        assert(work_views(pending@) =~= seq![WorkView::Read { dir: root@ }]);
        ProcessWalk { pending }
    }

    /// The piece of work to do next: the one that was put on the list last.
    /// `None` where the walk is over.
    pub fn next(&mut self) -> (r: Option<Work>)
        ensures
            match r {
                Some(work) => old(self).pending@.len() > 0 && work == old(self).pending@.last()
                    && final(self).pending@ == old(self).pending@.drop_last(),
                None => old(self).pending@.len() == 0 && final(self).pending@.len() == 0,
            },
    {
        self.pending.pop()
    }

    /// Takes the entries of the directory `dir` and says what is to be done
    /// to each; the directories among them are put on the list.
    pub fn visit(&mut self, run: &Reframe, dir: &str, entries: &[Entry], ctx: &Context) -> (r:
        Vec<ProcessStep>)
        ensures
            step_views(r@) == process_steps(*run, dir@, entry_views(entries@), *ctx),
            work_views(final(self).pending@) == work_views(old(self).pending@) + process_work(
                *run,
                dir@,
                entry_views(entries@),
                *ctx,
            ),
    {
        let mut steps: Vec<ProcessStep> = Vec::new();
        let ghost all = entry_views(entries@);
        let ghost start = work_views(self.pending@);
        let mut i: usize = 0;
        assert(all.take(0) =~= Seq::<EntryView>::empty());
        assert(work_views(self.pending@) =~= start + Seq::<WorkView>::empty());
        while i < entries.len()
            invariant
                i <= entries.len(),
                all == entry_views(entries@),
                steps@.len() == i,
                forall|k: int| 0 <= k < i ==> (#[trigger] steps@[k])@ == step_for(
                    *run,
                    dir@,
                    all[k],
                    *ctx,
                ),
                work_views(self.pending@) == start + process_work(
                    *run,
                    dir@,
                    all.take(i as int),
                    *ctx,
                ),
            decreases entries.len() - i,
        {
            let ghost next = all.take(i + 1);
            assert(next.drop_last() =~= all.take(i as int));
            assert(next.last() == entries@[i as int]@);
            assert(all[i as int] == entries@[i as int]@);
            let ghost before = work_views(self.pending@);
            let from = join_path(dir, entries[i].name.as_str());
            let plan = run.process_plan(from.as_str(), entries[i].is_dir, ctx);
            let step = match plan.action {
                ProcessAction::Descend => {
                    match &plan.final_name {
                        Some(name) => {
                            self.pending.push(
                                Work::Rename { from: plan.path.clone(), name: name.clone() },
                            );
                            self.pending.push(Work::Read { dir: plan.path.clone() });
                            assert(work_views(self.pending@) =~= before.push(
                                WorkView::Rename { from: plan.path@, name: name@ },
                            ).push(WorkView::Read { dir: plan.path@ }));
                        },
                        None => {
                            self.pending.push(Work::Read { dir: plan.path.clone() });
                            assert(work_views(self.pending@) =~= before.push(
                                WorkView::Read { dir: plan.path@ },
                            ));
                        },
                    }
                    ProcessStep {
                        from,
                        plan: ProcessPlan {
                            path: plan.path,
                            renamed: plan.renamed,
                            action: plan.action,
                            final_name: None,
                        },
                    }
                },
                _ => ProcessStep { from, plan },
            };
            steps.push(step);
            i += 1;
        }
        assert(all.take(entries.len() as int) =~= all);
        assert(step_views(steps@) =~= process_steps(*run, dir@, all, *ctx));
        steps
    }
}

} // verus!
