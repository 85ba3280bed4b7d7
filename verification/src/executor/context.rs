//! What the walk knows about the run it is part of.

use vstd::prelude::*;

use crate::adapter;
use crate::adapter::position_of;
use crate::executor::position::WalkPosition;
use crate::executor::source::WorkloadSource;
use crate::model::{ExecDepth, WorkloadPhase};
use crate::strmap::StrMap;
use crate::text;
use crate::text::{str_eq, u64_text};

verus! {

/// The phases that a filter selects, by name.
#[derive(Debug, Clone, PartialEq)]
pub struct PhaseFilter {
    pub selected: Vec<String>,
}

pub open spec fn selects(f: PhaseFilter, name: Seq<char>) -> bool {
    adapter::has_text(f.selected@, name)
}

impl PhaseFilter {
    pub fn is_match(&self, name: &str) -> (r: bool)
        ensures
            r == selects(*self, name@),
    {
        position_of(&self.selected, name).is_some()
    }
}

/// Which phases a refining run looks at again.
#[derive(Debug, Clone, Copy, PartialEq, Eq, Structural)]
pub enum RefineScope {
    /// Those without a completed outcome.
    Missing,
    /// Those whose definition changed.
    Changed,
    /// All of them.
    All,
}

/// A refining run: its scope, and the phases that completed before, by name and
/// labels.
#[derive(Debug, Clone, PartialEq)]
pub struct RefinePlan {
    pub scope: RefineScope,
    pub completed: Vec<(String, String)>,
}

pub open spec fn completed_before(p: RefinePlan, name: Seq<char>, labels: Seq<char>) -> bool {
    exists|i: int|
        0 <= i < p.completed@.len() && (#[trigger] p.completed@[i]).0@ == name
            && p.completed@[i].1@ == labels
}

impl RefinePlan {
    pub fn is_completed(&self, name: &str, labels: &str) -> (r: bool)
        ensures
            r == completed_before(*self, name@, labels@),
    {
        let mut i: usize = 0;
        while i < self.completed.len()
            invariant
                i <= self.completed@.len(),
                forall|k: int|
                    0 <= k < i ==> !((#[trigger] self.completed@[k]).0@ == name@
                        && self.completed@[k].1@ == labels@),
            decreases self.completed@.len() - i,
        {
            if str_eq(self.completed[i].0.as_str(), name) && str_eq(
                self.completed[i].1.as_str(),
                labels,
            ) {
                return true;
            }
            i += 1;
        }
        false
    }
}

/// The context of the recursive walk.
pub struct ExecCtx {
    pub session_id: String,
    pub exec_id: u64,
    pub workload_name: String,
    pub workload_source: Option<WorkloadSource>,
    pub workload_params: StrMap<String>,
    pub phases: StrMap<WorkloadPhase>,
    pub phase_filter: Option<PhaseFilter>,
    pub refine_plan: Option<RefinePlan>,
    pub depth: ExecDepth,
    /// The walk only maps the structure; nothing counts as done.
    pub pre_map_only: bool,
    pub strict: bool,
    /// A full-screen display shows what happens; nothing goes to stderr.
    pub suppresses_stderr: bool,
    /// The labels pushed on the way down, outermost first.
    pub label_stack: Vec<(String, String)>,
    pub position: WalkPosition,
}

/// A list of labels as characters.
pub open spec fn label_views(v: Seq<(String, String)>) -> Seq<(Seq<char>, Seq<char>)> {
    v.map_values(|l: (String, String)| (l.0@, l.1@))
}

impl ExecCtx {
    pub open spec fn wf(self) -> bool {
        self.phases.wf() && self.workload_params.wf()
    }

    /// The labels that every metric of the run inherits.
    pub open spec fn base_labels(self) -> Seq<(Seq<char>, Seq<char>)> {
        seq![
            ("session"@, self.session_id@),
            ("exec_id"@, text::decimal(self.exec_id as nat)),
            ("workload"@, self.workload_name@),
        ]
    }

    /// All labels in force: those of the run, then those pushed.
    pub fn labels(&self) -> (r: Vec<(String, String)>)
        ensures
            label_views(r@) == self.base_labels() + label_views(self.label_stack@),
    {
        let mut r: Vec<(String, String)> = Vec::new();
        r.push(("session".to_owned(), self.session_id.clone()));
        r.push(("exec_id".to_owned(), u64_text(self.exec_id)));
        r.push(("workload".to_owned(), self.workload_name.clone()));
        assert(label_views(r@) =~= self.base_labels());
        append_labels(&mut r, &self.label_stack);
        r
    }

    /// The labels owned at this depth: those pushed.
    pub fn incremental_labels(&self) -> (r: Vec<(String, String)>)
        ensures
            label_views(r@) == label_views(self.label_stack@),
    {
        let mut r: Vec<(String, String)> = Vec::new();
        append_labels(&mut r, &self.label_stack);
        assert(label_views(r@) =~= label_views(self.label_stack@));
        r
    }

    pub fn push_label(&mut self, key: &str, value: &str)
        ensures
            *final(self) == (ExecCtx { label_stack: final(self).label_stack, ..*old(self) }),
            label_views(final(self).label_stack@) == label_views(old(self).label_stack@).push(
                (key@, value@),
            ),
            final(self).label_stack@.len() == old(self).label_stack@.len() + 1,
            final(self).label_stack@.drop_last() == old(self).label_stack@,
    {
        self.label_stack.push((key.to_owned(), value.to_owned()));
        assert(label_views(self.label_stack@) =~= label_views(old(self).label_stack@).push(
            (key@, value@),
        ));
        assert(self.label_stack@.drop_last() =~= old(self).label_stack@);
    }

    pub fn pop_label(&mut self)
        ensures
            *final(self) == (ExecCtx { label_stack: final(self).label_stack, ..*old(self) }),
            final(self).label_stack@ == (if old(self).label_stack@.len() > 0 {
                old(self).label_stack@.drop_last()
            } else {
                old(self).label_stack@
            }),
    {
        let _ = self.label_stack.pop();
    }

    /// Whether nothing is to go to stderr.
    pub fn quiet(&self) -> (r: bool)
        ensures
            r == self.suppresses_stderr,
    {
        self.suppresses_stderr
    }
}

fn append_labels(out: &mut Vec<(String, String)>, more: &Vec<(String, String)>)
    ensures
        label_views(final(out)@) == label_views(old(out)@) + label_views(more@),
{
    let ghost before = label_views(out@);
    let mut i: usize = 0;
    assert(before + label_views(more@).take(0) =~= before);
    while i < more.len()
        invariant
            i <= more@.len(),
            label_views(out@) == before + label_views(more@).take(i as int),
        decreases more@.len() - i,
    {
        let ghost now = label_views(out@);
        out.push((more[i].0.clone(), more[i].1.clone()));
        assert(label_views(out@) =~= now.push((more@[i as int].0@, more@[i as int].1@)));
        assert(label_views(more@).take(i + 1) =~= label_views(more@).take(i as int).push(
            label_views(more@)[i as int],
        ));
        assert(now.push(label_views(more@)[i as int]) =~= before + label_views(more@).take(i + 1));
        i += 1;
    }
    assert(label_views(more@).take(i as int) =~= label_views(more@));
}

/// Every metric of a run bears its session, its number in decimal and its workload, in
/// this order, before what is pushed on the way.
pub proof fn law_run_is_labelled(ctx: ExecCtx)
    ensures
        ctx.base_labels().len() == 3,
        ctx.base_labels()[0] == ("session"@, ctx.session_id@),
        ctx.base_labels()[1] == ("exec_id"@, text::decimal(ctx.exec_id as nat)),
        ctx.base_labels()[2] == ("workload"@, ctx.workload_name@),
{
}

/// A plan knows a phase as completed by its name and its labels together.
pub proof fn law_completed_by_name_and_labels(p: RefinePlan, name: Seq<char>, labels: Seq<char>)
    ensures
        completed_before(p, name, labels) <==> label_views(p.completed@).contains((name, labels)),
{
    let v = label_views(p.completed@);
    if completed_before(p, name, labels) {
        let i = choose|i: int|
            0 <= i < p.completed@.len() && (#[trigger] p.completed@[i]).0@ == name
                && p.completed@[i].1@ == labels;
        assert(v[i] == (name, labels));
    }
    if v.contains((name, labels)) {
        let i = v.index_of((name, labels));
        assert(p.completed@[i].0@ == name && p.completed@[i].1@ == labels);
    }
}

} // verus!
