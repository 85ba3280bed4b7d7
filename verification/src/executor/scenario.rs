//! The body of a scenario: daemons first, then the foreground siblings in
//! declaration order under a concurrency limit, then the drain and the fold.
//!
//! The body is a state machine. Tasks, permits and joins happen outside; each
//! step takes what happened and says what to do next.

use vstd::prelude::*;

use crate::executor::shell;
use crate::executor::shell::{fold_aggregate, fold_child, ChildResult, ShellHandler};
use crate::model::{ConcurrencyLimit, ScenarioNode, WorkloadPhase};
use crate::phase_outcome;
use crate::phase_outcome::{Disposition, Outcome, Validity};
use crate::strmap::StrMap;
use crate::text;
use crate::text::{cat2, cat4, cat6, cat7, join_texts, u64_text};

verus! {

/// Whether `node` is a phase declared as a daemon.
pub open spec fn is_daemon(node: ScenarioNode, phases: Map<Seq<char>, WorkloadPhase>) -> bool {
    match node {
        ScenarioNode::Phase(name) => phases.contains_key(name@) && phases[name@].daemon,
        _ => false,
    }
}

/// Which of the siblings are daemons.
pub fn daemon_flags(nodes: &Vec<ScenarioNode>, phases: &StrMap<WorkloadPhase>) -> (r: Vec<bool>)
    requires
        phases.wf(),
    ensures
        r@.len() == nodes@.len(),
        forall|i: int| 0 <= i < r@.len() ==> #[trigger] r@[i] == is_daemon(nodes@[i], phases@),
{
    let mut r: Vec<bool> = Vec::new();
    let mut i: usize = 0;
    while i < nodes.len()
        invariant
            phases.wf(),
            i <= nodes@.len(),
            r@.len() == i,
            forall|k: int| 0 <= k < i ==> #[trigger] r@[k] == is_daemon(nodes@[k], phases@),
        decreases nodes@.len() - i,
    {
        let flag = match &nodes[i] {
            ScenarioNode::Phase(name) => match phases.get(name.as_str()) {
                Some(p) => p.daemon,
                None => false,
            },
            _ => false,
        };
        r.push(flag);
        i += 1;
    }
    r
}

/// Whether the row of a daemon phase is pushed when the daemon is spawned: a
/// phase that iterates pushes a row per iteration instead.
pub fn pushes_row_at_spawn(name: &str, phases: &StrMap<WorkloadPhase>) -> (r: bool)
    requires
        phases.wf(),
    ensures
        r == (phases@.contains_key(name@) ==> phases@[name@].for_each is None),
{
    match phases.get(name) {
        Some(p) => p.for_each.is_none(),
        None => true,
    }
}

/// How many permits a limit grants; none where there is no limit.
pub fn permits(limit: ConcurrencyLimit) -> (r: Option<usize>)
    ensures
        r == (match limit {
            ConcurrencyLimit::Bounded(n) => Some(n as usize),
            ConcurrencyLimit::Unlimited => None,
        }),
{
    match limit {
        ConcurrencyLimit::Bounded(n) => Some(n as usize),
        ConcurrencyLimit::Unlimited => None,
    }
}

pub open spec fn limit_text(limit: ConcurrencyLimit) -> Seq<char> {
    match limit {
        ConcurrencyLimit::Bounded(n) => "limit="@ + text::decimal(n as nat),
        ConcurrencyLimit::Unlimited => "limit=*"@,
    }
}

pub open spec fn preview_entry(seq: usize, total: usize, name: Seq<char>) -> Seq<char> {
    "["@ + text::decimal(seq as nat) + "/"@ + text::decimal(total as nat) + "] "@ + name
}

pub open spec fn preview_entries(phases: Seq<(usize, String)>, total: usize) -> Seq<Seq<char>> {
    phases.map_values(|p: (usize, String)| preview_entry(p.0, total, p.1@))
}

/// The line that announces siblings before they run side by side, in
/// declaration order. A limit of one needs no announcement.
pub fn preview_line(limit: ConcurrencyLimit, phases: &Vec<(usize, String)>, total: usize) -> (r:
    Option<String>)
    ensures
        r is None <==> limit == ConcurrencyLimit::Bounded(1) || phases@.len() == 0,
        r matches Some(t) ==> t@ == "concurrent dispatch ("@ + limit_text(limit) + "): "@
            + text::joined(preview_entries(phases@, total), ", "@),
{
    if limit == ConcurrencyLimit::Bounded(1) || phases.len() == 0 {
        return None;
    }
    let mut entries: Vec<String> = Vec::new();
    let mut i: usize = 0;
    while i < phases.len()
        invariant
            i <= phases@.len(),
            entries@.len() == i,
            forall|k: int|
                0 <= k < i ==> #[trigger] entries@[k]@ == preview_entry(
                    phases@[k].0,
                    total,
                    phases@[k].1@,
                ),
        decreases phases@.len() - i,
    {
        entries.push(
            cat6(
                "[",
                u64_text(phases[i].0 as u64).as_str(),
                "/",
                u64_text(total as u64).as_str(),
                "] ",
                phases[i].1.as_str(),
            ),
        );
        i += 1;
    }
    assert(text::views(entries@) =~= preview_entries(phases@, total));
    let shown = match limit {
        ConcurrencyLimit::Bounded(n) => cat2("limit=", u64_text(n as u64).as_str()),
        ConcurrencyLimit::Unlimited => "limit=*".to_owned(),
    };
    Some(
        cat4(
            "concurrent dispatch (",
            shown.as_str(),
            "): ",
            join_texts(&entries, ", ").as_str(),
        ),
    )
}

/// Where the body stands.
#[derive(Debug, Clone, Copy, PartialEq, Eq, Structural)]
pub enum BodyStage {
    /// Spawning daemons.
    Daemons,
    /// Looking for the next foreground sibling.
    Foreground,
    /// Waiting for a permit for the sibling at the cursor.
    Permit,
    /// Holding a permit, collecting tasks that ended meanwhile.
    Collect,
    /// Holding a permit, asking whether the walk was halted.
    Check,
    /// Joining the foreground.
    Join,
    /// Joining the daemons.
    JoinDaemons,
    /// Asking a last time whether the walk was halted.
    Close,
    Done,
}

/// What happened.
pub enum BodyEvent {
    /// The last action is done and has nothing to report.
    Proceed,
    Permit,
    /// No permit can be had any more, and why.
    PermitLost(String),
    /// A task that had already ended, or none.
    Collected(Option<ChildResult>),
    /// Whether the walk was halted.
    Walk(bool),
    /// The next task of the foreground to end, or none left.
    Joined(Option<ChildResult>),
    /// The next daemon to end, or none left.
    DaemonJoined(Option<ChildResult>),
}

/// What to do next. Any action but `Collect`, `Check` and `Dispatch` gives back
/// a permit that is held.
pub enum BodyAction {
    SpawnDaemon(usize),
    Acquire(usize),
    Collect,
    Check,
    Dispatch(usize),
    Join,
    /// Tell the daemons to end, then join them.
    StopDaemons,
    JoinDaemon,
    Finish(Outcome),
}

/// The body of a scenario in the course of running.
pub struct ScenarioBody {
    flags: Vec<bool>,
    cursor: usize,
    stage: BodyStage,
    first_failure: Option<String>,
    any_failed_reason: Option<String>,
}

/// What the state of a body means.
pub struct BodyModel {
    /// Which siblings are daemons.
    pub flags: Seq<bool>,
    pub cursor: int,
    pub stage: BodyStage,
    /// Why dispatch stops, if it does.
    pub first: Option<Seq<char>>,
    /// Why the result is unusable, if it is.
    pub any: Option<Seq<char>>,
}

pub enum ActionModel {
    SpawnDaemon(int),
    Acquire(int),
    Collect,
    Check,
    Dispatch(int),
    Join,
    StopDaemons,
    JoinDaemon,
    Finish(Disposition, Validity, Option<Seq<char>>),
}

pub open spec fn action_model(a: BodyAction) -> ActionModel {
    match a {
        BodyAction::SpawnDaemon(i) => ActionModel::SpawnDaemon(i as int),
        BodyAction::Acquire(i) => ActionModel::Acquire(i as int),
        BodyAction::Collect => ActionModel::Collect,
        BodyAction::Check => ActionModel::Check,
        BodyAction::Dispatch(i) => ActionModel::Dispatch(i as int),
        BodyAction::Join => ActionModel::Join,
        BodyAction::StopDaemons => ActionModel::StopDaemons,
        BodyAction::JoinDaemon => ActionModel::JoinDaemon,
        BodyAction::Finish(o) => ActionModel::Finish(
            o.disposition,
            o.validity,
            phase_outcome::text_of(o.reason),
        ),
    }
}

/// The first position from `i` on whose flag is `want`, or the length.
pub open spec fn next_flag(flags: Seq<bool>, i: int, want: bool) -> int
    decreases flags.len() - i,
{
    if i >= flags.len() {
        flags.len() as int
    } else if i >= 0 && flags[i] == want {
        i
    } else if i < 0 {
        flags.len() as int
    } else {
        next_flag(flags, i + 1, want)
    }
}

/// The events that a stage waits for.
pub open spec fn expects(stage: BodyStage, e: BodyEvent) -> bool {
    match stage {
        BodyStage::Daemons => e is Proceed,
        BodyStage::Foreground => e is Proceed,
        BodyStage::Permit => e is Permit || e is PermitLost,
        BodyStage::Collect => e is Collected,
        BodyStage::Check => e is Walk,
        BodyStage::Join => e is Joined,
        BodyStage::JoinDaemons => e is DaemonJoined,
        BodyStage::Close => e is Walk,
        BodyStage::Done => false,
    }
}

pub open spec fn folded(m: BodyModel, res: ChildResult) -> BodyModel {
    BodyModel { first: shell::latched(m.first, res), any: shell::latched(m.any, res), ..m }
}

/// Turns to the next foreground sibling, or to the join when there is none.
pub open spec fn seek(m: BodyModel, from: int) -> (BodyModel, ActionModel) {
    let i = next_flag(m.flags, from, false);
    if i < m.flags.len() {
        (BodyModel { cursor: i, stage: BodyStage::Permit, ..m }, ActionModel::Acquire(i))
    } else {
        (BodyModel { cursor: i, stage: BodyStage::Join, ..m }, ActionModel::Join)
    }
}

/// One step of the body.
pub open spec fn step(m: BodyModel, e: BodyEvent) -> (BodyModel, ActionModel) {
    match (m.stage, e) {
        (BodyStage::Daemons, BodyEvent::Proceed) => {
            let i = next_flag(m.flags, m.cursor, true);
            if i < m.flags.len() {
                (BodyModel { cursor: i + 1, ..m }, ActionModel::SpawnDaemon(i))
            } else {
                seek(m, 0)
            }
        },
        (BodyStage::Foreground, BodyEvent::Proceed) => seek(m, m.cursor),
        (BodyStage::Permit, BodyEvent::Permit) => (
            BodyModel { stage: BodyStage::Collect, ..m },
            ActionModel::Collect,
        ),
        (BodyStage::Permit, BodyEvent::PermitLost(why)) => (
            BodyModel { stage: BodyStage::Done, ..m },
            ActionModel::Finish(Disposition::Interrupted, Validity::Failed, Some(why@)),
        ),
        (BodyStage::Collect, BodyEvent::Collected(Some(res))) => (
            folded(m, res),
            ActionModel::Collect,
        ),
        (BodyStage::Collect, BodyEvent::Collected(None)) => if m.first is Some {
            (BodyModel { stage: BodyStage::Join, ..m }, ActionModel::Join)
        } else {
            (BodyModel { stage: BodyStage::Check, ..m }, ActionModel::Check)
        },
        (BodyStage::Check, BodyEvent::Walk(halted)) => if halted {
            (BodyModel { stage: BodyStage::Join, ..m }, ActionModel::Join)
        } else {
            (
                BodyModel { cursor: m.cursor + 1, stage: BodyStage::Foreground, ..m },
                ActionModel::Dispatch(m.cursor),
            )
        },
        (BodyStage::Join, BodyEvent::Joined(Some(res))) => (folded(m, res), ActionModel::Join),
        (BodyStage::Join, BodyEvent::Joined(None)) => if m.flags.contains(true) {
            (BodyModel { stage: BodyStage::JoinDaemons, ..m }, ActionModel::StopDaemons)
        } else {
            (BodyModel { stage: BodyStage::Close, ..m }, ActionModel::Check)
        },
        (BodyStage::JoinDaemons, BodyEvent::DaemonJoined(Some(res))) => (
            folded(m, res),
            ActionModel::JoinDaemon,
        ),
        (BodyStage::JoinDaemons, BodyEvent::DaemonJoined(None)) => (
            BodyModel { stage: BodyStage::Close, ..m },
            ActionModel::Check,
        ),
        (BodyStage::Close, BodyEvent::Walk(halted)) => (
            BodyModel { stage: BodyStage::Done, ..m },
            ActionModel::Finish(
                if m.first is Some || halted {
                    Disposition::Interrupted
                } else {
                    Disposition::Completed
                },
                if m.first is Some || m.any is Some {
                    Validity::Failed
                } else {
                    Validity::Succeeded
                },
                if m.first is Some {
                    m.first
                } else {
                    m.any
                },
            ),
        ),
        _ => (m, ActionModel::Join),
    }
}

/// The body before anything ran.
pub open spec fn fresh(flags: Seq<bool>) -> BodyModel {
    BodyModel { flags, cursor: 0, stage: BodyStage::Daemons, first: None, any: None }
}

/// A body that is under way, or the outcome when it never starts.
pub enum BodyStart {
    Refused(Outcome),
    Started(ScenarioBody),
}

pub open spec fn drift_text(parent_scope_idx: usize, scopes: nat, nodes: nat) -> Seq<char> {
    "scope-tree/scenario-tree drift: scope node "@ + text::decimal(parent_scope_idx as nat)
        + " has "@ + text::decimal(scopes)
        + " child scopes but the walker is dispatching "@ + text::decimal(nodes)
        + " sibling scenario nodes"@
}

fn find_flag(flags: &Vec<bool>, from: usize, want: bool) -> (r: usize)
    requires
        from <= flags@.len(),
    ensures
        r == next_flag(flags@, from as int, want),
        from <= r <= flags@.len(),
        r < flags@.len() ==> flags@[r as int] == want,
{
    let mut i: usize = from;
    while i < flags.len() && flags[i] != want
        invariant
            from <= i <= flags@.len(),
            next_flag(flags@, from as int, want) == next_flag(flags@, i as int, want),
        decreases flags@.len() - i,
    {
        i += 1;
    }
    i
}

impl View for ScenarioBody {
    type V = BodyModel;

    closed spec fn view(&self) -> BodyModel {
        BodyModel {
            flags: self.flags@,
            cursor: self.cursor as int,
            stage: self.stage,
            first: phase_outcome::text_of(self.first_failure),
            any: phase_outcome::text_of(self.any_failed_reason),
        }
    }
}

impl ScenarioBody {
    /// The cursor stays among the siblings, and on one of them while a permit
    /// is awaited or held.
    pub open spec fn wf(self) -> bool {
        body_ok(self@)
    }

    /// Starts a body over `nodes`, whose scopes are `scope_children`. A body
    /// whose nodes and scopes do not line up fails; under a halted walk nothing
    /// runs.
    pub fn begin(
        nodes: &Vec<ScenarioNode>,
        phases: &StrMap<WorkloadPhase>,
        parent_scope_idx: usize,
        scope_children: &Vec<usize>,
        walk_halted: bool,
    ) -> (r: BodyStart)
        requires
            phases.wf(),
        ensures
            match r {
                BodyStart::Refused(o) => if scope_children@.len() != nodes@.len() {
                    &&& o.disposition == Disposition::Interrupted
                    &&& o.validity == Validity::Failed
                    &&& phase_outcome::text_of(o.reason) == Some(
                        drift_text(parent_scope_idx, scope_children@.len(), nodes@.len()),
                    )
                    &&& o.payload is None
                } else {
                    walk_halted && o.bare(Disposition::Interrupted, Validity::Succeeded)
                },
                BodyStart::Started(b) => {
                    &&& scope_children@.len() == nodes@.len()
                    &&& !walk_halted
                    &&& b.wf()
                    &&& b@ == fresh(
                        Seq::new(nodes@.len(), |i: int| is_daemon(nodes@[i], phases@)),
                    )
                },
            },
    {
        if scope_children.len() != nodes.len() {
            let msg = cat7(
                "scope-tree/scenario-tree drift: scope node ",
                u64_text(parent_scope_idx as u64).as_str(),
                " has ",
                u64_text(scope_children.len() as u64).as_str(),
                " child scopes but the walker is dispatching ",
                u64_text(nodes.len() as u64).as_str(),
                " sibling scenario nodes",
            );
            return BodyStart::Refused(Outcome::failed().with_reason(msg.as_str()));
        }
        if walk_halted {
            return BodyStart::Refused(Outcome::interrupted());
        }
        let flags = daemon_flags(nodes, phases);
        assert(flags@ =~= Seq::new(nodes@.len(), |i: int| is_daemon(nodes@[i], phases@)));
        BodyStart::Started(
            ScenarioBody {
                flags,
                cursor: 0,
                stage: BodyStage::Daemons,
                first_failure: None,
                any_failed_reason: None,
            },
        )
    }

    fn fold(&mut self, res: ChildResult)
        ensures
            final(self)@ == folded(old(self)@, res),
            final(self).flags == old(self).flags,
            final(self).cursor == old(self).cursor,
            final(self).stage == old(self).stage,
    {
        let handler = ShellHandler::scenario_default();
        let mut first = self.first_failure.take();
        let mut any = self.any_failed_reason.take();
        fold_child(res, &handler, &mut first, &mut any);
        self.first_failure = first;
        self.any_failed_reason = any;
    }

    fn turn_to(&mut self, from: usize) -> (r: BodyAction)
        requires
            from <= old(self).flags@.len(),
        ensures
            (final(self)@, action_model(r)) == seek(old(self)@, from as int),
            body_ok(final(self)@),
    {
        let i = find_flag(&self.flags, from, false);
        self.cursor = i;
        if i < self.flags.len() {
            self.stage = BodyStage::Permit;
            BodyAction::Acquire(i)
        } else {
            self.stage = BodyStage::Join;
            BodyAction::Join
        }
    }

    /// Takes what happened and says what to do next.
    pub fn advance(&mut self, event: BodyEvent) -> (r: BodyAction)
        requires
            old(self).wf(),
            expects(old(self)@.stage, event),
        ensures
            final(self).wf(),
            (final(self)@, action_model(r)) == step(old(self)@, event),
            r matches BodyAction::Finish(o) ==> o.payload is None,
    {
        match event {
            BodyEvent::Proceed => {
                if self.stage == BodyStage::Daemons {
                    let i = find_flag(&self.flags, self.cursor, true);
                    if i < self.flags.len() {
                        self.cursor = i + 1;
                        BodyAction::SpawnDaemon(i)
                    } else {
                        self.turn_to(0)
                    }
                } else {
                    let from = self.cursor;
                    self.turn_to(from)
                }
            },
            BodyEvent::Permit => {
                self.stage = BodyStage::Collect;
                BodyAction::Collect
            },
            BodyEvent::PermitLost(why) => {
                self.stage = BodyStage::Done;
                BodyAction::Finish(Outcome::failed().with_reason(why.as_str()))
            },
            BodyEvent::Collected(Some(res)) => {
                self.fold(res);
                BodyAction::Collect
            },
            BodyEvent::Collected(None) => {
                if self.first_failure.is_some() {
                    self.stage = BodyStage::Join;
                    BodyAction::Join
                } else {
                    self.stage = BodyStage::Check;
                    BodyAction::Check
                }
            },
            BodyEvent::Walk(halted) => {
                if self.stage == BodyStage::Check {
                    if halted {
                        self.stage = BodyStage::Join;
                        BodyAction::Join
                    } else {
                        let i = self.cursor;
                        assert(i < self.flags.len());
                        self.cursor = i + 1;
                        self.stage = BodyStage::Foreground;
                        BodyAction::Dispatch(i)
                    }
                } else {
                    self.stage = BodyStage::Done;
                    let first = self.first_failure.take();
                    let any = self.any_failed_reason.take();
                    let o = fold_aggregate(copy_of(&first), copy_of(&any), halted);
                    self.first_failure = first;
                    self.any_failed_reason = any;
                    BodyAction::Finish(o)
                }
            },
            BodyEvent::Joined(Some(res)) => {
                self.fold(res);
                BodyAction::Join
            },
            BodyEvent::Joined(None) => {
                let d = find_flag(&self.flags, 0, true);
                proof {
                    lemma_next_flag(self.flags@, 0, true);
                    if d < self.flags@.len() {
                        assert(self.flags@[d as int]);
                    }
                }
                if d < self.flags.len() {
                    self.stage = BodyStage::JoinDaemons;
                    BodyAction::StopDaemons
                } else {
                    self.stage = BodyStage::Close;
                    BodyAction::Check
                }
            },
            BodyEvent::DaemonJoined(Some(res)) => {
                self.fold(res);
                BodyAction::JoinDaemon
            },
            BodyEvent::DaemonJoined(None) => {
                self.stage = BodyStage::Close;
                BodyAction::Check
            },
        }
    }
}

fn copy_of(t: &Option<String>) -> (r: Option<String>)
    ensures
        r is Some <==> *t is Some,
        phase_outcome::text_of(r) == phase_outcome::text_of(*t),
{
    match t {
        Some(s) => Some(s.clone()),
        None => None,
    }
}

pub open spec fn body_ok(m: BodyModel) -> bool {
    &&& 0 <= m.cursor <= m.flags.len()
    &&& (m.stage == BodyStage::Permit || m.stage == BodyStage::Collect || m.stage
        == BodyStage::Check) ==> m.cursor < m.flags.len() && !m.flags[m.cursor]
}

proof fn lemma_next_flag(flags: Seq<bool>, i: int, want: bool)
    requires
        0 <= i <= flags.len(),
    ensures
        i <= next_flag(flags, i, want) <= flags.len(),
        forall|k: int| i <= k < next_flag(flags, i, want) ==> #[trigger] flags[k] != want,
        next_flag(flags, i, want) < flags.len() ==> flags[next_flag(flags, i, want)] == want,
    decreases flags.len() - i,
{
    if i < flags.len() && flags[i] != want {
        lemma_next_flag(flags, i + 1, want);
    }
}

/// The positions below `n` whose flag is `want`, in order.
pub open spec fn positions(flags: Seq<bool>, n: int, want: bool) -> Seq<int>
    decreases n,
{
    if n <= 0 {
        Seq::empty()
    } else if flags[n - 1] == want {
        positions(flags, n - 1, want).push(n - 1)
    } else {
        positions(flags, n - 1, want)
    }
}

/// The state and the actions after a run of events, each of which was expected.
pub open spec fn run(m: BodyModel, events: Seq<BodyEvent>) -> (BodyModel, Seq<ActionModel>)
    decreases events.len(),
{
    if events.len() == 0 {
        (m, Seq::empty())
    } else {
        let before = run(m, events.drop_last());
        let next = step(before.0, events.last());
        (next.0, before.1.push(next.1))
    }
}

pub open spec fn run_is_expected(m: BodyModel, events: Seq<BodyEvent>) -> bool
    decreases events.len(),
{
    events.len() == 0 || (run_is_expected(m, events.drop_last()) && expects(
        run(m, events.drop_last()).0.stage,
        events.last(),
    ))
}

/// The foreground siblings that were started, in order.
pub open spec fn dispatched(actions: Seq<ActionModel>) -> Seq<int>
    decreases actions.len(),
{
    if actions.len() == 0 {
        Seq::empty()
    } else {
        match actions.last() {
            ActionModel::Dispatch(i) => dispatched(actions.drop_last()).push(i),
            _ => dispatched(actions.drop_last()),
        }
    }
}

/// The daemons that were started, in order.
pub open spec fn spawned(actions: Seq<ActionModel>) -> Seq<int>
    decreases actions.len(),
{
    if actions.len() == 0 {
        Seq::empty()
    } else {
        match actions.last() {
            ActionModel::SpawnDaemon(i) => spawned(actions.drop_last()).push(i),
            _ => spawned(actions.drop_last()),
        }
    }
}

/// The child results that the events reported, in order.
pub open spec fn reported(events: Seq<BodyEvent>) -> Seq<ChildResult>
    decreases events.len(),
{
    if events.len() == 0 {
        Seq::empty()
    } else {
        match events.last() {
            BodyEvent::Collected(Some(res)) => reported(events.drop_last()).push(res),
            BodyEvent::Joined(Some(res)) => reported(events.drop_last()).push(res),
            BodyEvent::DaemonJoined(Some(res)) => reported(events.drop_last()).push(res),
            _ => reported(events.drop_last()),
        }
    }
}

proof fn lemma_positions_skip(flags: Seq<bool>, i: int, j: int, want: bool)
    requires
        0 <= i <= j <= flags.len(),
        forall|k: int| i <= k < j ==> #[trigger] flags[k] != want,
    ensures
        positions(flags, j, want) == positions(flags, i, want),
    decreases j - i,
{
    if i < j {
        assert(flags[j - 1] != want);
        lemma_positions_skip(flags, i, j - 1, want);
    }
}

/// What holds of every state that a run can reach.
pub open spec fn reachable_ok(
    flags: Seq<bool>,
    events: Seq<BodyEvent>,
    m: BodyModel,
    actions: Seq<ActionModel>,
) -> bool {
    &&& m.flags == flags
    &&& body_ok(m)
    &&& m.first == shell::latch_after(reported(events))
    &&& m.any == m.first
    &&& m.stage == BodyStage::Check ==> m.first is None
    &&& m.stage == BodyStage::Daemons ==> dispatched(actions) == Seq::<int>::empty()
        && spawned(actions) == positions(flags, m.cursor, true)
    &&& m.stage != BodyStage::Daemons ==> dispatched(actions) == positions(flags, m.cursor, false)
        && spawned(actions) == positions(flags, flags.len() as int, true)
}

proof fn lemma_reachable(flags: Seq<bool>, events: Seq<BodyEvent>)
    requires
        run_is_expected(fresh(flags), events),
    ensures
        reachable_ok(flags, events, run(fresh(flags), events).0, run(fresh(flags), events).1),
    decreases events.len(),
{
    if events.len() > 0 {
        let less = events.drop_last();
        lemma_reachable(flags, less);
        let m = run(fresh(flags), less).0;
        let acts = run(fresh(flags), less).1;
        let e = events.last();
        let n = run(fresh(flags), events).0;
        let all = run(fresh(flags), events).1;
        assert(all.drop_last() =~= acts);
        let kids = reported(events);
        match e {
            BodyEvent::Collected(Some(res)) => {
                assert(kids.drop_last() =~= reported(less));
            },
            BodyEvent::Joined(Some(res)) => {
                assert(kids.drop_last() =~= reported(less));
            },
            BodyEvent::DaemonJoined(Some(res)) => {
                assert(kids.drop_last() =~= reported(less));
            },
            _ => {},
        }
        if e is Proceed {
            if m.stage == BodyStage::Daemons {
                lemma_next_flag(flags, m.cursor, true);
                let i = next_flag(flags, m.cursor, true);
                lemma_positions_skip(flags, m.cursor, i, true);
                lemma_next_flag(flags, 0, false);
                lemma_positions_skip(flags, 0, next_flag(flags, 0, false), false);
            } else {
                lemma_next_flag(flags, m.cursor, false);
                lemma_positions_skip(flags, m.cursor, next_flag(flags, m.cursor, false), false);
            }
        }
    }
}

/// Foreground siblings start in declaration order, each at most once and
/// without gaps: those started so far are the first ones that are no daemons.
pub proof fn law_dispatch_follows_declaration(flags: Seq<bool>, events: Seq<BodyEvent>)
    requires
        run_is_expected(fresh(flags), events),
    ensures
        exists|n: int|
            0 <= n <= flags.len() && dispatched(run(fresh(flags), events).1) == #[trigger]
                positions(flags, n, false),
{
    lemma_reachable(flags, events);
    let m = run(fresh(flags), events).0;
    if m.stage == BodyStage::Daemons {
        assert(positions(flags, 0, false) =~= Seq::<int>::empty());
    }
}

/// No foreground sibling starts before every daemon has.
pub proof fn law_daemons_start_first(flags: Seq<bool>, events: Seq<BodyEvent>)
    requires
        run_is_expected(fresh(flags), events),
        dispatched(run(fresh(flags), events).1).len() > 0,
    ensures
        spawned(run(fresh(flags), events).1) == positions(flags, flags.len() as int, true),
{
    lemma_reachable(flags, events);
}

/// How many permits the events granted.
pub open spec fn granted(events: Seq<BodyEvent>) -> int
    decreases events.len(),
{
    if events.len() == 0 {
        0
    } else {
        granted(events.drop_last()) + (if events.last() is Permit {
            1int
        } else {
            0
        })
    }
}

/// A foreground sibling starts only on a permit of its own: there are never more
/// starts than permits.
pub proof fn law_dispatch_needs_permit(flags: Seq<bool>, events: Seq<BodyEvent>)
    requires
        run_is_expected(fresh(flags), events),
    ensures
        dispatched(run(fresh(flags), events).1).len() <= granted(events),
{
    lemma_permits(flags, events);
}

proof fn lemma_permits(flags: Seq<bool>, events: Seq<BodyEvent>)
    requires
        run_is_expected(fresh(flags), events),
    ensures
        ({
            let stage = run(fresh(flags), events).0.stage;
            let held: int = if stage == BodyStage::Collect || stage == BodyStage::Check {
                1
            } else {
                0
            };
            dispatched(run(fresh(flags), events).1).len() + held <= granted(events)
        }),
    decreases events.len(),
{
    if events.len() > 0 {
        let less = events.drop_last();
        lemma_permits(flags, less);
        let all = run(fresh(flags), events).1;
        assert(all.drop_last() =~= run(fresh(flags), less).1);
    }
}

/// Once a failed child has been seen no further sibling starts.
pub proof fn law_no_start_after_failure(flags: Seq<bool>, events: Seq<BodyEvent>, e: BodyEvent)
    requires
        run_is_expected(fresh(flags), events),
        expects(run(fresh(flags), events).0.stage, e),
        exists|i: int|
            0 <= i < reported(events).len() && #[trigger] shell::child_failed(reported(events)[i]),
    ensures
        !(step(run(fresh(flags), events).0, e).1 is Dispatch),
{
    lemma_reachable(flags, events);
    shell::law_failure_is_latched(reported(events));
}

/// The body fails exactly when one of its children did, or when no permit could
/// be had.
pub proof fn law_body_fails_iff_child_failed(
    flags: Seq<bool>,
    events: Seq<BodyEvent>,
    e: BodyEvent,
    d: Disposition,
    v: Validity,
    reason: Option<Seq<char>>,
)
    requires
        run_is_expected(fresh(flags), events),
        expects(run(fresh(flags), events).0.stage, e),
        step(run(fresh(flags), events).0, e).1 == ActionModel::Finish(d, v, reason),
    ensures
        v == Validity::Failed <==> (e is PermitLost || exists|i: int|
            0 <= i < reported(events).len() && #[trigger] shell::child_failed(reported(events)[i])),
        v == Validity::Failed <==> reason is Some,
{
    lemma_reachable(flags, events);
    shell::law_failure_is_latched(reported(events));
}

/// A child that came back as failed, or not at all.
pub open spec fn is_lost(res: ChildResult) -> bool {
    match res {
        Ok(o) => o.validity == Validity::Failed,
        Err(_) => true,
    }
}

pub open spec fn some_lost(children: Seq<ChildResult>) -> bool {
    exists|i: int| 0 <= i < children.len() && #[trigger] is_lost(children[i])
}

/// `why` is what the first of the lost children said; none where none is lost.
pub open spec fn is_first_word(children: Seq<ChildResult>, why: Option<Seq<char>>) -> bool {
    &&& why is Some <==> some_lost(children)
    &&& forall|i: int|
        0 <= i < children.len() && #[trigger] is_lost(children[i]) && (forall|k: int|
            0 <= k < i ==> !#[trigger] is_lost(children[k])) ==> why == Some(
            match children[i] {
                Ok(o) => match o.reason {
                    Some(s) => s@,
                    None => "scenario: a unit failed"@,
                },
                Err(e) => "concurrent task panicked: "@ + e@,
            },
        )
}

/// The foreground has been joined to its end.
pub open spec fn drained(events: Seq<BodyEvent>) -> bool {
    events.contains(BodyEvent::Joined(None))
}

/// The event tells what came of the action.
pub open spec fn answers(last: ActionModel, e: BodyEvent) -> bool {
    match last {
        ActionModel::SpawnDaemon(_) => e is Proceed,
        ActionModel::Dispatch(_) => e is Proceed,
        ActionModel::Acquire(_) => e is Permit || e is PermitLost,
        ActionModel::Collect => e is Collected,
        ActionModel::Check => e is Walk,
        ActionModel::Join => e is Joined,
        ActionModel::StopDaemons => e is DaemonJoined,
        ActionModel::JoinDaemon => e is DaemonJoined,
        ActionModel::Finish(_, _, _) => false,
    }
}

proof fn lemma_first_word(children: Seq<ChildResult>)
    ensures
        is_first_word(children, shell::latch_after(children)),
{
    shell::law_failure_is_latched(children);
    if some_lost(children) {
        let i = choose|i: int| 0 <= i < children.len() && #[trigger] is_lost(children[i]);
        assert(shell::child_failed(children[i]));
    }
    if shell::latch_after(children) is Some {
        let i = choose|i: int| 0 <= i < children.len() && #[trigger] shell::child_failed(children[i]);
        assert(is_lost(children[i]));
    }
    assert forall|i: int|
        0 <= i < children.len() && #[trigger] is_lost(children[i]) && (forall|k: int|
            0 <= k < i ==> !#[trigger] is_lost(children[k])) implies shell::latch_after(children)
        == Some(shell::child_reason(children[i])) by {
        assert forall|k: int| 0 <= k < i implies !#[trigger] shell::child_failed(children[k]) by {
            assert(!is_lost(children[k]));
        }
        shell::law_first_failure_is_kept(children, i);
    }
}

proof fn lemma_positions_prefix(flags: Seq<bool>, n: int, want: bool)
    requires
        0 <= n <= flags.len(),
    ensures
        ({
            let some = positions(flags, n, want);
            let all = positions(flags, flags.len() as int, want);
            some.len() <= all.len() && some == all.take(some.len() as int)
        }),
    decreases flags.len() - n,
{
    let some = positions(flags, n, want);
    let all = positions(flags, flags.len() as int, want);
    if n < flags.len() {
        lemma_positions_prefix(flags, n + 1, want);
        let more = positions(flags, n + 1, want);
        assert(some =~= more.take(some.len() as int));
        assert(some =~= all.take(some.len() as int));
    } else {
        assert(some =~= all.take(some.len() as int));
    }
}

/// A flag that stands at `n` is listed right after those before it.
proof fn lemma_position_at(flags: Seq<bool>, n: int, want: bool)
    requires
        0 <= n < flags.len(),
        flags[n] == want,
    ensures
        positions(flags, n, want).len() < positions(flags, flags.len() as int, want).len(),
        positions(flags, flags.len() as int, want)[positions(flags, n, want).len() as int] == n,
{
    lemma_positions_prefix(flags, n + 1, want);
    let more = positions(flags, n + 1, want);
    assert(more.last() == n);
}

proof fn lemma_has_position(flags: Seq<bool>, want: bool)
    ensures
        flags.contains(want) <==> positions(flags, flags.len() as int, want).len() > 0,
{
    lemma_next_flag(flags, 0, want);
    let i = next_flag(flags, 0, want);
    if i < flags.len() {
        assert(flags[i] == want);
        lemma_position_at(flags, i, want);
    } else {
        lemma_positions_skip(flags, 0, flags.len() as int, want);
        assert(!flags.contains(want));
    }
}

/// Whether the stage is the one in which what came of `last` is awaited.
spec fn awaits(stage: BodyStage, last: ActionModel) -> bool {
    match last {
        ActionModel::SpawnDaemon(_) => stage == BodyStage::Daemons,
        ActionModel::Dispatch(_) => stage == BodyStage::Foreground,
        ActionModel::Acquire(_) => stage == BodyStage::Permit,
        ActionModel::Collect => stage == BodyStage::Collect,
        ActionModel::Check => stage == BodyStage::Check || stage == BodyStage::Close,
        ActionModel::Join => stage == BodyStage::Join,
        ActionModel::StopDaemons => stage == BodyStage::JoinDaemons,
        ActionModel::JoinDaemon => stage == BodyStage::JoinDaemons,
        ActionModel::Finish(_, _, _) => stage == BodyStage::Done,
    }
}

proof fn lemma_stages(flags: Seq<bool>, events: Seq<BodyEvent>)
    requires
        run_is_expected(fresh(flags), events),
    ensures
        ({
            let (m, acts) = run(fresh(flags), events);
            &&& acts.len() == events.len()
            &&& events.len() > 0 ==> awaits(m.stage, acts.last())
            &&& events.len() == 0 ==> m == fresh(flags)
            &&& m.stage == BodyStage::Close || m.stage == BodyStage::JoinDaemons ==> drained(events)
            &&& drained(events) ==> m.stage == BodyStage::Close || m.stage
                == BodyStage::JoinDaemons || m.stage == BodyStage::Done
        }),
    decreases events.len(),
{
    if events.len() > 0 {
        let less = events.drop_last();
        lemma_stages(flags, less);
        if drained(less) {
            let i = less.index_of(BodyEvent::Joined(None));
            assert(events[i] == BodyEvent::Joined(None));
        }
        if drained(events) && !drained(less) {
            let i = events.index_of(BodyEvent::Joined(None));
            if i < less.len() {
                assert(less[i] == BodyEvent::Joined(None));
            }
        }
        if events.last() == BodyEvent::Joined(None) {
            assert(events[events.len() - 1] == BodyEvent::Joined(None));
        }
    }
}

/// What a body waits for is told by what it asked last; after its end it waits for
/// nothing.
pub proof fn law_body_awaits_what_it_asked(flags: Seq<bool>, events: Seq<BodyEvent>, e: BodyEvent)
    requires
        run_is_expected(fresh(flags), events),
    ensures
        events.len() == 0 ==> (expects(run(fresh(flags), events).0.stage, e) <==> e is Proceed),
        events.len() > 0 ==> (expects(run(fresh(flags), events).0.stage, e) <==> answers(
            run(fresh(flags), events).1.last(),
            e,
        )),
{
    lemma_stages(flags, events);
}

/// What a body asks for next follows from what was reported and started so far: daemons,
/// then the foreground in declaration order, each sibling on a permit and only while no
/// child was lost and the walk goes on; then the join, the daemons, and the end.
pub proof fn law_body_reacts_to_history(flags: Seq<bool>, events: Seq<BodyEvent>, e: BodyEvent)
    requires
        run_is_expected(fresh(flags), events),
        expects(run(fresh(flags), events).0.stage, e),
    ensures
        ({
            let acts = run(fresh(flags), events).1;
            let a = step(run(fresh(flags), events).0, e).1;
            let watchers = positions(flags, flags.len() as int, true);
            let siblings = positions(flags, flags.len() as int, false);
            let watching = spawned(acts).len() as int;
            let begun = dispatched(acts).len() as int;
            match e {
                BodyEvent::Proceed => if watching < watchers.len() {
                    a == ActionModel::SpawnDaemon(watchers[watching])
                } else if begun < siblings.len() {
                    a == ActionModel::Acquire(siblings[begun])
                } else {
                    a is Join
                },
                BodyEvent::Permit => a is Collect,
                BodyEvent::PermitLost(why) => a == ActionModel::Finish(
                    Disposition::Interrupted,
                    Validity::Failed,
                    Some(why@),
                ),
                BodyEvent::Collected(Some(_)) => a is Collect,
                BodyEvent::Collected(None) => if some_lost(reported(events)) {
                    a is Join
                } else {
                    a is Check
                },
                BodyEvent::Walk(halted) => if drained(events) {
                    let lost = some_lost(reported(events));
                    &&& a matches ActionModel::Finish(d, v, why)
                    &&& d == (if lost || halted {
                        Disposition::Interrupted
                    } else {
                        Disposition::Completed
                    })
                    &&& v == (if lost {
                        Validity::Failed
                    } else {
                        Validity::Succeeded
                    })
                    &&& is_first_word(reported(events), why)
                } else if halted {
                    a is Join
                } else {
                    begun < siblings.len() && a == ActionModel::Dispatch(siblings[begun])
                },
                BodyEvent::Joined(Some(_)) => a is Join,
                BodyEvent::Joined(None) => if watchers.len() > 0 {
                    a is StopDaemons
                } else {
                    a is Check
                },
                BodyEvent::DaemonJoined(Some(_)) => a is JoinDaemon,
                BodyEvent::DaemonJoined(None) => a is Check,
            }
        }),
{
    lemma_reachable(flags, events);
    lemma_stages(flags, events);
    lemma_first_word(reported(events));
    lemma_has_position(flags, true);
    let m = run(fresh(flags), events).0;
    let n = flags.len() as int;
    if e is Proceed {
        if m.stage == BodyStage::Daemons {
            lemma_next_flag(flags, m.cursor, true);
            let i = next_flag(flags, m.cursor, true);
            lemma_positions_skip(flags, m.cursor, i, true);
            if i < n {
                lemma_position_at(flags, i, true);
            } else {
                lemma_next_flag(flags, 0, false);
                let j = next_flag(flags, 0, false);
                lemma_positions_skip(flags, 0, j, false);
                if j < n {
                    lemma_position_at(flags, j, false);
                }
            }
        } else {
            lemma_next_flag(flags, m.cursor, false);
            let j = next_flag(flags, m.cursor, false);
            lemma_positions_skip(flags, m.cursor, j, false);
            if j < n {
                lemma_position_at(flags, j, false);
            }
        }
    }
    if m.stage == BodyStage::Check {
        lemma_position_at(flags, m.cursor, false);
    }
}

/// The daemons are told to end at `s`, and no sibling starts from there on.
pub open spec fn stops_daemons_at(acts: Seq<ActionModel>, s: int) -> bool {
    &&& 0 <= s < acts.len()
    &&& acts[s] is StopDaemons
    &&& forall|k: int| s <= k < acts.len() ==> !(#[trigger] acts[k] is Dispatch)
}

proof fn lemma_daemons_stopped(flags: Seq<bool>, events: Seq<BodyEvent>)
    requires
        run_is_expected(fresh(flags), events),
    ensures
        ({
            let (m, acts) = run(fresh(flags), events);
            let ended = m.stage == BodyStage::Close || (m.stage == BodyStage::Done
                && !(events.last() is PermitLost));
            &&& m.stage == BodyStage::JoinDaemons || (ended && flags.contains(true)) ==> exists|
                s: int,
            | #[trigger]
                stops_daemons_at(acts, s) && events[s] == BodyEvent::Joined(None)
            &&& ended && flags.contains(true) ==> exists|s: int, j: int|
                #![trigger stops_daemons_at(acts, s), events[j]]
                stops_daemons_at(acts, s) && events[s] == BodyEvent::Joined(None) && s < j
                    < events.len() && events[j] == BodyEvent::DaemonJoined(None)
        }),
    decreases events.len(),
{
    if events.len() > 0 {
        let less = events.drop_last();
        lemma_daemons_stopped(flags, less);
        lemma_reachable(flags, less);
        lemma_stages(flags, less);
        let was = run(fresh(flags), less).1;
        let acts = run(fresh(flags), events).1;
        let m = run(fresh(flags), less).0;
        let n = run(fresh(flags), events).0;
        let last = less.len() as int;
        assert(acts =~= was.push(acts.last()));
        assert(events =~= less.push(events.last()));
        if m.stage == BodyStage::Join && n.stage == BodyStage::JoinDaemons {
            assert(stops_daemons_at(acts, last));
        }
        if m.stage == BodyStage::JoinDaemons || m.stage == BodyStage::Close {
            assert forall|s: int| #[trigger] stops_daemons_at(was, s) implies stops_daemons_at(
                acts,
                s,
            ) by {
                assert forall|k: int| s <= k < acts.len() implies !(#[trigger] acts[k] is Dispatch) by {
                    if k < last {
                        assert(!(was[k] is Dispatch));
                    }
                }
            }
            if m.stage == BodyStage::JoinDaemons {
                let s = choose|s: int| #[trigger]
                    stops_daemons_at(was, s) && less[s] == BodyEvent::Joined(None);
                assert(stops_daemons_at(acts, s) && events[s] == BodyEvent::Joined(None));
                assert(events[last] == events.last());
            } else if flags.contains(true) {
                let (s, j) = choose|s: int, j: int|
                    #![trigger stops_daemons_at(was, s), less[j]]
                    stops_daemons_at(was, s) && less[s] == BodyEvent::Joined(None) && s < j
                        < less.len() && less[j] == BodyEvent::DaemonJoined(None);
                assert(stops_daemons_at(acts, s) && events[s] == BodyEvent::Joined(None));
                assert(events[j] == BodyEvent::DaemonJoined(None));
            }
        }
    }
}

/// A body that ends has joined its foreground, told its daemons to end after the last
/// sibling started, and joined them, whether or not a child was lost. Only a permit that
/// cannot be had cuts this short.
pub proof fn law_daemons_are_stopped_and_joined(flags: Seq<bool>, events: Seq<BodyEvent>)
    requires
        run_is_expected(fresh(flags), events),
        events.len() > 0,
        run(fresh(flags), events).1.last() is Finish,
        !(events.last() is PermitLost),
    ensures
        drained(events),
        flags.contains(true) ==> exists|s: int, j: int|
            #![trigger stops_daemons_at(run(fresh(flags), events).1, s), events[j]]
            stops_daemons_at(run(fresh(flags), events).1, s) && events[s] == BodyEvent::Joined(None)
                && s < j < events.len() && events[j] == BodyEvent::DaemonJoined(None),
        !flags.contains(true) ==> forall|k: int|
            0 <= k < events.len() ==> !(#[trigger] run(fresh(flags), events).1[k] is StopDaemons),
{
    lemma_stages(flags, events);
    lemma_daemons_stopped(flags, events);
    let less = events.drop_last();
    lemma_stages(flags, less);
    if drained(less) {
        let i = less.index_of(BodyEvent::Joined(None));
        assert(events[i] == BodyEvent::Joined(None));
    }
    if !flags.contains(true) {
        lemma_stop_needs_daemon(flags, events);
    }
}

proof fn lemma_stop_needs_daemon(flags: Seq<bool>, events: Seq<BodyEvent>)
    requires
        run_is_expected(fresh(flags), events),
        !flags.contains(true),
    ensures
        forall|k: int|
            0 <= k < events.len() ==> !(#[trigger] run(fresh(flags), events).1[k] is StopDaemons),
    decreases events.len(),
{
    if events.len() > 0 {
        let less = events.drop_last();
        lemma_stop_needs_daemon(flags, less);
        lemma_reachable(flags, less);
        lemma_stages(flags, less);
        let was = run(fresh(flags), less).1;
        let acts = run(fresh(flags), events).1;
        assert(acts =~= was.push(acts.last()));
        assert forall|k: int| 0 <= k < events.len() implies !(#[trigger] acts[k] is StopDaemons) by {
            if k < less.len() {
                assert(!(was[k] is StopDaemons));
            }
        }
    }
}

/// Every sibling was started when a body ends, unless a child was lost, the walk was
/// halted or a permit could not be had.
pub proof fn law_body_starts_every_sibling(flags: Seq<bool>, events: Seq<BodyEvent>)
    requires
        run_is_expected(fresh(flags), events),
        events.len() > 0,
        run(fresh(flags), events).1.last() is Finish,
        !(events.last() is PermitLost),
        !some_lost(reported(events)),
        !events.contains(BodyEvent::Walk(true)),
    ensures
        dispatched(run(fresh(flags), events).1) == positions(flags, flags.len() as int, false),
        spawned(run(fresh(flags), events).1) == positions(flags, flags.len() as int, true),
{
    lemma_all_started(flags, events);
    lemma_stages(flags, events);
    lemma_reachable(flags, events);
}

proof fn lemma_all_started(flags: Seq<bool>, events: Seq<BodyEvent>)
    requires
        run_is_expected(fresh(flags), events),
        !some_lost(reported(events)),
        !events.contains(BodyEvent::Walk(true)),
    ensures
        ({
            let m = run(fresh(flags), events).0;
            m.stage == BodyStage::Join || m.stage == BodyStage::JoinDaemons || m.stage
                == BodyStage::Close || (m.stage == BodyStage::Done && !(events.last() is PermitLost))
                ==> m.cursor == flags.len()
        }),
    decreases events.len(),
{
    if events.len() > 0 {
        let less = events.drop_last();
        let e = events.last();
        assert(events[events.len() - 1] == e);
        assert forall|r: BodyEvent| #[trigger] less.contains(r) implies events.contains(r) by {
            let i = less.index_of(r);
            assert(events[i] == r);
        }
        if some_lost(reported(less)) {
            let i = choose|i: int|
                0 <= i < reported(less).len() && #[trigger] is_lost(reported(less)[i]);
            assert(is_lost(reported(events)[i]));
        }
        lemma_all_started(flags, less);
        lemma_reachable(flags, less);
        lemma_first_word(reported(less));
        lemma_stages(flags, less);
        let m = run(fresh(flags), less).0;
        if e is Proceed {
            lemma_next_flag(flags, 0, false);
            lemma_next_flag(flags, m.cursor, false);
        }
    }
}

/// Once the walk was found halted no sibling starts.
pub proof fn law_no_start_after_halt(flags: Seq<bool>, events: Seq<BodyEvent>, i: int, k: int)
    requires
        run_is_expected(fresh(flags), events),
        0 <= i <= k < events.len(),
        events[i] == BodyEvent::Walk(true),
    ensures
        !(run(fresh(flags), events).1[k] is Dispatch),
        !(run(fresh(flags), events).1[k] is Acquire),
{
    lemma_halted(flags, events, i);
}

proof fn lemma_halted(flags: Seq<bool>, events: Seq<BodyEvent>, i: int)
    requires
        run_is_expected(fresh(flags), events),
        0 <= i < events.len(),
        events[i] == BodyEvent::Walk(true),
    ensures
        ({
            let (m, acts) = run(fresh(flags), events);
            &&& m.stage == BodyStage::Join || m.stage == BodyStage::JoinDaemons || m.stage
                == BodyStage::Close || m.stage == BodyStage::Done
            &&& acts.len() == events.len()
            &&& forall|k: int|
                i <= k < acts.len() ==> !(#[trigger] acts[k] is Dispatch) && !(acts[k] is Acquire)
        }),
    decreases events.len(),
{
    let less = events.drop_last();
    lemma_stages(flags, less);
    lemma_stages(flags, events);
    let was = run(fresh(flags), less).1;
    let acts = run(fresh(flags), events).1;
    assert(acts =~= was.push(acts.last()));
    if i < less.len() {
        lemma_halted(flags, less, i);
        assert forall|k: int| i <= k < acts.len() implies !(#[trigger] acts[k] is Dispatch) && !(
        acts[k] is Acquire) by {
            if k < less.len() {
                assert(!(was[k] is Dispatch) && !(was[k] is Acquire));
            }
        }
    }
}

/// A sibling runs beside the others exactly where it is a phase that is declared so.
pub proof fn law_daemon_is_declared(node: ScenarioNode, phases: Map<Seq<char>, WorkloadPhase>)
    ensures
        node matches ScenarioNode::Phase(name) ==> (phases.contains_key(name@) && phases[name@].daemon
            <==> is_daemon(node, phases)),
        !(node is Phase) ==> !is_daemon(node, phases),
{
}

/// Siblings are announced in order, each with its place among all and its name.
pub proof fn law_siblings_are_announced(phases: Seq<(usize, String)>, total: usize, i: int)
    requires
        0 <= i < phases.len(),
    ensures
        preview_entries(phases, total).len() == phases.len(),
        preview_entries(phases, total)[i] == "["@ + text::decimal(phases[i].0 as nat) + "/"@
            + text::decimal(total as nat) + "] "@ + phases[i].1@,
{
}

} // verus!
