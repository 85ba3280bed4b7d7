//! Loops that run their children while, or until, a condition holds.

use vstd::prelude::*;

use crate::executor::context;
use crate::executor::context::ExecCtx;
use crate::executor::position::WalkPosition;
use crate::phase_outcome;
use crate::phase_outcome::{Outcome, Validity};
use crate::strmap::StrMap;
use crate::text;
use crate::text::{cat3, cat4, cat5, str_eq, u64_text};
use crate::value;
use crate::value::{Json, JsonNumber, Value};

verus! {

/// A scope of the scope tree, as far as loops are told apart by it.
#[derive(Debug, Clone, PartialEq)]
pub enum LoopScope {
    DoWhile { condition: String, counter: Option<String> },
    DoUntil { condition: String, counter: Option<String> },
    Other,
}

/// Whether the scope is that of the loop with this condition and counter.
pub open spec fn is_loop_scope(
    s: LoopScope,
    condition: Seq<char>,
    counter: Option<Seq<char>>,
    invert: bool,
) -> bool {
    match s {
        LoopScope::DoWhile { condition: c, counter: ct } => !invert && c@ == condition
            && phase_outcome::text_of(ct) == counter,
        LoopScope::DoUntil { condition: c, counter: ct } => invert && c@ == condition
            && phase_outcome::text_of(ct) == counter,
        LoopScope::Other => false,
    }
}

fn same_counter(a: &Option<String>, b: &Option<String>) -> (r: bool)
    ensures
        r == (phase_outcome::text_of(*a) == phase_outcome::text_of(*b)),
{
    match (a, b) {
        (Some(x), Some(y)) => str_eq(x.as_str(), y.as_str()),
        (None, None) => true,
        _ => false,
    }
}

/// The first scope that is that of the loop.
pub fn find_loop_scope(
    scopes: &Vec<LoopScope>,
    condition: &str,
    counter: &Option<String>,
    invert: bool,
) -> (r: Option<usize>)
    ensures
        r is Some <==> exists|i: int|
            0 <= i < scopes@.len() && #[trigger] is_loop_scope(
                scopes@[i],
                condition@,
                phase_outcome::text_of(*counter),
                invert,
            ),
        r matches Some(i) ==> i < scopes@.len() && is_loop_scope(
            scopes@[i as int],
            condition@,
            phase_outcome::text_of(*counter),
            invert,
        ) && forall|k: int|
            0 <= k < i ==> !#[trigger] is_loop_scope(
                scopes@[k],
                condition@,
                phase_outcome::text_of(*counter),
                invert,
            ),
{
    let mut i: usize = 0;
    while i < scopes.len()
        invariant
            i <= scopes@.len(),
            forall|k: int|
                0 <= k < i ==> !#[trigger] is_loop_scope(
                    scopes@[k],
                    condition@,
                    phase_outcome::text_of(*counter),
                    invert,
                ),
        decreases scopes@.len() - i,
    {
        let hit = match &scopes[i] {
            LoopScope::DoWhile { condition: c, counter: ct } => !invert && str_eq(
                c.as_str(),
                condition,
            ) && same_counter(ct, counter),
            LoopScope::DoUntil { condition: c, counter: ct } => invert && str_eq(
                c.as_str(),
                condition,
            ) && same_counter(ct, counter),
            LoopScope::Other => false,
        };
        assert(hit == is_loop_scope(
            scopes@[i as int],
            condition@,
            phase_outcome::text_of(*counter),
            invert,
        ));
        if hit {
            return Some(i);
        }
        i += 1;
    }
    None
}

/// Why a loop cannot start.
pub open spec fn loop_fault(
    condition: Seq<char>,
    scope_idx: Option<usize>,
    kernel_installed: bool,
    ancestor_installed: bool,
) -> Option<Seq<char>> {
    let head = "do-loop '"@ + condition;
    if scope_idx is None {
        Some(head + "': no matching scope-tree entry — scenario/scope-tree drift bug."@)
    } else if !kernel_installed {
        Some(
            head + "': scope at index "@ + text::decimal(scope_idx->0 as nat)
                + " has no installed kernel."@,
        )
    } else if !ancestor_installed {
        Some(head + "': no installed ancestor kernel."@)
    } else {
        None
    }
}

/// Checks that a loop can start.
pub fn check_loop(
    condition: &str,
    scope_idx: Option<usize>,
    kernel_installed: bool,
    ancestor_installed: bool,
) -> (r: Result<(), String>)
    ensures
        match r {
            Ok(_) => loop_fault(condition@, scope_idx, kernel_installed, ancestor_installed) is None,
            Err(e) => loop_fault(condition@, scope_idx, kernel_installed, ancestor_installed)
                == Some(e@),
        },
{
    match scope_idx {
        None => Err(
            cat3(
                "do-loop '",
                condition,
                "': no matching scope-tree entry — scenario/scope-tree drift bug.",
            ),
        ),
        Some(idx) => {
            if !kernel_installed {
                Err(
                    cat5(
                        "do-loop '",
                        condition,
                        "': scope at index ",
                        u64_text(idx as u64).as_str(),
                        " has no installed kernel.",
                    ),
                )
            } else if !ancestor_installed {
                Err(cat3("do-loop '", condition, "': no installed ancestor kernel."))
            } else {
                Ok(())
            }
        },
    }
}

/// What a condition value says, if it is one.
pub open spec fn condition_value(v: Value) -> Option<bool> {
    match v {
        Value::Bool(b) => Some(b),
        Value::U64(n) => Some(n != 0),
        Value::F64(f) => Some(!value::zero_bits(f.bits)),
        _ => None,
    }
}

/// What evaluating the condition gave: a value and how it is written out, or an
/// error.
pub enum Condition {
    Value(Value, String),
    Fault(String),
}

/// Whether the loop goes on, or why that cannot be said.
pub open spec fn goes_on(condition: Seq<char>, c: Condition, invert: bool) -> Result<bool, Seq<char>> {
    match c {
        Condition::Fault(e) => Err("do-loop condition '"@ + condition + "': "@ + e@),
        Condition::Value(v, shown) => match condition_value(v) {
            Some(b) => Ok(b != invert),
            None => Err(
                "do-loop condition '"@ + condition + "': expected bool/u64/f64, got "@ + shown@,
            ),
        },
    }
}

/// What happened.
pub enum LoopEvent {
    Start,
    Condition(Condition),
    /// The children ended; `reclaimed` says whether the loop's own scope came
    /// back unshared.
    Body { outcome: Outcome, reclaimed: bool },
}

/// What to do next, with the value of the counter.
pub enum LoopAction {
    Evaluate(u64),
    Run(u64),
    Finish(Result<(), String>),
}

#[derive(Debug, Clone, Copy, PartialEq, Eq, Structural)]
pub enum LoopStage {
    Fresh,
    Evaluating,
    Running,
    Done,
}

/// A loop in the course of running.
pub struct DoLoop {
    condition: String,
    invert: bool,
    count: u64,
    stage: LoopStage,
}

pub struct LoopModel {
    pub condition: Seq<char>,
    pub invert: bool,
    pub count: u64,
    pub stage: LoopStage,
}

pub enum LoopActionModel {
    Evaluate(u64),
    Run(u64),
    Finish(Option<Seq<char>>),
}

pub open spec fn loop_action(a: LoopAction) -> LoopActionModel {
    match a {
        LoopAction::Evaluate(n) => LoopActionModel::Evaluate(n),
        LoopAction::Run(n) => LoopActionModel::Run(n),
        LoopAction::Finish(Ok(_)) => LoopActionModel::Finish(None),
        LoopAction::Finish(Err(e)) => LoopActionModel::Finish(Some(e@)),
    }
}

pub open spec fn loop_expects(stage: LoopStage, e: LoopEvent) -> bool {
    match stage {
        LoopStage::Fresh => e is Start,
        LoopStage::Evaluating => e is Condition,
        LoopStage::Running => e is Body,
        LoopStage::Done => false,
    }
}

/// The counter after one more iteration; it stays at its greatest value.
pub open spec fn counted(n: u64) -> u64 {
    if n == u64::MAX {
        n
    } else {
        (n + 1) as u64
    }
}

/// One step of a loop. A loop whose scope is still shared after its children
/// ended stops with an error, before the outcome of the children counts.
pub open spec fn loop_step(m: LoopModel, e: LoopEvent) -> (LoopModel, LoopActionModel) {
    match e {
        LoopEvent::Start => (
            LoopModel { stage: LoopStage::Evaluating, ..m },
            LoopActionModel::Evaluate(m.count),
        ),
        LoopEvent::Condition(c) => match goes_on(m.condition, c, m.invert) {
            Ok(true) => (
                LoopModel { stage: LoopStage::Running, ..m },
                LoopActionModel::Run(m.count),
            ),
            Ok(false) => (
                LoopModel { stage: LoopStage::Done, ..m },
                LoopActionModel::Finish(None),
            ),
            Err(why) => (
                LoopModel { stage: LoopStage::Done, ..m },
                LoopActionModel::Finish(Some(why)),
            ),
        },
        LoopEvent::Body { outcome, reclaimed } => if !reclaimed {
            (
                LoopModel { stage: LoopStage::Done, ..m },
                LoopActionModel::Finish(
                    Some(
                        "do-loop '"@ + m.condition + "' iteration "@ + text::decimal(
                            m.count as nat,
                        )
                            + ": persistent kernel still referenced after children completed — concurrency bug."@,
                    ),
                ),
            )
        } else if outcome.failing() {
            (
                LoopModel { stage: LoopStage::Done, ..m },
                LoopActionModel::Finish(
                    Some(
                        match outcome.reason {
                            Some(s) => s@,
                            None => Seq::empty(),
                        },
                    ),
                ),
            )
        } else {
            (
                LoopModel { count: counted(m.count), stage: LoopStage::Evaluating, ..m },
                LoopActionModel::Evaluate(counted(m.count)),
            )
        },
    }
}

impl View for DoLoop {
    type V = LoopModel;

    closed spec fn view(&self) -> LoopModel {
        LoopModel {
            condition: self.condition@,
            invert: self.invert,
            count: self.count,
            stage: self.stage,
        }
    }
}

pub open spec fn fresh_loop(condition: Seq<char>, invert: bool) -> LoopModel {
    LoopModel { condition, invert, count: 0, stage: LoopStage::Fresh }
}

impl DoLoop {
    /// A loop over `condition`, while it holds or, inverted, until it does.
    pub fn new(condition: &str, invert: bool) -> (r: Self)
        ensures
            r@ == fresh_loop(condition@, invert),
    {
        DoLoop { condition: condition.to_owned(), invert, count: 0, stage: LoopStage::Fresh }
    }

    fn decide(&self, c: Condition) -> (r: Result<bool, String>)
        ensures
            match (r, goes_on(self@.condition, c, self@.invert)) {
                (Ok(a), Ok(b)) => a == b,
                (Err(a), Err(b)) => a@ == b,
                _ => false,
            },
    {
        match c {
            Condition::Fault(e) => Err(
                cat4("do-loop condition '", self.condition.as_str(), "': ", e.as_str()),
            ),
            Condition::Value(v, shown) => {
                let holds: bool = match v {
                    Value::Bool(b) => b,
                    Value::U64(n) => n != 0,
                    Value::F64(f) => !f.is_zero(),
                    _ => {
                        return Err(
                            cat4(
                                "do-loop condition '",
                                self.condition.as_str(),
                                "': expected bool/u64/f64, got ",
                                shown.as_str(),
                            ),
                        );
                    },
                };
                Ok(holds != self.invert)
            },
        }
    }

    /// Takes what happened and says what to do next.
    pub fn advance(&mut self, event: LoopEvent) -> (r: LoopAction)
        requires
            loop_expects(old(self)@.stage, event),
        ensures
            (final(self)@, loop_action(r)) == loop_step(old(self)@, event),
    {
        match event {
            LoopEvent::Start => {
                self.stage = LoopStage::Evaluating;
                LoopAction::Evaluate(self.count)
            },
            LoopEvent::Condition(c) => {
                match self.decide(c) {
                    Ok(true) => {
                        self.stage = LoopStage::Running;
                        LoopAction::Run(self.count)
                    },
                    Ok(false) => {
                        self.stage = LoopStage::Done;
                        LoopAction::Finish(Ok(()))
                    },
                    Err(e) => {
                        self.stage = LoopStage::Done;
                        LoopAction::Finish(Err(e))
                    },
                }
            },
            LoopEvent::Body { outcome, reclaimed } => {
                if !reclaimed {
                    self.stage = LoopStage::Done;
                    return LoopAction::Finish(
                        Err(
                            cat5(
                                "do-loop '",
                                self.condition.as_str(),
                                "' iteration ",
                                u64_text(self.count).as_str(),
                                ": persistent kernel still referenced after children completed — concurrency bug.",
                            ),
                        ),
                    );
                }
                if outcome.is_failure() {
                    self.stage = LoopStage::Done;
                    return LoopAction::Finish(
                        Err(
                            match outcome.reason {
                                Some(s) => s,
                                None => String::new(),
                            },
                        ),
                    );
                }
                self.count = if self.count == u64::MAX {
                    self.count
                } else {
                    self.count + 1
                };
                self.stage = LoopStage::Evaluating;
                LoopAction::Evaluate(self.count)
            },
        }
    }
}

/// The word under which the iterations of a loop are recorded.
pub fn loop_kind(invert: bool) -> (r: &'static str)
    ensures
        r@ == (if invert {
            "do_until"@
        } else {
            "do_while"@
        }),
{
    if invert {
        "do_until"
    } else {
        "do_while"
    }
}

/// The coordinates of one iteration: its counter, where the loop has one.
pub fn loop_coords(counter: &Option<String>, count: u64) -> (r: StrMap<Json>)
    ensures
        r.wf(),
        r@ == (match counter {
            Some(c) => Map::<Seq<char>, Json>::empty().insert(
                c@,
                Json::Number(JsonNumber::Unsigned(count)),
            ),
            None => Map::<Seq<char>, Json>::empty(),
        }),
{
    let mut m: StrMap<Json> = StrMap::new();
    if let Some(c) = counter {
        m.insert(c.clone(), Json::Number(JsonNumber::Unsigned(count)));
    }
    m
}

/// An until-loop goes on exactly when the while-loop over the same condition
/// would not, and both fail alike.
pub proof fn law_until_negates_while(condition: Seq<char>, c: Condition)
    ensures
        match (goes_on(condition, c, false), goes_on(condition, c, true)) {
            (Ok(a), Ok(b)) => a != b,
            (Err(a), Err(b)) => a == b,
            _ => false,
        },
{
}

pub open spec fn loop_run(m: LoopModel, events: Seq<LoopEvent>) -> (LoopModel, Seq<LoopActionModel>)
    decreases events.len(),
{
    if events.len() == 0 {
        (m, Seq::empty())
    } else {
        let before = loop_run(m, events.drop_last());
        let next = loop_step(before.0, events.last());
        (next.0, before.1.push(next.1))
    }
}

/// How often the children were run.
pub open spec fn bodies_run(actions: Seq<LoopActionModel>) -> nat
    decreases actions.len(),
{
    if actions.len() == 0 {
        0
    } else {
        bodies_run(actions.drop_last()) + (if actions.last() is Run {
            1nat
        } else {
            0
        })
    }
}

pub open spec fn loop_run_expected(m: LoopModel, events: Seq<LoopEvent>) -> bool
    decreases events.len(),
{
    events.len() == 0 || (loop_run_expected(m, events.drop_last()) && loop_expects(
        loop_run(m, events.drop_last()).0.stage,
        events.last(),
    ))
}

proof fn lemma_loop_count(condition: Seq<char>, invert: bool, events: Seq<LoopEvent>)
    requires
        loop_run_expected(fresh_loop(condition, invert), events),
    ensures
        ({
            let m = loop_run(fresh_loop(condition, invert), events).0;
            let n = bodies_run(loop_run(fresh_loop(condition, invert), events).1);
            &&& m.stage == LoopStage::Fresh ==> n == 0 && m.count == 0
            &&& m.stage == LoopStage::Evaluating ==> m.count == (if n < u64::MAX {
                n as int
            } else {
                u64::MAX as int
            })
            &&& m.stage == LoopStage::Running ==> n > 0 && m.count == (if n - 1 < u64::MAX {
                n - 1
            } else {
                u64::MAX as int
            })
        }),
    decreases events.len(),
{
    if events.len() > 0 {
        lemma_loop_count(condition, invert, events.drop_last());
        let acts = loop_run(fresh_loop(condition, invert), events).1;
        assert(acts.drop_last() =~= loop_run(
            fresh_loop(condition, invert),
            events.drop_last(),
        ).1);
    }
}

/// The counter counts the iterations: when the children run for the n-th time
/// it is n - 1, up to its greatest value.
pub proof fn law_counter_counts_iterations(
    condition: Seq<char>,
    invert: bool,
    events: Seq<LoopEvent>,
    e: LoopEvent,
    shown: u64,
)
    requires
        loop_run_expected(fresh_loop(condition, invert), events),
        loop_expects(loop_run(fresh_loop(condition, invert), events).0.stage, e),
        loop_step(loop_run(fresh_loop(condition, invert), events).0, e).1 == LoopActionModel::Run(
            shown,
        ),
    ensures
        ({
            let n = bodies_run(loop_run(fresh_loop(condition, invert), events).1);
            shown == (if n < u64::MAX {
                n as int
            } else {
                u64::MAX as int
            })
        }),
{
    lemma_loop_count(condition, invert, events);
}

/// The event lets the loop go on: its condition says so, or its children ended well
/// and its scope came back.
pub open spec fn lets_go_on(condition: Seq<char>, invert: bool, e: LoopEvent) -> bool {
    match e {
        LoopEvent::Start => true,
        LoopEvent::Condition(c) => goes_on(condition, c, invert) == Ok::<bool, Seq<char>>(true),
        LoopEvent::Body { outcome, reclaimed } => reclaimed && !outcome.failing(),
    }
}

/// The loop ends at the first event that does not let it go on, and at no other: the
/// first condition that ends it, the first fault, or the first iteration that failed.
/// Nothing runs after it.
pub proof fn law_loop_ends_at_first_refusal(
    condition: Seq<char>,
    invert: bool,
    events: Seq<LoopEvent>,
)
    requires
        loop_run_expected(fresh_loop(condition, invert), events),
    ensures
        forall|i: int|
            0 <= i < events.len() - 1 ==> lets_go_on(condition, invert, #[trigger] events[i]),
        loop_run(fresh_loop(condition, invert), events).0.stage == LoopStage::Done <==> (
        events.len() > 0 && !lets_go_on(condition, invert, events.last())),
        loop_run(fresh_loop(condition, invert), events).0.condition == condition,
        loop_run(fresh_loop(condition, invert), events).0.invert == invert,
    decreases events.len(),
{
    if events.len() > 0 {
        let init = events.drop_last();
        law_loop_ends_at_first_refusal(condition, invert, init);
        assert forall|i: int| 0 <= i < events.len() - 1 implies lets_go_on(
            condition,
            invert,
            #[trigger] events[i],
        ) by {
            if i < init.len() - 1 {
                assert(lets_go_on(condition, invert, init[i]));
            } else {
                assert(events[i] == init.last());
            }
        }
    }
}

/// The label of one iteration: its counter, where the loop has one.
pub open spec fn loop_label(counter: Option<String>, count: u64) -> Seq<(Seq<char>, Seq<char>)> {
    match counter {
        Some(c) => seq![(c@, text::decimal(count as nat))],
        None => Seq::empty(),
    }
}

/// Going into an iteration leads from `before` to `inside`: its label is pushed and
/// children read from the kernel of the loop.
pub open spec fn loop_entered(
    before: ExecCtx,
    counter: Option<String>,
    count: u64,
    kernel: u64,
    inside: ExecCtx,
    prior: Option<u64>,
) -> bool {
    &&& inside == (ExecCtx {
        label_stack: inside.label_stack,
        position: inside.position,
        ..before
    })
    &&& context::label_views(inside.label_stack@) == context::label_views(before.label_stack@)
        + loop_label(counter, count)
    &&& inside.label_stack@.take(before.label_stack@.len() as int) == before.label_stack@
    &&& inside.position == (WalkPosition { parent_kernel: Some(kernel), ..before.position })
    &&& prior == before.position.parent_kernel
}

/// Coming out of an iteration leads from `inside` to `after`: the label of the
/// counter is taken off and children read from what they read from before.
pub open spec fn loop_left(
    inside: ExecCtx,
    counter: Option<String>,
    prior: Option<u64>,
    after: ExecCtx,
) -> bool {
    &&& after == (ExecCtx { label_stack: after.label_stack, position: after.position, ..inside })
    &&& after.label_stack@ == (if counter is Some {
        inside.label_stack@.drop_last()
    } else {
        inside.label_stack@
    })
    &&& after.position == (WalkPosition { parent_kernel: prior, ..inside.position })
}

/// Goes into an iteration of a loop whose values are held under `kernel`. What
/// children read from before is handed back.
pub fn enter_loop_iteration(
    ctx: &mut ExecCtx,
    counter: &Option<String>,
    count: u64,
    kernel: u64,
) -> (prior: Option<u64>)
    ensures
        loop_entered(*old(ctx), *counter, count, kernel, *final(ctx), prior),
{
    let ghost before = ctx.label_stack@;
    let prior = ctx.position.install_kernel(kernel);
    if let Some(c) = counter {
        ctx.push_label(c.as_str(), u64_text(count).as_str());
        assert(ctx.label_stack@.take(before.len() as int) =~= ctx.label_stack@.drop_last());
        assert(context::label_views(ctx.label_stack@) =~= context::label_views(before)
            + loop_label(*counter, count));
    } else {
        assert(ctx.label_stack@.take(before.len() as int) =~= before);
        assert(context::label_views(ctx.label_stack@) =~= context::label_views(before)
            + loop_label(*counter, count));
    }
    prior
}

/// Comes out of an iteration of a loop.
pub fn leave_loop_iteration(ctx: &mut ExecCtx, counter: &Option<String>, prior: Option<u64>)
    requires
        *counter is Some ==> old(ctx).label_stack@.len() > 0,
    ensures
        loop_left(*old(ctx), *counter, prior, *final(ctx)),
{
    ctx.position.restore_kernel(prior);
    if counter.is_some() {
        ctx.pop_label();
    }
}

/// Coming out of an iteration restores the labels and the kernel that were in force
/// before it, and all else of the walk.
pub proof fn law_loop_iteration_restores(
    before: ExecCtx,
    counter: Option<String>,
    count: u64,
    kernel: u64,
    inside: ExecCtx,
    prior: Option<u64>,
    after: ExecCtx,
)
    requires
        loop_entered(before, counter, count, kernel, inside, prior),
        loop_left(inside, counter, prior, after),
    ensures
        after.label_stack@ == before.label_stack@,
        after == (ExecCtx { label_stack: after.label_stack, ..before }),
{
    let n = before.label_stack@.len() as int;
    assert(context::label_views(inside.label_stack@).len() == inside.label_stack@.len());
    if counter is Some {
        assert(inside.label_stack@.drop_last() =~= inside.label_stack@.take(n));
    } else {
        assert(inside.label_stack@ =~= inside.label_stack@.take(n));
    }
}

/// What a loop holds while it runs: the labels in force and the kernel that children
/// read from.
pub ghost struct Held {
    pub labels: Seq<(Seq<char>, Seq<char>)>,
    pub kernel: Option<u64>,
}

/// The labels and the kernel that the walk holds.
pub open spec fn held_by(ctx: ExecCtx) -> Held {
    Held {
        labels: context::label_views(ctx.label_stack@),
        kernel: ctx.position.parent_kernel,
    }
}

/// What is held inside an iteration.
pub open spec fn held_inside(h: Held, counter: Option<String>, count: u64, kernel: u64) -> Held {
    Held { labels: h.labels + loop_label(counter, count), kernel: Some(kernel) }
}

/// What is held after an iteration.
pub open spec fn held_after(h: Held, counter: Option<String>, prior: Option<u64>) -> Held {
    Held {
        labels: if counter is Some {
            h.labels.drop_last()
        } else {
            h.labels
        },
        kernel: prior,
    }
}

/// What is held after a series of events: an iteration is gone into when the loop
/// runs its children, and left when they have ended, whatever came of them.
pub open spec fn held_along(
    h: Held,
    counter: Option<String>,
    kernel: u64,
    m: LoopModel,
    events: Seq<LoopEvent>,
) -> Held
    decreases events.len(),
{
    if events.len() == 0 {
        h
    } else {
        let init = events.drop_last();
        let before = held_along(h, counter, kernel, m, init);
        let back = if events.last() is Body {
            held_after(before, counter, h.kernel)
        } else {
            before
        };
        match loop_step(loop_run(m, init).0, events.last()).1 {
            LoopActionModel::Run(n) => held_inside(back, counter, n, kernel),
            _ => back,
        }
    }
}

/// Going into an iteration and coming out of it change what the walk holds as the
/// loop says.
pub proof fn law_iteration_moves_what_is_held(
    before: ExecCtx,
    counter: Option<String>,
    count: u64,
    kernel: u64,
    inside: ExecCtx,
    prior: Option<u64>,
    after: ExecCtx,
)
    requires
        loop_entered(before, counter, count, kernel, inside, prior),
        loop_left(inside, counter, prior, after),
    ensures
        held_by(inside) == held_inside(held_by(before), counter, count, kernel),
        held_by(after) == held_after(held_by(inside), counter, prior),
{
    if counter is Some {
        assert(context::label_views(inside.label_stack@).len() == inside.label_stack@.len());
        assert(context::label_views(inside.label_stack@.drop_last()) =~= context::label_views(
            inside.label_stack@,
        ).drop_last());
    }
}

/// While children run, the labels are those at the call and the counter of their
/// iteration; at any other time, and so whenever the loop ends, with or without an
/// error, the labels and the kernel are those at the call.
pub proof fn law_loop_restores_walk(
    h: Held,
    counter: Option<String>,
    kernel: u64,
    condition: Seq<char>,
    invert: bool,
    events: Seq<LoopEvent>,
)
    requires
        loop_run_expected(fresh_loop(condition, invert), events),
    ensures
        ({
            let m = loop_run(fresh_loop(condition, invert), events).0;
            let now = held_along(h, counter, kernel, fresh_loop(condition, invert), events);
            &&& m.stage == LoopStage::Running ==> now == held_inside(h, counter, m.count, kernel)
            &&& m.stage != LoopStage::Running ==> now == h
        }),
    decreases events.len(),
{
    if events.len() > 0 {
        law_loop_restores_walk(h, counter, kernel, condition, invert, events.drop_last());
        let m = loop_run(fresh_loop(condition, invert), events.drop_last()).0;
        if events.last() is Body {
            let inside = held_inside(h, counter, m.count, kernel);
            assert(counter is Some ==> inside.labels.drop_last() =~= h.labels);
            assert(counter is None ==> inside.labels =~= h.labels);
        }
    }
}

/// A condition holds that is true or a number other than zero; where it is neither a
/// truth value nor a number the loop cannot go on. A loop goes on while its condition
/// holds or, inverted, while it does not.
pub proof fn law_condition_decides(condition: Seq<char>, v: Value, shown: String, invert: bool)
    ensures
        match goes_on(condition, Condition::Value(v, shown), invert) {
            Ok(on) => match v {
                Value::Bool(b) => on == (b != invert),
                Value::U64(n) => on == ((n > 0) != invert),
                Value::F64(f) => on == !invert <==> f.bits % 0x8000_0000_0000_0000 != 0,
                _ => false,
            },
            Err(why) => {
                &&& !(v is Bool) && !(v is U64) && !(v is F64)
                &&& why == "do-loop condition '"@ + condition
                    + "': expected bool/u64/f64, got "@ + shown@
            },
        },
{
}

/// A condition that cannot be evaluated never lets the loop go on, inverted or not.
pub proof fn law_condition_fault_ends(condition: Seq<char>, e: String, invert: bool)
    ensures
        goes_on(condition, Condition::Fault(e), invert) == Err::<bool, Seq<char>>(
            "do-loop condition '"@ + condition + "': "@ + e@,
        ),
{
}

/// A scope belongs to one loop at most: loops that differ in their condition, their
/// counter or their sense have different scopes, and each loop has the scope made for it.
pub proof fn law_loop_scope_is_its_own(
    s: LoopScope,
    a: Seq<char>,
    a_counter: Option<Seq<char>>,
    a_invert: bool,
    b: Seq<char>,
    b_counter: Option<Seq<char>>,
    b_invert: bool,
)
    ensures
        is_loop_scope(s, a, a_counter, a_invert) && is_loop_scope(s, b, b_counter, b_invert) ==> a
            == b && a_counter == b_counter && a_invert == b_invert,
        s matches LoopScope::DoWhile { condition, counter } ==> is_loop_scope(
            s,
            condition@,
            phase_outcome::text_of(counter),
            false,
        ),
        s matches LoopScope::DoUntil { condition, counter } ==> is_loop_scope(
            s,
            condition@,
            phase_outcome::text_of(counter),
            true,
        ),
        s is Other ==> !is_loop_scope(s, a, a_counter, a_invert),
{
}

/// A loop starts exactly when its scope is there and both kernels are.
pub proof fn law_loop_starts_iff_installed(
    condition: Seq<char>,
    scope_idx: Option<usize>,
    kernel_installed: bool,
    ancestor_installed: bool,
)
    ensures
        loop_fault(condition, scope_idx, kernel_installed, ancestor_installed) is None <==> scope_idx
            is Some && kernel_installed && ancestor_installed,
{
}

/// The event tells what came of the action.
pub open spec fn loop_answers(last: LoopActionModel, e: LoopEvent) -> bool {
    match last {
        LoopActionModel::Evaluate(_) => e is Condition,
        LoopActionModel::Run(_) => e is Body,
        LoopActionModel::Finish(_) => false,
    }
}

proof fn lemma_loop_stages(condition: Seq<char>, invert: bool, events: Seq<LoopEvent>)
    requires
        loop_run_expected(fresh_loop(condition, invert), events),
    ensures
        ({
            let (m, acts) = loop_run(fresh_loop(condition, invert), events);
            &&& acts.len() == events.len()
            &&& events.len() == 0 ==> m.stage == LoopStage::Fresh
            &&& events.len() > 0 ==> match acts.last() {
                LoopActionModel::Evaluate(n) => m.stage == LoopStage::Evaluating && m.count == n,
                LoopActionModel::Run(n) => m.stage == LoopStage::Running && m.count == n,
                LoopActionModel::Finish(_) => m.stage == LoopStage::Done,
            }
        }),
    decreases events.len(),
{
    if events.len() > 0 {
        lemma_loop_stages(condition, invert, events.drop_last());
    }
}

/// What a loop waits for is told by what it asked last; after its end it waits for
/// nothing.
pub proof fn law_loop_awaits_what_it_asked(
    condition: Seq<char>,
    invert: bool,
    events: Seq<LoopEvent>,
    e: LoopEvent,
)
    requires
        loop_run_expected(fresh_loop(condition, invert), events),
    ensures
        ({
            let (m, acts) = loop_run(fresh_loop(condition, invert), events);
            loop_expects(m.stage, e) <==> if events.len() == 0 {
                e is Start
            } else {
                loop_answers(acts.last(), e)
            }
        }),
{
    lemma_loop_stages(condition, invert, events);
}

/// What a loop asks for next: the condition before every iteration, the children while it
/// says so, and the end otherwise. A scope that is still shared ends it even where its
/// children failed, and their reason ends it where they did.
pub proof fn law_loop_reacts_to_history(
    condition: Seq<char>,
    invert: bool,
    events: Seq<LoopEvent>,
    e: LoopEvent,
)
    requires
        loop_run_expected(fresh_loop(condition, invert), events),
        loop_expects(loop_run(fresh_loop(condition, invert), events).0.stage, e),
    ensures
        ({
            let (m, acts) = loop_run(fresh_loop(condition, invert), events);
            let a = loop_step(m, e).1;
            let n = bodies_run(acts);
            let shown = if n < u64::MAX {
                n as int
            } else {
                u64::MAX as int
            };
            match e {
                LoopEvent::Start => a == LoopActionModel::Evaluate(0),
                LoopEvent::Condition(c) => match goes_on(condition, c, invert) {
                    Ok(on) => if on {
                        a == LoopActionModel::Run(shown as u64)
                    } else {
                        a == LoopActionModel::Finish(None)
                    },
                    Err(why) => a == LoopActionModel::Finish(Some(why)),
                },
                LoopEvent::Body { outcome, reclaimed } => {
                    &&& !reclaimed ==> a is Finish && a->Finish_0 is Some
                    &&& reclaimed && outcome.validity == Validity::Failed ==> a
                        == LoopActionModel::Finish(
                        Some(
                            match outcome.reason {
                                Some(s) => s@,
                                None => Seq::<char>::empty(),
                            },
                        ),
                    )
                    &&& reclaimed && outcome.validity != Validity::Failed ==> a
                        == LoopActionModel::Evaluate(shown as u64)
                },
            }
        }),
{
    lemma_loop_stages(condition, invert, events);
    lemma_loop_count(condition, invert, events);
    law_loop_ends_at_first_refusal(condition, invert, events);
}

/// Inside an iteration the labels are those from before and the counter, where the loop
/// has one, and values are read from the kernel of the loop.
pub proof fn law_iteration_is_labelled(
    before: ExecCtx,
    counter: Option<String>,
    count: u64,
    kernel: u64,
    inside: ExecCtx,
    prior: Option<u64>,
)
    requires
        loop_entered(before, counter, count, kernel, inside, prior),
    ensures
        ({
            let was = context::label_views(before.label_stack@);
            let now = context::label_views(inside.label_stack@);
            &&& counter is None ==> now == was
            &&& counter matches Some(c) ==> now == was.push((c@, text::decimal(count as nat)))
            &&& inside.position.parent_kernel == Some(kernel)
            &&& prior == before.position.parent_kernel
        }),
{
    let was = context::label_views(before.label_stack@);
    if let Some(c) = counter {
        assert(was + loop_label(counter, count) =~= was.push((c@, text::decimal(count as nat))));
    } else {
        assert(was + loop_label(counter, count) =~= was);
    }
}

} // verus!
