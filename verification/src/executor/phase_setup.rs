//! Setting up a phase: whether it runs, under which bounds, and what is refused
//! before anything is started.

use vstd::prelude::*;

use crate::adapter;
use crate::adapter::{find_shared_driver, position_of, resolve_driver_name, Registry};
use crate::executor::context;
use crate::executor::context::{PhaseFilter, RefinePlan, RefineScope};
use crate::executor::coords;
use crate::executor::coords::{format_iter_label, ScopeCoord};
use crate::executor::shell;
use crate::executor::shell::{resolve_stop_scope, StopScope};
use crate::executor::vars;
use crate::executor::vars::IterVars;
use crate::model;
use crate::model::{ExecDepth, OpTemplate, PollSpec, ScopeLevel, StopWhen, WorkloadPhase};
use crate::phase_outcome;
use crate::phase_outcome::{Disposition, Outcome, Validity};
use crate::strmap::StrMap;
use crate::text;
use crate::text::{
    cat2, cat3, cat4, cat5, cat6, cat7, cat8, chars_of, ends_with, is_float, parse_u64, parse_usize,
    starts_with, str_eq, string_of, strip_end_text, strip_start_text, trim_text, u64_text,
};
use crate::value;
use crate::value::{Float, Value};

verus! {

/// What a resume plan says of a phase.
pub enum ResumeAction {
    /// It completed before and may be skipped.
    Skip,
    /// What was recorded is of another phase.
    IdentityMismatch(String),
    /// It was suspended and could go on.
    CursorResume,
    ReRun,
}

/// Whether a phase is skipped on resume. In a refining run the hash decides
/// instead.
pub fn resume_skips(action: &ResumeAction, refining: bool) -> (r: bool)
    ensures
        r == (*action is Skip && !refining),
{
    match action {
        ResumeAction::Skip => !refining,
        _ => false,
    }
}

/// The name of the wire that an op gate reads: its text without the braces
/// around it.
pub fn gate_wire(cond: &str) -> (r: String)
    ensures
        r@ == text::strip_end(text::strip_start(text::trimmed(cond@), '{'), '}'),
{
    let t = trim_text(cond);
    let inner = strip_start_text(t.as_str(), '{');
    strip_end_text(inner.as_str(), '}')
}

/// An op scope of a phase with the value of its gate, where that could be read.
pub struct GateProbe {
    pub op: String,
    pub value: Option<Value>,
}

/// The op of this name that has a gate.
pub open spec fn gated_op(ops: Seq<OpTemplate>, name: Seq<char>) -> bool {
    exists|i: int|
        0 <= i < ops.len() && (#[trigger] ops[i]).name@ == name && ops[i].condition is Some
            && forall|k: int| 0 <= k < i ==> (#[trigger] ops[k]).name@ != name
}

/// A gate that was read and is false.
pub open spec fn reads_false(p: GateProbe) -> bool {
    p.value is Some && !value::truthy_value(p.value->0)
}

/// How many of the probes are of ops with gates.
pub open spec fn gates_found(probes: Seq<GateProbe>, ops: Seq<OpTemplate>) -> nat
    decreases probes.len(),
{
    if probes.len() == 0 {
        0
    } else {
        gates_found(probes.drop_last(), ops) + (if gated_op(ops, probes.last().op@) {
            1nat
        } else {
            0
        })
    }
}

/// Every op has a gate, and there is at least one op.
pub open spec fn all_gated(ops: Seq<OpTemplate>) -> bool {
    ops.len() > 0 && forall|i: int| 0 <= i < ops.len() ==> (#[trigger] ops[i]).condition is Some
}

/// A phase is passed over when each of its ops has a gate that was found, read
/// and false. `scopes` is how many scopes carry the name of the phase: with any
/// number but one nothing is concluded.
pub open spec fn pruned(
    prune_mode: bool,
    ops: Seq<OpTemplate>,
    has_parent: bool,
    scopes: nat,
    probes: Seq<GateProbe>,
) -> bool {
    &&& prune_mode
    &&& all_gated(ops)
    &&& has_parent
    &&& scopes == 1
    &&& forall|i: int|
        0 <= i < probes.len() && gated_op(ops, (#[trigger] probes[i]).op@) ==> reads_false(
            probes[i],
        )
    &&& gates_found(probes, ops) == ops.len()
}

fn find_gated(ops: &Vec<OpTemplate>, name: &str) -> (r: bool)
    ensures
        r == gated_op(ops@, name@),
{
    let mut i: usize = 0;
    while i < ops.len()
        invariant
            i <= ops@.len(),
            forall|k: int| 0 <= k < i ==> (#[trigger] ops@[k]).name@ != name@,
        decreases ops@.len() - i,
    {
        if str_eq(ops[i].name.as_str(), name) {
            let has = ops[i].condition.is_some();
            proof {
                if has {
                    assert(gated_op(ops@, name@));
                } else if gated_op(ops@, name@) {
                    let w = choose|w: int|
                        0 <= w < ops@.len() && (#[trigger] ops@[w]).name@ == name@
                            && ops@[w].condition is Some && forall|k: int|
                            0 <= k < w ==> (#[trigger] ops@[k]).name@ != name@;
                    assert(ops@[i as int].name@ == name@);
                    assert(w != i);
                }
            }
            return has;
        }
        i += 1;
    }
    false
}

/// Whether a phase whose op gates are all false is passed over.
pub fn prunes(
    prune_mode: bool,
    ops: &Vec<OpTemplate>,
    has_parent: bool,
    scopes: usize,
    probes: &Vec<GateProbe>,
) -> (r: bool)
    ensures
        r == pruned(prune_mode, ops@, has_parent, scopes as nat, probes@),
{
    if !prune_mode || ops.len() == 0 || !has_parent || scopes != 1 {
        return false;
    }
    let mut i: usize = 0;
    while i < ops.len()
        invariant
            i <= ops@.len(),
            forall|k: int| 0 <= k < i ==> (#[trigger] ops@[k]).condition is Some,
        decreases ops@.len() - i,
    {
        if ops[i].condition.is_none() {
            assert(ops@[i as int].condition is None);
            return false;
        }
        i += 1;
    }
    let mut found: usize = 0;
    let mut j: usize = 0;
    assert(probes@.take(0).len() == 0);
    while j < probes.len()
        invariant
            j <= probes@.len(),
            found <= j,
            found == gates_found(probes@.take(j as int), ops@),
            forall|k: int|
                0 <= k < j && gated_op(ops@, (#[trigger] probes@[k]).op@) ==> reads_false(
                    probes@[k],
                ),
        decreases probes@.len() - j,
    {
        assert(probes@.take(j + 1).drop_last() =~= probes@.take(j as int));
        if find_gated(ops, probes[j].op.as_str()) {
            let is_false = match &probes[j].value {
                Some(v) => !v.is_truthy(),
                None => false,
            };
            if !is_false {
                assert(gated_op(ops@, probes@[j as int].op@) && !reads_false(probes@[j as int]));
                return false;
            }
            found += 1;
        }
        j += 1;
    }
    assert(probes@.take(j as int) =~= probes@);
    found == ops.len()
}

/// A phase with an op that is not gated, or whose gate is true, is never passed
/// over.
pub proof fn law_open_gate_is_never_pruned(
    prune_mode: bool,
    ops: Seq<OpTemplate>,
    has_parent: bool,
    scopes: nat,
    probes: Seq<GateProbe>,
    i: int,
)
    requires
        (0 <= i < ops.len() && ops[i].condition is None) || (0 <= i < probes.len() && gated_op(
            ops,
            probes[i].op@,
        ) && !reads_false(probes[i])),
    ensures
        !pruned(prune_mode, ops, has_parent, scopes, probes),
{
}

/// Why a phase cannot be set up at all.
pub enum SetupFault {
    /// The workload has no phase of this name.
    Unknown,
    /// The phase has no ops.
    NoOps,
    /// There is no scope to read values from.
    NoParent,
    /// It polls and has no scope that its predicate could read.
    NoPollScope,
}

pub open spec fn setup_fault_text(name: Seq<char>, f: SetupFault) -> Seq<char> {
    match f {
        SetupFault::Unknown => "phase '"@ + name + "' not found"@,
        SetupFault::NoOps => "phase '"@ + name
            + "' reached dispatch with no ops — a load-time validation gap; every phase needs inline ops, a matching `tags:` selector, or a bound implementation"@,
        SetupFault::NoParent => "phase '"@ + name
            + "': no current_parent_kernel — single-resolution-path requires the populated parent kernel"@,
        SetupFault::NoPollScope => "phase '"@ + name
            + "': SRD-75 phase-poll requires the phase scope kernel to be installed, but no cached kernel was found. This is a synthesis bug — every phase with `poll:` should land via the `Bindings` install spec."@,
    }
}

/// The outcome of a phase that cannot be set up.
pub fn setup_failed(name: &str, f: SetupFault) -> (r: Outcome)
    ensures
        r.disposition == Disposition::Interrupted,
        r.validity == Validity::Failed,
        phase_outcome::text_of(r.reason) == Some(setup_fault_text(name@, f)),
        r.payload is None,
{
    let said = match f {
        SetupFault::Unknown => cat3("phase '", name, "' not found"),
        SetupFault::NoOps => cat3(
            "phase '",
            name,
            "' reached dispatch with no ops — a load-time validation gap; every phase needs inline ops, a matching `tags:` selector, or a bound implementation",
        ),
        SetupFault::NoParent => cat3(
            "phase '",
            name,
            "': no current_parent_kernel — single-resolution-path requires the populated parent kernel",
        ),
        SetupFault::NoPollScope => cat3(
            "phase '",
            name,
            "': SRD-75 phase-poll requires the phase scope kernel to be installed, but no cached kernel was found. This is a synthesis bug — every phase with `poll:` should land via the `Bindings` install spec.",
        ),
    };
    Outcome::failed().with_reason(said.as_str())
}

/// Whether the phase gets a scope of its own: it sees values, or one of its ops
/// declares bindings.
pub fn needs_own_scope(vars: &IterVars, ops: &Vec<OpTemplate>) -> (r: bool)
    ensures
        r == (vars@.len() > 0 || exists|i: int|
            0 <= i < ops@.len() && (#[trigger] ops@[i]).has_bindings),
{
    if !vars.is_empty() {
        return true;
    }
    let mut i: usize = 0;
    while i < ops.len()
        invariant
            i <= ops@.len(),
            forall|k: int| 0 <= k < i ==> !(#[trigger] ops@[k]).has_bindings,
        decreases ops@.len() - i,
    {
        if ops[i].has_bindings {
            assert(ops@[i as int].has_bindings);
            return true;
        }
        i += 1;
    }
    false
}

/// How a phase is named in errors: with the values it runs under.
pub open spec fn context_text(name: Seq<char>, v: Seq<(Seq<char>, Seq<char>)>) -> Seq<char> {
    if v.len() == 0 {
        "phase '"@ + name + "'"@
    } else {
        "phase '"@ + name + "' ("@ + text::joined(vars::entry_texts(v), ", "@) + ")"@
    }
}

pub fn phase_context(name: &str, vars: &IterVars) -> (r: String)
    ensures
        r@ == context_text(name@, vars@),
{
    if vars.is_empty() {
        cat3("phase '", name, "'")
    } else {
        cat5("phase '", name, "' (", vars.shown().as_str(), ")")
    }
}

/// The outcome of a phase whose scope is refused, with the context in front of
/// the reason.
pub fn scope_refused(ctx: &str, why: &str) -> (r: Outcome)
    ensures
        r.disposition == Disposition::Interrupted,
        r.validity == Validity::Failed,
        phase_outcome::text_of(r.reason) == Some(ctx@ + ": "@ + why@),
        r.payload is None,
{
    Outcome::failed().with_reason(cat3(ctx, ": ", why).as_str())
}

/// What reading a binding at scope activation gave.
pub enum Pulled {
    Value,
    Nothing,
    Panicked(String),
}

/// Why a binding breaks the init contract.
pub open spec fn init_fault(ctx: Seq<char>, name: Seq<char>, p: Pulled) -> Option<Seq<char>> {
    let head = ctx + ": init binding '"@ + name + "' violates the init contract: scope-init eval "@;
    match p {
        Pulled::Value => None,
        Pulled::Nothing => Some(
            head
                + "returned Value::None (per SRD 11 §\"Init Binding Contract\" Plan B). The eval function signaled failure or returned no value."@,
        ),
        Pulled::Panicked(msg) => Some(
            head + "panicked: "@ + msg@ + " (per SRD 11 §\"Init Binding Contract\" Plan B)."@,
        ),
    }
}

/// Checks that an init binding has a value.
pub fn check_init(ctx: &str, name: &str, p: &Pulled) -> (r: Result<(), String>)
    ensures
        match r {
            Ok(_) => init_fault(ctx@, name@, *p) is None,
            Err(e) => init_fault(ctx@, name@, *p) == Some(e@),
        },
{
    let head = cat4(
        ctx,
        ": init binding '",
        name,
        "' violates the init contract: scope-init eval ",
    );
    match p {
        Pulled::Value => Ok(()),
        Pulled::Nothing => Err(
            cat2(
                head.as_str(),
                "returned Value::None (per SRD 11 §\"Init Binding Contract\" Plan B). The eval function signaled failure or returned no value.",
            ),
        ),
        Pulled::Panicked(msg) => Err(
            cat4(
                head.as_str(),
                "panicked: ",
                msg.as_str(),
                " (per SRD 11 §\"Init Binding Contract\" Plan B).",
            ),
        ),
    }
}

/// Why a final binding is refused.
pub open spec fn final_fault(ctx: Seq<char>, name: Seq<char>, p: Pulled) -> Option<Seq<char>> {
    let head = ctx + ": final binding '"@ + name + "' "@;
    match p {
        Pulled::Value => None,
        Pulled::Nothing => Some(
            head
                + "could not be materialised at scope activation: eval returned Value::None. If the RHS depends on a wire that's only available per cycle, use a non-modifier cycle binding (`"@
                + name + " := …`) instead of `final`."@,
        ),
        Pulled::Panicked(msg) => Some(head + "eval panicked at scope activation: "@ + msg@),
    }
}

/// Checks that a final binding has a value. One that is already a constant is
/// not read again.
pub fn check_final(ctx: &str, name: &str, constant: bool, p: &Pulled) -> (r: Result<(), String>)
    ensures
        match r {
            Ok(_) => constant || final_fault(ctx@, name@, *p) is None,
            Err(e) => !constant && final_fault(ctx@, name@, *p) == Some(e@),
        },
{
    if constant {
        return Ok(());
    }
    let head = cat4(ctx, ": final binding '", name, "' ");
    match p {
        Pulled::Value => Ok(()),
        Pulled::Nothing => Err(
            cat4(
                head.as_str(),
                "could not be materialised at scope activation: eval returned Value::None. If the RHS depends on a wire that's only available per cycle, use a non-modifier cycle binding (`",
                name,
                " := …`) instead of `final`.",
            ),
        ),
        Pulled::Panicked(msg) => Err(
            cat3(head.as_str(), "eval panicked at scope activation: ", msg.as_str()),
        ),
    }
}

/// What a panic carried.
pub enum PanicPayload {
    Text(String),
    Other,
}

/// The message of a caught panic.
pub fn panic_message(payload: &PanicPayload) -> (r: String)
    ensures
        r@ == (match *payload {
            PanicPayload::Text(s) => s@,
            PanicPayload::Other => "<non-string panic payload>"@,
        }),
{
    match payload {
        PanicPayload::Text(s) => s.clone(),
        PanicPayload::Other => "<non-string panic payload>".to_owned(),
    }
}

/// A parameter override for phases whose name matches a pattern.
#[derive(Debug, Clone, PartialEq)]
pub struct PhaseOverride {
    /// The pattern as written.
    pub pattern: String,
    /// Whether the pattern is a plain name.
    pub literal: bool,
    pub param: String,
    pub value: String,
}

/// What writing an override gave.
pub enum WriteResult {
    Written,
    UnknownWire,
    Fault(String),
}

/// What is made of an override.
pub enum OverrideNote {
    /// It took effect; the line says so.
    Applied(String),
    /// It names this phase, which has no such parameter; the line warns.
    Unused(String),
    /// Nothing to say.
    Silent,
    /// The phase fails with this reason.
    Fail(String),
}

/// What is made of an override that was written to a phase. A pattern that
/// spans phases passes over those without the parameter.
pub fn override_note(ctx: &str, phase_name: &str, ov: &PhaseOverride, w: &WriteResult) -> (r:
    OverrideNote)
    ensures
        match *w {
            WriteResult::Written => r matches OverrideNote::Applied(t) && t@ == ("phase '"@
                + phase_name@ + "': param `"@ + ov.param@ + "` overridden to `"@ + ov.value@
                + "` (CLI `"@) + (ov.pattern@ + "."@ + ov.param@ + "=`)"@),
            WriteResult::UnknownWire => if ov.literal {
                r matches OverrideNote::Unused(t) && t@ == ("phase '"@ + phase_name@
                    + "': override `"@ + ov.pattern@ + "."@ + ov.param@) + (
                "=` names a param this phase does not consume — no wire named `"@ + ov.param@
                    + "` in its scope"@)
            } else {
                r is Silent
            },
            WriteResult::Fault(e) => r matches OverrideNote::Fail(t) && t@ == ctx@
                + ": phase-scoped override `"@ + ov.pattern@ + "."@ + ov.param@ + "=`: "@ + e@,
        },
{
    match w {
        WriteResult::Written => {
            let a = cat7(
                "phase '",
                phase_name,
                "': param `",
                ov.param.as_str(),
                "` overridden to `",
                ov.value.as_str(),
                "` (CLI `",
            );
            let b = cat4(ov.pattern.as_str(), ".", ov.param.as_str(), "=`)");
            OverrideNote::Applied(cat2(a.as_str(), b.as_str()))
        },
        WriteResult::UnknownWire => {
            if ov.literal {
                let a = cat6(
                    "phase '",
                    phase_name,
                    "': override `",
                    ov.pattern.as_str(),
                    ".",
                    ov.param.as_str(),
                );
                let b = cat3(
                    "=` names a param this phase does not consume — no wire named `",
                    ov.param.as_str(),
                    "` in its scope",
                );
                OverrideNote::Unused(cat2(a.as_str(), b.as_str()))
            } else {
                OverrideNote::Silent
            }
        },
        WriteResult::Fault(e) => OverrideNote::Fail(
            cat7(
                ctx,
                ": phase-scoped override `",
                ov.pattern.as_str(),
                ".",
                ov.param.as_str(),
                "=`: ",
                e.as_str(),
            ),
        ),
    }
}

/// A field of a phase whose text may refer to values of the iteration and to workload
/// parameters.
#[derive(Debug, Clone, Copy, PartialEq, Eq, Structural)]
pub enum TextField {
    Cycles,
    Concurrency,
    Timeout,
    Rate,
    Poll,
    /// The predicate of a stop condition.
    StopWhen,
}

/// The text in which workload parameters are filled in: that of the cycles has the
/// values of the iteration already, any other is as written.
pub open spec fn before_params(
    field: TextField,
    raw: Seq<char>,
    v: Seq<(Seq<char>, Seq<char>)>,
) -> Seq<char> {
    if field == TextField::Cycles {
        vars::substituted(raw, v)
    } else {
        raw
    }
}

/// The text once workload parameters are filled in: any but that of the cycles takes
/// the values of the iteration now.
pub open spec fn after_params(
    field: TextField,
    expanded: Seq<char>,
    v: Seq<(Seq<char>, Seq<char>)>,
) -> Seq<char> {
    if field == TextField::Cycles {
        expanded
    } else {
        vars::substituted(expanded, v)
    }
}

/// The text in which workload parameters are to be filled in.
pub fn text_for_params(field: TextField, raw: &str, vars: &IterVars) -> (r: String)
    ensures
        r@ == before_params(field, raw@, vars@),
{
    if field == TextField::Cycles {
        vars.substitute(raw)
    } else {
        raw.to_owned()
    }
}

/// The text of a field, from that in which workload parameters are filled in.
pub fn text_from_params(field: TextField, expanded: &str, vars: &IterVars) -> (r: String)
    ensures
        r@ == after_params(field, expanded@, vars@),
{
    if field == TextField::Cycles {
        expanded.to_owned()
    } else {
        vars.substitute(expanded)
    }
}

/// The text of a field with everything filled in; `params` is what filling in workload
/// parameters makes of a text.
pub open spec fn filled_in(
    field: TextField,
    raw: Seq<char>,
    v: Seq<(Seq<char>, Seq<char>)>,
    params: spec_fn(Seq<char>) -> Seq<char>,
) -> Seq<char> {
    after_params(field, params(before_params(field, raw, v)), v)
}

/// The cycles take the values of the iteration first and then workload parameters; the
/// concurrency, the time limit, the rate, the bounds of a poll and the predicate of a
/// stop condition take workload parameters first.
pub proof fn law_order_of_substitution(
    field: TextField,
    raw: Seq<char>,
    v: Seq<(Seq<char>, Seq<char>)>,
    params: spec_fn(Seq<char>) -> Seq<char>,
)
    ensures
        filled_in(TextField::Cycles, raw, v, params) == params(vars::substituted(raw, v)),
        field == TextField::Concurrency || field == TextField::Timeout || field == TextField::Rate
            || field == TextField::Poll || field == TextField::StopWhen ==> filled_in(
            field,
            raw,
            v,
            params,
        ) == vars::substituted(params(raw), v),
{
}

/// How the cycles of a phase are given.
pub enum CyclesSpec {
    /// One cycle per op.
    Auto,
    /// The number of ops in all.
    Ops(String),
    /// The number of stanzas.
    Stanzas(String),
}

/// How the cycles of a phase are given: not at all or by one of the automatic
/// words, by a count of ops, or by a count of stanzas.
pub fn classify_cycles(cycles: &Option<String>) -> (r: CyclesSpec)
    ensures
        ({
            let spec = match *cycles {
                Some(s) => s@,
                None => Seq::<char>::empty(),
            };
            if spec == "==auto"@ || spec == "===auto"@ || spec.len() == 0 {
                r is Auto
            } else if "==ops:"@.is_prefix_of(spec) {
                r matches CyclesSpec::Ops(rest) && rest@ == spec.skip("==ops:"@.len() as int)
            } else {
                r matches CyclesSpec::Stanzas(s) && s@ == spec
            }
        }),
{
    match cycles {
        None => CyclesSpec::Auto,
        Some(s) => {
            let spec = s.as_str();
            if str_eq(spec, "==auto") || str_eq(spec, "===auto") || spec.is_empty() {
                CyclesSpec::Auto
            } else if starts_with(spec, "==ops:") {
                let v = chars_of(spec);
                let p = chars_of("==ops:");
                let rest = string_of(&v, p.len(), v.len());
                assert(rest@ =~= spec@.skip("==ops:"@.len() as int));
                CyclesSpec::Ops(rest)
            } else {
                CyclesSpec::Stanzas(s.clone())
            }
        },
    }
}

/// The expression between the braces of a text that is nothing else.
pub fn const_expression(expanded: &str) -> (r: Option<String>)
    ensures
        r is Some <==> "{"@.is_prefix_of(expanded@) && "}"@.is_suffix_of(expanded@),
        r matches Some(t) ==> t@ == expanded@.subrange(1, expanded@.len() - 1),
{
    if starts_with(expanded, "{") && ends_with(expanded, "}") {
        let v = chars_of(expanded);
        proof {
            reveal_strlit("{");
            reveal_strlit("}");
            assert("{"@.len() == 1 && "{"@[0] == '{');
            assert("}"@.len() == 1 && "}"@[0] == '}');
            assert(expanded@[0] == '{') by {
                assert("{"@ == expanded@.subrange(0, 1));
                assert(expanded@.subrange(0, 1)[0] == expanded@[0]);
            }
            assert(expanded@[expanded@.len() - 1] == '}') by {
                let tail = expanded@.subrange(expanded@.len() - 1, expanded@.len() as int);
                assert("}"@ == tail);
                assert(tail[0] == expanded@[expanded@.len() - 1]);
            }
        }
        Some(string_of(&v, 1, v.len() - 1))
    } else {
        None
    }
}

/// The cycles of a phase. `counted` is what the expanded text counts to, where
/// it is a count or a constant expression; else an op count falls back to one
/// stanza of ops and a stanza count to one.
pub open spec fn cycles_of(spec: CyclesSpec, counted: Option<u64>, stanza_len: u64) -> int {
    match spec {
        CyclesSpec::Auto => stanza_len as int,
        CyclesSpec::Ops(_) => match counted {
            Some(n) => n as int,
            None => stanza_len as int,
        },
        CyclesSpec::Stanzas(_) => match counted {
            Some(n) => n * stanza_len,
            None => stanza_len as int,
        },
    }
}

pub fn resolve_cycles(spec: &CyclesSpec, counted: Option<u64>, stanza_len: u64) -> (r: u64)
    requires
        cycles_of(*spec, counted, stanza_len) <= u64::MAX,
    ensures
        r == cycles_of(*spec, counted, stanza_len),
{
    match spec {
        CyclesSpec::Auto => stanza_len,
        CyclesSpec::Ops(_) => counted.unwrap_or(stanza_len),
        CyclesSpec::Stanzas(_) => match counted {
            Some(n) => n * stanza_len,
            None => stanza_len,
        },
    }
}

/// The value of a wire of the scope around a phase. For a number with a
/// fraction `whole` is its whole part.
pub struct ParentWire {
    pub value: Value,
    pub whole: u64,
}

pub open spec fn wire_text(w: ParentWire) -> Seq<char> {
    match w.value {
        Value::F64(_) => text::decimal(w.whole as nat),
        _ => value::display_of(w.value),
    }
}

/// Where a bare name gets its text from: the values of the iteration, then the
/// scope around, then the workload parameters.
pub open spec fn bare_text(
    bare: Seq<char>,
    v: Seq<(Seq<char>, Seq<char>)>,
    parent: Option<ParentWire>,
    params: Map<Seq<char>, String>,
    t: Seq<char>,
) -> bool {
    if vars::has_entry(v, bare) {
        v.contains((bare, t))
    } else if parent is Some {
        t == wire_text(parent->0)
    } else {
        params.contains_key(bare) && t == params[bare]@
    }
}

/// Whether a bare name is known at all.
pub open spec fn bare_known(
    bare: Seq<char>,
    v: Seq<(Seq<char>, Seq<char>)>,
    parent: Option<ParentWire>,
    params: Map<Seq<char>, String>,
) -> bool {
    vars::has_entry(v, bare) || parent is Some || params.contains_key(bare)
}

fn lookup_bare(
    bare: &str,
    vars: &IterVars,
    parent: &Option<ParentWire>,
    params: &StrMap<String>,
) -> (r: Option<String>)
    requires
        params.wf(),
    ensures
        r is Some <==> bare_known(bare@, vars@, *parent, params@),
        r matches Some(t) ==> bare_text(bare@, vars@, *parent, params@, t@),
{
    if let Some(t) = vars.get(bare) {
        return Some(t);
    }
    if let Some(w) = parent {
        return Some(
            match &w.value {
                Value::F64(_) => u64_text(w.whole),
                _ => w.value.to_display_string(),
            },
        );
    }
    match params.get(bare) {
        Some(s) => Some(s.clone()),
        None => None,
    }
}

pub open spec fn concurrency_fault(exp: Seq<char>) -> Seq<char> {
    "concurrency '"@ + exp
        + "' is neither an integer nor a resolvable name (checked iteration variables, the parent scope, and workload params)"@
}

/// The concurrency that an expanded text asks for: a number, or a bare name
/// whose text is one. `parent` is the wire of that name in the scope around.
pub fn resolve_concurrency(
    exp: &str,
    vars: &IterVars,
    parent: &Option<ParentWire>,
    params: &StrMap<String>,
) -> (r: Result<usize, String>)
    requires
        params.wf(),
    ensures
        ({
            let bare = text::trimmed(exp@);
            match r {
                Ok(n) => if text::parsed_usize(exp@) is Some {
                    text::parsed_usize(exp@) == Some(n as nat)
                } else {
                    exists|t: Seq<char>| #[trigger]
                        bare_text(bare, vars@, *parent, params@, t) && text::parsed_usize(
                            text::trimmed(t),
                        ) == Some(n as nat)
                },
                Err(e) => {
                    &&& e@ == concurrency_fault(exp@)
                    &&& text::parsed_usize(exp@) is None
                    &&& bare_known(bare, vars@, *parent, params@) ==> exists|t: Seq<char>|
                        #[trigger] bare_text(bare, vars@, *parent, params@, t)
                            && text::parsed_usize(text::trimmed(t)) is None
                },
            }
        }),
{
    if let Some(n) = parse_usize(exp) {
        return Ok(n);
    }
    let bare = trim_text(exp);
    if let Some(t) = lookup_bare(bare.as_str(), vars, parent, params) {
        let trimmed = trim_text(t.as_str());
        assert(bare_text(bare@, vars@, *parent, params@, t@));
        if let Some(n) = parse_usize(trimmed.as_str()) {
            return Ok(n);
        }
    }
    Err(
        cat3(
            "concurrency '",
            exp,
            "' is neither an integer nor a resolvable name (checked iteration variables, the parent scope, and workload params)",
        ),
    )
}

/// The name of an activity: that of the phase, with the coordinates of the
/// innermost scope.
pub fn activity_name(phase_name: &str, leaf: Option<&ScopeCoord>) -> (r: String)
    ensures
        r@ == (match leaf {
            Some(c) => if coords::iter_label(c.vars@).len() > 0 {
                phase_name@ + " ("@ + coords::iter_label(c.vars@) + ")"@
            } else {
                phase_name@
            },
            None => phase_name@,
        }),
{
    match leaf {
        Some(c) => {
            let shown = format_iter_label(&c.vars);
            if shown.as_str().is_empty() {
                phase_name.to_owned()
            } else {
                cat4(phase_name, " (", shown.as_str(), ")")
            }
        },
        None => phase_name.to_owned(),
    }
}

/// Whether the hash of a phase decides on skipping it: in a refining run that
/// looks for changes, or at an idempotent phase of one that fills gaps, unless
/// the filter names the phase.
pub fn hash_gate_applies(
    refine: &Option<RefinePlan>,
    filter: &Option<PhaseFilter>,
    name: &str,
    idempotent: bool,
) -> (r: bool)
    ensures
        r == (*refine is Some && !(*filter is Some && context::selects(filter->0, name@)) && (
        refine->0.scope == RefineScope::Changed || (refine->0.scope == RefineScope::Missing
            && idempotent))),
{
    let named = match filter {
        Some(f) => f.is_match(name),
        None => false,
    };
    match refine {
        Some(p) => !named && (p.scope == RefineScope::Changed || (p.scope == RefineScope::Missing
            && idempotent)),
        None => false,
    }
}

/// What a time limit that cannot be read means.
pub fn timeout_fault(phase_name: &str, raw: &str, resolved: &str, why: &str) -> (r: Outcome)
    ensures
        r.disposition == Disposition::Interrupted,
        r.validity == Validity::Failed,
        phase_outcome::text_of(r.reason) == Some(
            "phase '"@ + phase_name@ + "': `timeout: \""@ + raw@ + "\"` (resolved: \""@ + resolved@
                + "\"): "@ + why@,
        ),
        r.payload is None,
{
    let said = cat8(
        "phase '",
        phase_name,
        "': `timeout: \"",
        raw,
        "\"` (resolved: \"",
        resolved,
        "\"): ",
        why,
    );
    Outcome::failed().with_reason(said.as_str())
}

/// The rate that a resolved text denotes, as the text of a number; a text that
/// is none is refused.
pub fn resolve_rate(phase_name: &str, raw: &str, resolved: &str) -> (r: Result<String, String>)
    ensures
        match r {
            Ok(t) => t@ == text::trimmed(resolved@) && text::is_float_text(t@),
            Err(e) => !text::is_float_text(text::trimmed(resolved@)) && e@ == "phase '"@
                + phase_name@ + "': `rate: \""@ + raw@ + "\"` (resolved: \""@ + resolved@
                + "\") is not a number of ops/sec"@,
        },
{
    let t = trim_text(resolved);
    if is_float(t.as_str()) {
        Ok(t)
    } else {
        Err(
            cat7(
                "phase '",
                phase_name,
                "': `rate: \"",
                raw,
                "\"` (resolved: \"",
                resolved,
                "\") is not a number of ops/sec",
            ),
        )
    }
}

/// What becomes of a poll that runs out of time.
#[derive(Debug, Clone, Copy, PartialEq, Eq, Structural)]
pub enum PollTimeoutPolicy {
    Error,
    Abort,
}

/// The bounds of a polling loop.
#[derive(Debug, Clone, Copy, PartialEq, Eq, Structural)]
pub struct PollBounds {
    pub interval_ms: u64,
    pub timeout_ms: u64,
    pub max_error_retries: u32,
    pub on_timeout: PollTimeoutPolicy,
}

/// The texts of the bounds of a polling loop, with their values filled in.
pub struct ResolvedPoll {
    pub interval_ms: String,
    pub timeout_ms: String,
    pub max_error_retries: String,
}

pub open spec fn poll_fault(
    phase_name: Seq<char>,
    field: Seq<char>,
    raw: Seq<char>,
    resolved: Seq<char>,
) -> Seq<char> {
    "phase '"@ + phase_name + "': poll `"@ + field + ": \""@ + raw + "\"` (resolved: \""@ + resolved
        + "\") is not a whole number of milliseconds"@
}

/// A bound of a polling loop: its default where none is given, else the number
/// that its text denotes.
pub open spec fn poll_bound(raw: Option<String>, resolved: Seq<char>, default: u64) -> Option<nat> {
    match raw {
        None => Some(default as nat),
        Some(_) => text::parsed_u64(text::trimmed(resolved)),
    }
}

fn read_bound(phase_name: &str, field: &str, raw: &Option<String>, resolved: &str, default: u64) -> (r:
    Result<u64, String>)
    ensures
        match r {
            Ok(n) => poll_bound(*raw, resolved@, default) == Some(n as nat),
            Err(e) => *raw is Some && poll_bound(*raw, resolved@, default) is None && e@
                == poll_fault(phase_name@, field@, raw->0@, resolved@),
        },
{
    match raw {
        None => Ok(default),
        Some(s) => {
            let t = trim_text(resolved);
            match parse_u64(t.as_str()) {
                Some(n) => Ok(n),
                None => Err(
                    text::cat9(
                        "phase '",
                        phase_name,
                        "': poll `",
                        field,
                        ": \"",
                        s.as_str(),
                        "\"` (resolved: \"",
                        resolved,
                        "\") is not a whole number of milliseconds",
                    ),
                ),
            }
        },
    }
}

/// The bounds of a polling loop: one second between polls, five minutes in all
/// and no retries where nothing else is said. The first text that is no number
/// is refused.
pub fn resolve_poll(phase_name: &str, spec: &PollSpec, resolved: &ResolvedPoll) -> (r: Result<
    PollBounds,
    String,
>)
    ensures
        ({
            let a = poll_bound(spec.interval_ms, resolved.interval_ms@, 1000);
            let b = poll_bound(spec.timeout_ms, resolved.timeout_ms@, 300_000);
            let c = poll_bound(spec.max_error_retries, resolved.max_error_retries@, 0);
            match r {
                Ok(p) => {
                    &&& a == Some(p.interval_ms as nat)
                    &&& b == Some(p.timeout_ms as nat)
                    &&& c is Some
                    &&& p.max_error_retries == (if c->0 <= u32::MAX {
                        c->0 as int
                    } else {
                        u32::MAX as int
                    })
                    &&& p.on_timeout == (if spec.on_timeout is Some && spec.on_timeout->0@
                        == "abort"@ {
                        PollTimeoutPolicy::Abort
                    } else {
                        PollTimeoutPolicy::Error
                    })
                },
                Err(e) => e@ == (if a is None {
                    poll_fault(
                        phase_name@,
                        "interval_ms"@,
                        spec.interval_ms->0@,
                        resolved.interval_ms@,
                    )
                } else if b is None {
                    poll_fault(
                        phase_name@,
                        "timeout_ms"@,
                        spec.timeout_ms->0@,
                        resolved.timeout_ms@,
                    )
                } else {
                    poll_fault(
                        phase_name@,
                        "max_error_retries"@,
                        spec.max_error_retries->0@,
                        resolved.max_error_retries@,
                    )
                }) && (a is None || b is None || c is None),
            }
        }),
{
    let interval_ms = match read_bound(
        phase_name,
        "interval_ms",
        &spec.interval_ms,
        resolved.interval_ms.as_str(),
        1000,
    ) {
        Ok(n) => n,
        Err(e) => {
            return Err(e);
        },
    };
    let timeout_ms = match read_bound(
        phase_name,
        "timeout_ms",
        &spec.timeout_ms,
        resolved.timeout_ms.as_str(),
        300_000,
    ) {
        Ok(n) => n,
        Err(e) => {
            return Err(e);
        },
    };
    let retries = match read_bound(
        phase_name,
        "max_error_retries",
        &spec.max_error_retries,
        resolved.max_error_retries.as_str(),
        0,
    ) {
        Ok(n) => n,
        Err(e) => {
            return Err(e);
        },
    };
    let max_error_retries: u32 = if retries <= u32::MAX as u64 {
        retries as u32
    } else {
        u32::MAX
    };
    let on_timeout = match &spec.on_timeout {
        Some(s) => if str_eq(s.as_str(), "abort") {
            PollTimeoutPolicy::Abort
        } else {
            PollTimeoutPolicy::Error
        },
        None => PollTimeoutPolicy::Error,
    };
    Ok(PollBounds { interval_ms, timeout_ms, max_error_retries, on_timeout })
}

/// Who declared a stop condition that a phase takes on.
#[derive(Debug, Clone, Copy, PartialEq, Eq, Structural)]
pub enum Declarer {
    Phase,
    Workload,
}

/// A stop condition that a phase takes on: who declared it, its place in that
/// list, and where its action lands.
#[derive(Debug, Clone, Copy, PartialEq, Eq, Structural)]
pub struct Gathered {
    pub by: Declarer,
    pub index: usize,
    pub target: StopScope,
}

/// A phase takes on its own conditions that speak of itself or of phases, and
/// the workload's that speak of phases.
pub open spec fn reaches_phase(by: Declarer, each: Seq<ScopeLevel>) -> bool {
    each.contains(ScopeLevel::Phase) || (by == Declarer::Phase && each.contains(
        ScopeLevel::SelfScope,
    ))
}

/// The places below `n` of the conditions that reach the phase, in order.
pub open spec fn reaching(by: Declarer, decls: Seq<StopWhen>, n: int) -> Seq<(Declarer, int)>
    decreases n,
{
    if n <= 0 {
        Seq::empty()
    } else if reaches_phase(by, decls[n - 1].each@) {
        reaching(by, decls, n - 1).push((by, n - 1))
    } else {
        reaching(by, decls, n - 1)
    }
}

pub open spec fn gathered_places(v: Seq<Gathered>) -> Seq<(Declarer, int)> {
    v.map_values(|g: Gathered| (g.by, g.index as int))
}

/// The target is the one that the condition resolves to.
pub open spec fn target_right(g: Gathered, d: StopWhen) -> bool {
    match d.at {
        Some(l) => g.target == shell::scope_of(l),
        None => {
            &&& d.each@.len() == 0 ==> g.target == StopScope::Phase
            &&& forall|l: ScopeLevel| #[trigger]
                shell::is_innermost(d.each@, l) ==> g.target == shell::scope_of(l)
        },
    }
}

fn mentions(each: &Vec<ScopeLevel>, l: ScopeLevel) -> (r: bool)
    ensures
        r == each@.contains(l),
{
    let mut i: usize = 0;
    while i < each.len()
        invariant
            i <= each@.len(),
            forall|k: int| 0 <= k < i ==> #[trigger] each@[k] != l,
        decreases each@.len() - i,
    {
        if each[i] == l {
            assert(each@.contains(each@[i as int]));
            return true;
        }
        i += 1;
    }
    false
}

fn gather_from(out: &mut Vec<Gathered>, by: Declarer, decls: &Vec<StopWhen>)
    ensures
        gathered_places(final(out)@) == gathered_places(old(out)@) + reaching(
            by,
            decls@,
            decls@.len() as int,
        ),
        final(out)@.len() >= old(out)@.len(),
        final(out)@.take(old(out)@.len() as int) == old(out)@,
        forall|i: int|
            old(out)@.len() <= i < final(out)@.len() ==> (#[trigger] final(out)@[i]).index
                < decls@.len() && target_right(final(out)@[i], decls@[final(out)@[i].index as int]),
{
    let ghost before = out@;
    let mut i: usize = 0;
    assert(before.take(before.len() as int) =~= before);
    assert(gathered_places(before) + reaching(by, decls@, 0) =~= gathered_places(before));
    while i < decls.len()
        invariant
            i <= decls@.len(),
            before == old(out)@,
            out@.len() >= before.len(),
            out@.take(before.len() as int) == before,
            gathered_places(out@) == gathered_places(before) + reaching(by, decls@, i as int),
            forall|k: int|
                before.len() <= k < out@.len() ==> (#[trigger] out@[k]).index < decls@.len()
                    && target_right(out@[k], decls@[out@[k].index as int]),
        decreases decls@.len() - i,
    {
        let d = &decls[i];
        let hit = mentions(&d.each, ScopeLevel::Phase) || (by == Declarer::Phase && mentions(
            &d.each,
            ScopeLevel::SelfScope,
        ));
        if hit {
            let ghost now = out@;
            out.push(Gathered { by, index: i, target: resolve_stop_scope(d.at, &d.each) });
            assert(out@.take(before.len() as int) =~= now.take(before.len() as int));
            assert(gathered_places(out@) =~= gathered_places(now).push((by, i as int)));
            assert(gathered_places(now).push((by, i as int)) =~= gathered_places(before)
                + reaching(by, decls@, i + 1));
        }
        i += 1;
    }
}

/// The stop conditions that a phase takes on: its own first, then the
/// workload's, each in the order of declaration.
pub fn gather_stop_conditions(own: &Vec<StopWhen>, workload: &Vec<StopWhen>) -> (r: Vec<Gathered>)
    ensures
        gathered_places(r@) == reaching(Declarer::Phase, own@, own@.len() as int) + reaching(
            Declarer::Workload,
            workload@,
            workload@.len() as int,
        ),
        forall|i: int|
            0 <= i < r@.len() && (#[trigger] r@[i]).by == Declarer::Phase ==> r@[i].index
                < own@.len() && target_right(r@[i], own@[r@[i].index as int]),
        forall|i: int|
            0 <= i < r@.len() && (#[trigger] r@[i]).by == Declarer::Workload ==> r@[i].index
                < workload@.len() && target_right(r@[i], workload@[r@[i].index as int]),
{
    let mut r: Vec<Gathered> = Vec::new();
    gather_from(&mut r, Declarer::Phase, own);
    let ghost first = r@;
    assert(gathered_places(first) =~= reaching(Declarer::Phase, own@, own@.len() as int));
    gather_from(&mut r, Declarer::Workload, workload);
    proof {
        lemma_reaching_by(Declarer::Phase, own@, own@.len() as int);
        lemma_reaching_by(Declarer::Workload, workload@, workload@.len() as int);
        assert forall|i: int| 0 <= i < r@.len() && (#[trigger] r@[i]).by == Declarer::Phase implies
            r@[i].index < own@.len() && target_right(r@[i], own@[r@[i].index as int]) by {
            if i < first.len() {
                assert(r@.take(first.len() as int)[i] == first[i]);
            } else {
                let later = reaching(Declarer::Workload, workload@, workload@.len() as int);
                assert(gathered_places(first).len() == first.len());
                assert(gathered_places(r@) == gathered_places(first) + later);
                assert(gathered_places(r@).len() == r@.len());
                assert(gathered_places(r@)[i] == later[i - first.len()]);
                assert(later[i - first.len()].0 == Declarer::Workload);
            }
        }
        assert forall|i: int|
            0 <= i < r@.len() && (#[trigger] r@[i]).by == Declarer::Workload implies r@[i].index
            < workload@.len() && target_right(r@[i], workload@[r@[i].index as int]) by {
            if i < first.len() {
                assert(gathered_places(first)[i].0 == Declarer::Phase);
                assert(r@.take(first.len() as int)[i] == first[i]);
            }
        }
    }
    r
}

proof fn lemma_reaching_by(by: Declarer, decls: Seq<StopWhen>, n: int)
    requires
        0 <= n <= decls.len(),
    ensures
        forall|i: int|
            0 <= i < reaching(by, decls, n).len() ==> (#[trigger] reaching(by, decls, n)[i]).0
                == by,
    decreases n,
{
    if n > 0 {
        lemma_reaching_by(by, decls, n - 1);
    }
}

/// One of the conditions that can stop a phase.
#[derive(Debug, Clone, Copy, PartialEq, Eq, Structural)]
pub enum StopEntry {
    /// Too many of its ops fail.
    ErrorRateGuard,
    /// It takes too long.
    TimeoutGuard,
    Declared(Gathered),
}

/// The guards that the settings of a phase call for.
pub open spec fn guards_of(error_rate: bool, timeout: bool) -> Seq<StopEntry> {
    (if error_rate {
        seq![StopEntry::ErrorRateGuard]
    } else {
        Seq::empty()
    }) + (if timeout {
        seq![StopEntry::TimeoutGuard]
    } else {
        Seq::empty()
    })
}

/// All conditions that can stop a phase, in the order in which they are asked:
/// the guards first, then those declared.
pub fn stop_list(error_rate: bool, timeout: bool, declared: &Vec<Gathered>) -> (r: Vec<StopEntry>)
    ensures
        r@ == guards_of(error_rate, timeout) + declared@.map_values(
            |g: Gathered| StopEntry::Declared(g),
        ),
{
    let mut r: Vec<StopEntry> = Vec::new();
    if error_rate {
        r.push(StopEntry::ErrorRateGuard);
    }
    if timeout {
        r.push(StopEntry::TimeoutGuard);
    }
    let ghost all = declared@.map_values(|g: Gathered| StopEntry::Declared(g));
    assert(r@ =~= guards_of(error_rate, timeout) + all.take(0));
    let mut i: usize = 0;
    while i < declared.len()
        invariant
            i <= declared@.len(),
            all == declared@.map_values(|g: Gathered| StopEntry::Declared(g)),
            r@ == guards_of(error_rate, timeout) + all.take(i as int),
        decreases declared@.len() - i,
    {
        r.push(StopEntry::Declared(declared[i]));
        assert(all.take(i + 1) =~= all.take(i as int).push(all[i as int]));
        assert(r@ =~= guards_of(error_rate, timeout) + all.take(i + 1));
        i += 1;
    }
    assert(all.take(i as int) =~= all);
    r
}

/// What a run sets for the phases that say nothing else.
#[derive(Debug, Clone, PartialEq)]
pub struct RunDefaults {
    pub driver: String,
    pub concurrency: usize,
    pub rate: Option<Float>,
    pub error_spec: String,
    pub error_rate_max: Option<Float>,
    pub tries: Option<u32>,
}

/// What is in force for one phase.
#[derive(Debug, Clone, PartialEq)]
pub struct PhaseSettings {
    pub driver: String,
    pub concurrency: usize,
    pub rate: Option<Float>,
    pub error_spec: String,
    pub error_rate_max: Option<Float>,
    pub tries: Option<u32>,
}

/// The value of the phase where it has one, else that of the run.
pub open spec fn own_or<T>(own: Option<T>, run: T) -> T {
    match own {
        Some(v) => v,
        None => run,
    }
}

pub open spec fn own_or_else<T>(own: Option<T>, run: Option<T>) -> Option<T> {
    if own is Some {
        own
    } else {
        run
    }
}

fn text_or(own: &Option<String>, run: &String) -> (r: String)
    ensures
        r == own_or(*own, *run),
{
    match own {
        Some(s) => s.clone(),
        None => run.clone(),
    }
}

fn float_or_else(own: &Option<Float>, run: &Option<Float>) -> (r: Option<Float>)
    ensures
        r == own_or_else(*own, *run),
{
    match own {
        Some(f) => Some(Float { bits: f.bits, text: f.text.clone() }),
        None => match run {
            Some(f) => Some(Float { bits: f.bits, text: f.text.clone() }),
            None => None,
        },
    }
}

/// The settings in force for a phase. `concurrency` and `rate` are those of the
/// phase once its texts are resolved. What the phase says goes before what the
/// run says.
pub fn phase_settings(
    phase: &WorkloadPhase,
    concurrency: Option<usize>,
    rate: &Option<Float>,
    run: &RunDefaults,
) -> (r: PhaseSettings)
    ensures
        r.driver == own_or(phase.adapter, run.driver),
        r.concurrency == own_or(concurrency, run.concurrency),
        r.rate == own_or_else(*rate, run.rate),
        r.error_spec == own_or(phase.errors, run.error_spec),
        r.error_rate_max == own_or_else(phase.error_rate_max, run.error_rate_max),
        r.tries == own_or_else(phase.tries, run.tries),
{
    PhaseSettings {
        driver: text_or(&phase.adapter, &run.driver),
        concurrency: concurrency.unwrap_or(run.concurrency),
        rate: float_or_else(rate, &run.rate),
        error_spec: text_or(&phase.errors, &run.error_spec),
        error_rate_max: float_or_else(&phase.error_rate_max, &run.error_rate_max),
        tries: if phase.tries.is_some() {
            phase.tries
        } else {
            run.tries
        },
    }
}

/// The adapters that a phase needs: its own, and those that its ops ask for,
/// each once.
pub fn adapter_names(phase_driver: &str, ops: &Vec<OpTemplate>) -> (r: Vec<String>)
    ensures
        forall|n: Seq<char>| #[trigger]
            adapter::has_text(r@, n) <==> n == phase_driver@ || exists|i: int|
                0 <= i < ops@.len() && (#[trigger] ops@[i]).adapter is Some && ops@[i].adapter->0@
                    == n,
        forall|i: int, j: int| 0 <= i < j < r@.len() ==> (#[trigger] r@[i])@ != (#[trigger] r@[j])@,
        r@.len() > 0 && r@[0]@ == phase_driver@,
{
    let mut r: Vec<String> = Vec::new();
    r.push(phase_driver.to_owned());
    assert(forall|n: Seq<char>| #[trigger] adapter::has_text(r@, n) <==> n == phase_driver@) by {
        assert(r@[0]@ == phase_driver@);
    }
    let mut i: usize = 0;
    while i < ops.len()
        invariant
            i <= ops@.len(),
            r@.len() > 0,
            r@[0]@ == phase_driver@,
            forall|n: Seq<char>| #[trigger]
                adapter::has_text(r@, n) <==> n == phase_driver@ || exists|k: int|
                    0 <= k < i && (#[trigger] ops@[k]).adapter is Some && ops@[k].adapter->0@ == n,
            forall|a: int, b: int|
                0 <= a < b < r@.len() ==> (#[trigger] r@[a])@ != (#[trigger] r@[b])@,
        decreases ops@.len() - i,
    {
        let ghost before = r@;
        if let Some(a) = &ops[i].adapter {
            if position_of(&r, a.as_str()).is_none() {
                let ghost added = a@;
                r.push(a.clone());
                proof {
                    assert forall|n: Seq<char>| #[trigger] adapter::has_text(r@, n) <==> (
                    adapter::has_text(before, n) || n == added) by {
                        if adapter::has_text(before, n) {
                            let k = choose|k: int|
                                0 <= k < before.len() && #[trigger] before[k]@ == n;
                            assert(r@[k]@ == n);
                        }
                        if n == added {
                            assert(r@[before.len() as int]@ == n);
                        }
                        if adapter::has_text(r@, n) && n != added {
                            let k = choose|k: int| 0 <= k < r@.len() && #[trigger] r@[k]@ == n;
                            assert(before[k]@ == n);
                        }
                    }
                    assert forall|x: int, y: int| 0 <= x < y < r@.len() implies (
                    #[trigger] r@[x])@ != (#[trigger] r@[y])@ by {
                        if y == before.len() {
                            assert(before[x]@ != added) by {
                                if before[x]@ == added {
                                    assert(adapter::has_text(before, added));
                                }
                            }
                        }
                    }
                }
            }
        }
        proof {
            assert forall|n: Seq<char>| #[trigger] adapter::has_text(r@, n) <==> n == phase_driver@
                || exists|k: int|
                0 <= k < i + 1 && (#[trigger] ops@[k]).adapter is Some && ops@[k].adapter->0@
                    == n by {
                let asked = ops@[i as int].adapter;
                if asked is Some && asked->0@ == n {
                    assert(ops@[i as int].adapter is Some && ops@[i as int].adapter->0@ == n);
                    assert(adapter::has_text(r@, n));
                }
                if exists|k: int|
                    0 <= k < i && (#[trigger] ops@[k]).adapter is Some && ops@[k].adapter->0@
                        == n {
                    let k = choose|k: int|
                        0 <= k < i && (#[trigger] ops@[k]).adapter is Some
                            && ops@[k].adapter->0@ == n;
                    assert(ops@[k].adapter->0@ == n);
                    assert(adapter::has_text(before, n));
                }
                if exists|k: int|
                    0 <= k < i + 1 && (#[trigger] ops@[k]).adapter is Some && ops@[k].adapter->0@
                        == n {
                    let k = choose|k: int|
                        0 <= k < i + 1 && (#[trigger] ops@[k]).adapter is Some
                            && ops@[k].adapter->0@ == n;
                    if k < i {
                        assert(adapter::has_text(before, n));
                    }
                }
            }
        }
        i += 1;
    }
    r
}

/// The parameter that selects the driver of an adapter.
pub fn resolve_selector_param(adapter: &str) -> (r: String)
    ensures
        r@ == adapter@ + "driver"@,
{
    cat2(adapter, "driver")
}

/// The driver that an adapter resolves to under its own selector.
pub open spec fn resolved_driver(
    registry: Registry,
    adapter: Seq<char>,
    params: Map<Seq<char>, String>,
) -> Seq<char> {
    own_or(
        adapter::first_available(
            registry.drivers@,
            adapter,
            adapter::driver_order(
                registry,
                adapter,
                adapter::selector_value(params, adapter + "driver"@),
            ),
        ),
        adapter::DEFAULT_DRIVER_NAME@,
    )
}

/// The place of the registration under which phases share an adapter, if they
/// may. A dry run shares none.
pub fn shared_registration(
    registry: &Registry,
    adapter: &str,
    params: &StrMap<String>,
    dry_run: bool,
) -> (r: Option<usize>)
    requires
        params.wf(),
    ensures
        r is Some <==> !dry_run && exists|i: int|
            0 <= i < registry.shared@.len() && #[trigger] adapter::is_shared_pair(
                registry.shared@[i],
                adapter@,
                resolved_driver(*registry, adapter@, params@),
            ),
        r matches Some(i) ==> i < registry.shared@.len() && adapter::is_shared_pair(
            registry.shared@[i as int],
            adapter@,
            resolved_driver(*registry, adapter@, params@),
        ) && forall|k: int|
            0 <= k < i ==> !#[trigger] adapter::is_shared_pair(
                registry.shared@[k],
                adapter@,
                resolved_driver(*registry, adapter@, params@),
            ),
{
    if dry_run {
        return None;
    }
    let selector = resolve_selector_param(adapter);
    match resolve_driver_name(registry, adapter, selector.as_str(), params) {
        Some(d) => {
            assert(d@ == resolved_driver(*registry, adapter@, params@));
            find_shared_driver(registry, adapter, d.as_str())
        },
        None => None,
    }
}

/// How far a phase is taken at a given depth.
#[derive(Debug, Clone, Copy, PartialEq, Eq, Structural)]
pub enum PhaseReach {
    /// Not even its dispensers are built.
    Attached,
    /// Its dispensers are built and no cycle runs.
    Dispensers,
    /// Its cycles run.
    Cycles,
}

pub fn phase_reach(depth: ExecDepth) -> (r: PhaseReach)
    ensures
        r == (if model::depth_rank(depth) < model::depth_rank(ExecDepth::Dispenser) {
            PhaseReach::Attached
        } else if model::depth_rank(depth) < model::depth_rank(ExecDepth::Cycle) {
            PhaseReach::Dispensers
        } else {
            PhaseReach::Cycles
        }),
{
    if !depth.reaches(ExecDepth::Dispenser) {
        PhaseReach::Attached
    } else if !depth.reaches(ExecDepth::Cycle) {
        PhaseReach::Dispensers
    } else {
        PhaseReach::Cycles
    }
}

/// How many of the probes are of ops that are gated.
proof fn lemma_gates_found(probes: Seq<GateProbe>, ops: Seq<OpTemplate>)
    ensures
        gates_found(probes, ops) == probes.filter(|p: GateProbe| gated_op(ops, p.op@)).len(),
    decreases probes.len(),
{
    reveal(Seq::filter);
    if probes.len() > 0 {
        lemma_gates_found(probes.drop_last(), ops);
    }
}

/// A phase is passed over exactly where pruning is on, it has ops and every one of them is
/// gated, there is one scope and a parent to read from, and as many of the gates as it has
/// ops were found, every one of them false.
pub proof fn law_pruned_iff_every_gate_is_false(
    prune_mode: bool,
    ops: Seq<OpTemplate>,
    has_parent: bool,
    scopes: nat,
    probes: Seq<GateProbe>,
)
    ensures
        ({
            let gated = probes.filter(|p: GateProbe| gated_op(ops, p.op@));
            pruned(prune_mode, ops, has_parent, scopes, probes) <==> {
                &&& prune_mode
                &&& has_parent
                &&& scopes == 1
                &&& ops.len() > 0
                &&& forall|i: int| 0 <= i < ops.len() ==> (#[trigger] ops[i]).condition is Some
                &&& forall|i: int|
                    0 <= i < probes.len() && gated_op(ops, (#[trigger] probes[i]).op@) ==> (
                    probes[i].value matches Some(v) && !value::truthy_value(v))
                &&& gated.len() == ops.len()
            }
        }),
{
    lemma_gates_found(probes, ops);
}

/// The first op of a name tells whether it is gated, and what is no op is not.
pub proof fn law_first_op_tells_its_gate(ops: Seq<OpTemplate>, name: Seq<char>, i: int)
    requires
        0 <= i < ops.len(),
        ops[i].name@ == name,
        forall|k: int| 0 <= k < i ==> (#[trigger] ops[k]).name@ != name,
    ensures
        gated_op(ops, name) <==> ops[i].condition is Some,
{
    if gated_op(ops, name) {
        let j = choose|j: int|
            0 <= j < ops.len() && (#[trigger] ops[j]).name@ == name && ops[j].condition is Some
                && forall|k: int| 0 <= k < j ==> (#[trigger] ops[k]).name@ != name;
        if j < i {
            assert(ops[j].name@ != name);
        }
        if i < j {
            assert(ops[i].name@ != name);
        }
    }
}

/// A phase runs one stanza where nothing is said, as many ops as are said, or as many
/// stanzas; a number that could not be read counts as one stanza.
pub proof fn law_cycles_count_ops_or_stanzas(n: u64, said: String, stanza_len: u64)
    ensures
        cycles_of(CyclesSpec::Auto, Some(n), stanza_len) == stanza_len,
        cycles_of(CyclesSpec::Ops(said), Some(n), stanza_len) == n,
        cycles_of(CyclesSpec::Stanzas(said), Some(n), stanza_len) == n * stanza_len,
        cycles_of(CyclesSpec::Auto, None, stanza_len) == stanza_len,
        cycles_of(CyclesSpec::Ops(said), None, stanza_len) == stanza_len,
        cycles_of(CyclesSpec::Stanzas(said), None, stanza_len) == stanza_len,
{
}

/// A name is read from the iteration first, then from the scope around, then from the
/// parameters of the workload: what is nearer hides what is further out.
pub proof fn law_nearer_name_hides(
    bare: Seq<char>,
    v: Seq<(Seq<char>, Seq<char>)>,
    parent: Option<ParentWire>,
    params: Map<Seq<char>, String>,
    t: Seq<char>,
)
    ensures
        ({
            let varies = exists|i: int| 0 <= i < v.len() && (#[trigger] v[i]).0 == bare;
            &&& varies ==> (bare_text(bare, v, parent, params, t) <==> v.contains((bare, t)))
            &&& !varies && parent is Some ==> (bare_text(bare, v, parent, params, t) <==> t
                == wire_text(parent->0))
            &&& !varies && parent is None ==> (bare_text(bare, v, parent, params, t) <==> params.contains_key(
                bare,
            ) && params[bare]@ == t)
            &&& bare_known(bare, v, parent, params) <==> varies || parent is Some || params.contains_key(
                bare,
            )
        }),
{
}

/// A fraction is read from the scope around as the whole number in it, and any other value
/// as it is shown.
pub proof fn law_wire_is_read_as_shown(w: ParentWire)
    ensures
        w.value is F64 ==> wire_text(w) == text::decimal(w.whole as nat),
        !(w.value is F64) ==> wire_text(w) == value::display_of(w.value),
{
}

/// A bound of a polling loop that is not set has its default, and one that is set must be a
/// whole number but for white space around it.
pub proof fn law_poll_bound_is_read(raw: Option<String>, resolved: Seq<char>, default: u64)
    ensures
        raw is None ==> poll_bound(raw, resolved, default) == Some(default as nat),
        raw is Some ==> poll_bound(raw, resolved, default) == text::unsigned_value(
            text::trimmed(resolved),
            u64::MAX as nat,
        ),
{
}

/// The conditions that are watched in a phase are exactly those that are declared for
/// phases, and its own that are declared for where they stand; each once, in order.
pub proof fn law_watched_conditions(by: Declarer, decls: Seq<StopWhen>, n: int)
    requires
        0 <= n <= decls.len(),
    ensures
        forall|i: int|
            0 <= i < n ==> (#[trigger] reaching(by, decls, n).contains((by, i)) <==> decls[i].each@.contains(
                ScopeLevel::Phase,
            ) || (by == Declarer::Phase && decls[i].each@.contains(ScopeLevel::SelfScope))),
        forall|a: int|
            0 <= a < reaching(by, decls, n).len() ==> (#[trigger] reaching(by, decls, n)[a]).0 == by
                && 0 <= reaching(by, decls, n)[a].1 < n,
        forall|a: int, b: int|
            0 <= a < b < reaching(by, decls, n).len() ==> (#[trigger] reaching(by, decls, n)[a]).1 < (
            #[trigger] reaching(by, decls, n)[b]).1,
    decreases n,
{
    if n > 0 {
        law_watched_conditions(by, decls, n - 1);
        let before = reaching(by, decls, n - 1);
        let now = reaching(by, decls, n);
        let hit = reaches_phase(by, decls[n - 1].each@);
        if hit {
            assert(now[before.len() as int] == (by, n - 1));
        }
        assert forall|i: int| 0 <= i < n implies (#[trigger] now.contains((by, i))
            <==> decls[i].each@.contains(ScopeLevel::Phase) || (by == Declarer::Phase
            && decls[i].each@.contains(ScopeLevel::SelfScope))) by {
            if i < n - 1 {
                if before.contains((by, i)) {
                    let j = before.index_of((by, i));
                    assert(now[j] == (by, i));
                }
                if now.contains((by, i)) {
                    let j = now.index_of((by, i));
                    assert(before[j] == (by, i));
                }
            } else {
                if now.contains((by, i)) {
                    let j = now.index_of((by, i));
                    if j < before.len() {
                        assert(before[j].1 < n - 1);
                    }
                }
            }
        }
    }
}

/// The guards come before what is declared: that on the error rate where there is a limit,
/// then that on the time where there is one.
pub proof fn law_guards_come_first(error_rate: bool, timeout: bool)
    ensures
        guards_of(error_rate, timeout).contains(StopEntry::ErrorRateGuard) <==> error_rate,
        guards_of(error_rate, timeout).contains(StopEntry::TimeoutGuard) <==> timeout,
        error_rate && timeout ==> guards_of(error_rate, timeout) == seq![
            StopEntry::ErrorRateGuard,
            StopEntry::TimeoutGuard,
        ],
        forall|i: int|
            0 <= i < guards_of(error_rate, timeout).len() ==> !(#[trigger] guards_of(
                error_rate,
                timeout,
            )[i] is Declared),
{
    let g = guards_of(error_rate, timeout);
    if error_rate {
        assert(g[0] == StopEntry::ErrorRateGuard);
    }
    if timeout {
        assert(g[g.len() - 1] == StopEntry::TimeoutGuard);
    }
    if error_rate && timeout {
        assert(g =~= seq![StopEntry::ErrorRateGuard, StopEntry::TimeoutGuard]);
    }
}

/// What a phase sets for itself goes before what the run sets.
pub proof fn law_phase_goes_before_run<T>(own: T, run: T, any: Option<T>)
    ensures
        own_or(Some(own), run) == own,
        own_or(None, run) == run,
        own_or_else(Some(own), any) == Some(own),
        own_or_else(None, any) == any,
{
}

/// A binding breaks its contract exactly where reading it gives no value.
pub proof fn law_binding_needs_a_value(ctx: Seq<char>, name: Seq<char>, p: Pulled)
    ensures
        init_fault(ctx, name, p) is None <==> p is Value,
        final_fault(ctx, name, p) is None <==> p is Value,
        p matches Pulled::Panicked(m) ==> init_fault(ctx, name, p) == Some(
            ctx + ": init binding '"@ + name
                + "' violates the init contract: scope-init eval "@ + "panicked: "@ + m@
                + " (per SRD 11 §\"Init Binding Contract\" Plan B)."@,
        ) && final_fault(ctx, name, p) == Some(
            ctx + ": final binding '"@ + name + "' "@ + "eval panicked at scope activation: "@ + m@,
        ),
{
}

/// A condition acts where it says, else where the innermost of its levels is, else at the
/// phase.
pub proof fn law_condition_acts_where_said(g: Gathered, d: StopWhen)
    requires
        target_right(g, d),
    ensures
        d.at == Some(ScopeLevel::Workload) ==> g.target == StopScope::Workload,
        d.at == Some(ScopeLevel::Scenario) ==> g.target == StopScope::Scenario,
        d.at == Some(ScopeLevel::Phase) ==> g.target == StopScope::Phase,
        d.at is None && d.each@.len() == 0 ==> g.target == StopScope::Phase,
        d.at is None && d.each@ == seq![ScopeLevel::Workload] ==> g.target == StopScope::Workload,
        d.at is None && d.each@ == seq![ScopeLevel::Scenario, ScopeLevel::Workload] ==> g.target
            == StopScope::Scenario,
        d.at is None && d.each@.contains(ScopeLevel::Phase) && !d.each@.contains(
            ScopeLevel::SelfScope,
        ) && !d.each@.contains(ScopeLevel::Op) ==> g.target == StopScope::Phase,
{
    if d.at is None {
        if d.each@ == seq![ScopeLevel::Workload] {
            assert(d.each@[0] == ScopeLevel::Workload);
            assert(shell::is_innermost(d.each@, ScopeLevel::Workload));
        }
        if d.each@ == seq![ScopeLevel::Scenario, ScopeLevel::Workload] {
            assert(d.each@[0] == ScopeLevel::Scenario);
            assert(shell::is_innermost(d.each@, ScopeLevel::Scenario));
        }
        if d.each@.contains(ScopeLevel::Phase) && !d.each@.contains(ScopeLevel::SelfScope)
            && !d.each@.contains(ScopeLevel::Op) {
            assert forall|i: int| 0 <= i < d.each@.len() implies shell::level_rank(ScopeLevel::Phase)
                <= shell::level_rank(#[trigger] d.each@[i]) by {
                assert(d.each@.contains(d.each@[i]));
            }
            assert(shell::is_innermost(d.each@, ScopeLevel::Phase));
        }
    }
}

/// A phase is spoken of by its name and, in brackets, what it iterates over, if anything.
pub proof fn law_phase_is_spoken_of(name: Seq<char>, v: Seq<(Seq<char>, Seq<char>)>)
    ensures
        v.len() == 0 ==> context_text(name, v) == "phase '"@ + name + "'"@,
        v.len() > 0 ==> context_text(name, v) == "phase '"@ + name + "' ("@ + text::joined(
            vars::entry_texts(v),
            ", "@,
        ) + ")"@,
{
}

} // verus!
