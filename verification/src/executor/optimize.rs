//! Searching for the best coordinate of a phase: the space that is searched,
//! which axes are actuated live, which cells are visited, and when the search
//! ends.

use vstd::prelude::*;

use crate::adapter;
use crate::executor::coords;
use crate::model;
use crate::model::{ExecDepth, OptimizeBlock};
use crate::phase_outcome;
use crate::phase_outcome::{Disposition, Outcome, Validity};
use crate::strmap::StrMap;
use crate::text;
use crate::text::{cat2, cat3, cat5, cat7, contains_text, join_texts, str_eq, u64_text};
use crate::value;
use crate::value::{Float, Value};

verus! {

/// A position on one axis.
#[derive(Debug, Clone, PartialEq)]
pub enum AxisValue {
    Num(Float),
    Bool(bool),
    Label(String),
}

pub open spec fn axis_text(v: AxisValue) -> Seq<char> {
    match v {
        AxisValue::Num(f) => f.text@,
        AxisValue::Bool(b) => if b {
            "true"@
        } else {
            "false"@
        },
        AxisValue::Label(s) => s@,
    }
}

pub open spec fn axis_texts(c: Seq<AxisValue>) -> Seq<Seq<char>> {
    c.map_values(|v: AxisValue| axis_text(v))
}

impl AxisValue {
    pub fn text(&self) -> (r: String)
        ensures
            r@ == axis_text(*self),
    {
        match self {
            AxisValue::Num(f) => f.text.clone(),
            AxisValue::Bool(b) => if *b {
                "true".to_owned()
            } else {
                "false".to_owned()
            },
            AxisValue::Label(s) => s.clone(),
        }
    }

    pub fn copy(&self) -> (r: AxisValue)
        ensures
            r == *self,
    {
        match self {
            AxisValue::Num(f) => AxisValue::Num(Float { bits: f.bits, text: f.text.clone() }),
            AxisValue::Bool(b) => AxisValue::Bool(*b),
            AxisValue::Label(s) => AxisValue::Label(s.clone()),
        }
    }
}

/// How an axis is moved: by running the phase again, or by retargeting a
/// control of the running phase.
#[derive(Debug, Clone, Copy, PartialEq, Eq, Structural)]
pub enum Changeover {
    Coordinate,
    Control,
}

/// What positions an axis has.
#[derive(Debug, Clone, PartialEq)]
pub enum AxisKind {
    Discrete { detents: Vec<AxisValue> },
    Categorical { options: Vec<AxisValue> },
    Continuous { lo: Float, hi: Float },
}

#[derive(Debug, Clone, PartialEq)]
pub struct Axis {
    pub name: String,
    pub kind: AxisKind,
    pub changeover: Changeover,
}

/// The space that is searched.
#[derive(Debug, Clone, PartialEq)]
pub struct SearchSpace {
    pub axes: Vec<Axis>,
}

/// An axis that is actuated through a live control.
#[derive(Debug, Clone, PartialEq)]
pub struct ControlAxis {
    pub axis_idx: usize,
    pub control: String,
}

fn texts_of(coord: &Vec<AxisValue>) -> (r: Vec<String>)
    ensures
        text::views(r@) == axis_texts(coord@),
{
    let mut r: Vec<String> = Vec::new();
    let mut i: usize = 0;
    while i < coord.len()
        invariant
            i <= coord@.len(),
            r@.len() == i,
            forall|k: int| 0 <= k < i ==> #[trigger] r@[k]@ == axis_text(coord@[k]),
        decreases coord@.len() - i,
    {
        r.push(coord[i].text());
        i += 1;
    }
    assert(text::views(r@) =~= axis_texts(coord@));
    r
}

/// The key of a coordinate: its positions, joined by the unit separator.
pub open spec fn key_of(coord: Seq<AxisValue>) -> Seq<char> {
    text::joined(axis_texts(coord), "\u{1f}"@)
}

/// The key under which a coordinate is found again.
pub fn coord_key(coord: &Vec<AxisValue>) -> (r: String)
    ensures
        r@ == key_of(coord@),
{
    join_texts(&texts_of(coord), "\u{1f}")
}

/// How a coordinate is shown.
pub fn coord_text(coord: &Vec<AxisValue>) -> (r: String)
    ensures
        r@ == text::joined(axis_texts(coord@), ", "@),
{
    join_texts(&texts_of(coord), ", ")
}

/// The position of the axis called `name`.
pub open spec fn axis_named(axes: Seq<Axis>, name: Seq<char>, i: int) -> bool {
    0 <= i < axes.len() && axes[i].name@ == name && forall|k: int|
        0 <= k < i ==> (#[trigger] axes[k]).name@ != name
}

fn find_axis(space: &SearchSpace, name: &str) -> (r: Option<usize>)
    ensures
        match r {
            Some(i) => axis_named(space.axes@, name@, i as int),
            None => forall|k: int|
                0 <= k < space.axes@.len() ==> (#[trigger] space.axes@[k]).name@ != name@,
        },
{
    let mut i: usize = 0;
    while i < space.axes.len()
        invariant
            i <= space.axes@.len(),
            forall|k: int| 0 <= k < i ==> (#[trigger] space.axes@[k]).name@ != name@,
        decreases space.axes@.len() - i,
    {
        if str_eq(space.axes[i].name.as_str(), name) {
            return Some(i);
        }
        i += 1;
    }
    None
}

/// Which control a servoed variable moves, if any.
pub open spec fn control_of(
    var: Seq<char>,
    concurrency: Option<Seq<char>>,
    has_rate: bool,
) -> Option<Seq<char>> {
    if var == "concurrency"@ {
        Some(var)
    } else if var == "rate"@ {
        if has_rate {
            Some(var)
        } else {
            None
        }
    } else if concurrency is Some && text::has_part(concurrency->0, "{"@ + var + "}"@) {
        Some("concurrency"@)
    } else {
        None
    }
}

/// Why a servoed variable cannot be served.
pub open spec fn servo_fault(
    axes: Seq<Axis>,
    var: Seq<char>,
    concurrency: Option<Seq<char>>,
    has_rate: bool,
) -> Option<Seq<char>> {
    if forall|k: int| 0 <= k < axes.len() ==> (#[trigger] axes[k]).name@ != var {
        Some(
            "optimize `servo: "@ + var
                + "` is not a search axis — name a var that appears in the phase's `for_each`"@,
        )
    } else if control_of(var, concurrency, has_rate) is Some {
        None
    } else if var == "rate"@ {
        Some(
            "optimize `servo: rate` but the phase declares no `rate:` field, so there is no rate control to servo — add a `rate:` to the phase (its value is the warmup the servo retargets from)"@,
        )
    } else {
        Some(
            "optimize `servo: "@ + var + "` but '"@ + var
                + "' is neither a live control nor wired to one — name a control directly (`servo: concurrency`) or wire the var (`concurrency: \"{"@
                + var
                + "}\"`); or drop it from `servo:` to step through its values by re-running the phase"@,
        )
    }
}

fn resolve_servo(
    space: &SearchSpace,
    var: &str,
    phase_concurrency: &Option<String>,
    phase_has_rate: bool,
) -> (r: Result<ControlAxis, String>)
    ensures
        ({
            let conc = phase_outcome::text_of(*phase_concurrency);
            match r {
                Ok(c) => {
                    &&& servo_fault(space.axes@, var@, conc, phase_has_rate) is None
                    &&& axis_named(space.axes@, var@, c.axis_idx as int)
                    &&& Some(c.control@) == control_of(var@, conc, phase_has_rate)
                },
                Err(e) => servo_fault(space.axes@, var@, conc, phase_has_rate) == Some(e@),
            }
        }),
{
    let found = find_axis(space, var);
    match found {
        None => Err(
            cat3(
                "optimize `servo: ",
                var,
                "` is not a search axis — name a var that appears in the phase's `for_each`",
            ),
        ),
        Some(i) => {
            assert(space.axes@[i as int].name@ == var@);
            if str_eq(var, "concurrency") {
                return Ok(ControlAxis { axis_idx: i, control: var.to_owned() });
            }
            if str_eq(var, "rate") {
                if !phase_has_rate {
                    return Err(
                        "optimize `servo: rate` but the phase declares no `rate:` field, so there is no rate control to servo — add a `rate:` to the phase (its value is the warmup the servo retargets from)".to_owned(),
                    );
                }
                return Ok(ControlAxis { axis_idx: i, control: var.to_owned() });
            }
            if let Some(c) = phase_concurrency {
                if contains_text(c.as_str(), cat3("{", var, "}").as_str()) {
                    return Ok(ControlAxis { axis_idx: i, control: "concurrency".to_owned() });
                }
            }
            Err(
                cat7(
                    "optimize `servo: ",
                    var,
                    "` but '",
                    var,
                    "' is neither a live control nor wired to one — name a control directly (`servo: concurrency`) or wire the var (`concurrency: \"{",
                    var,
                    "}\"`); or drop it from `servo:` to step through its values by re-running the phase",
                ),
            )
        },
    }
}

/// The axes that are actuated live, one per servoed variable and in that order,
/// or the first reason why one cannot be.
pub fn classify_control_axes(
    space: &SearchSpace,
    servo: &Vec<String>,
    phase_concurrency: &Option<String>,
    phase_has_rate: bool,
) -> (r: Result<Vec<ControlAxis>, String>)
    ensures
        ({
            let conc = phase_outcome::text_of(*phase_concurrency);
            match r {
                Ok(v) => v@.len() == servo@.len() && forall|i: int|
                    0 <= i < servo@.len() ==> {
                        &&& servo_fault(space.axes@, (#[trigger] servo@[i])@, conc, phase_has_rate)
                            is None
                        &&& axis_named(space.axes@, servo@[i]@, v@[i].axis_idx as int)
                        &&& Some(v@[i].control@) == control_of(servo@[i]@, conc, phase_has_rate)
                    },
                Err(e) => exists|i: int|
                    0 <= i < servo@.len() && servo_fault(
                        space.axes@,
                        (#[trigger] servo@[i])@,
                        conc,
                        phase_has_rate,
                    ) == Some(e@) && forall|k: int|
                        0 <= k < i ==> servo_fault(
                            space.axes@,
                            (#[trigger] servo@[k])@,
                            conc,
                            phase_has_rate,
                        ) is None,
            }
        }),
{
    let mut controls: Vec<ControlAxis> = Vec::new();
    let ghost conc = phase_outcome::text_of(*phase_concurrency);
    let mut i: usize = 0;
    while i < servo.len()
        invariant
            i <= servo@.len(),
            controls@.len() == i,
            conc == phase_outcome::text_of(*phase_concurrency),
            forall|k: int|
                0 <= k < i ==> {
                    &&& servo_fault(space.axes@, (#[trigger] servo@[k])@, conc, phase_has_rate)
                        is None
                    &&& axis_named(space.axes@, servo@[k]@, controls@[k].axis_idx as int)
                    &&& Some(controls@[k].control@) == control_of(
                        servo@[k]@,
                        conc,
                        phase_has_rate,
                    )
                },
        decreases servo@.len() - i,
    {
        match resolve_servo(space, servo[i].as_str(), phase_concurrency, phase_has_rate) {
            Ok(c) => {
                controls.push(c);
            },
            Err(e) => {
                assert(servo_fault(space.axes@, servo@[i as int]@, conc, phase_has_rate) == Some(
                    e@,
                ));
                return Err(e);
            },
        }
        i += 1;
    }
    Ok(controls)
}

/// Whether a search over live controls has something to settle on: the phase
/// must read a live metric. `reads_live` is unknown while the phase has no
/// kernel.
pub fn require_windowed_objective(
    phase_name: &str,
    objective: &str,
    reads_live: Option<bool>,
) -> (r: Result<(), String>)
    ensures
        r is Err <==> reads_live == Some(false),
        r matches Err(e) ==> e@ == "phase '"@ + phase_name@
            + "': Control-class optimize needs a windowed objective ('"@ + objective@
            + "') to settle per setting, but the phase reads no live metric. Use metric_window(...) or metricsql_scalar(rate(...[W]))."@,
{
    match reads_live {
        Some(false) => Err(
            cat5(
                "phase '",
                phase_name,
                "': Control-class optimize needs a windowed objective ('",
                objective,
                "') to settle per setting, but the phase reads no live metric. Use metric_window(...) or metricsql_scalar(rate(...[W])).",
            ),
        ),
        _ => Ok(()),
    }
}

/// One enumerated candidate: its bindings and their positions on the axes.
#[derive(Debug, Clone, PartialEq)]
pub struct EvalStep {
    pub bindings: Vec<(String, Value)>,
    pub position: Vec<AxisValue>,
}

/// The first step with the given key.
pub open spec fn is_first_with_key(steps: Seq<EvalStep>, key: Seq<char>, i: int) -> bool {
    0 <= i < steps.len() && key_of(steps[i].position@) == key && forall|k: int|
        0 <= k < i ==> key_of((#[trigger] steps[k]).position@) != key
}

/// The steps by key; of steps with one key the first counts.
pub fn index_steps(steps: &Vec<EvalStep>) -> (r: StrMap<usize>)
    ensures
        r.wf(),
        forall|k: Seq<char>| #[trigger]
            r@.contains_key(k) ==> is_first_with_key(steps@, k, r@[k] as int),
        forall|i: int|
            0 <= i < steps@.len() ==> r@.contains_key(key_of((#[trigger] steps@[i]).position@)),
{
    let mut m: StrMap<usize> = StrMap::new();
    let mut i: usize = 0;
    while i < steps.len()
        invariant
            i <= steps@.len(),
            m.wf(),
            forall|k: Seq<char>| #[trigger]
                m@.contains_key(k) ==> is_first_with_key(steps@, k, m@[k] as int) && m@[k] < i,
            forall|j: int|
                0 <= j < i ==> m@.contains_key(key_of((#[trigger] steps@[j]).position@)),
        decreases steps@.len() - i,
    {
        let key = coord_key(&steps[i].position);
        if !m.contains(key.as_str()) {
            assert(is_first_with_key(steps@, key@, i as int));
            m.insert(key, i);
        }
        i += 1;
    }
    m
}

/// The candidate that a proposed coordinate stands for; none off the grid.
pub fn materialize(index: &StrMap<usize>, coord: &Vec<AxisValue>) -> (r: Option<usize>)
    requires
        index.wf(),
    ensures
        r is Some <==> index@.contains_key(key_of(coord@)),
        r matches Some(i) ==> i == index@[key_of(coord@)],
{
    let key = coord_key(coord);
    match index.get(key.as_str()) {
        Some(i) => Some(*i),
        None => None,
    }
}

/// The wire value that a position is bound as.
pub open spec fn wire_value(v: AxisValue) -> Value {
    match v {
        AxisValue::Num(f) => Value::F64(f),
        AxisValue::Bool(b) => Value::Bool(b),
        AxisValue::Label(s) => Value::Str(s),
    }
}

pub fn axis_value_to_polydat(v: &AxisValue) -> (r: Value)
    ensures
        r == wire_value(*v),
{
    match v {
        AxisValue::Num(f) => Value::F64(Float { bits: f.bits, text: f.text.clone() }),
        AxisValue::Bool(b) => Value::Bool(*b),
        AxisValue::Label(s) => Value::Str(s.clone()),
    }
}

/// The bindings of a proposed coordinate of sampled axes: the names with their
/// positions, as far as both go.
pub fn synthesize(axis_names: &Vec<String>, coord: &Vec<AxisValue>) -> (r: Vec<(String, Value)>)
    ensures
        r@.len() == adapter::shorter(axis_names@.len(), coord@.len()),
        forall|i: int|
            0 <= i < r@.len() ==> (#[trigger] r@[i]).0@ == axis_names@[i]@ && r@[i].1 == wire_value(
                coord@[i],
            ),
{
    let mut r: Vec<(String, Value)> = Vec::new();
    let mut i: usize = 0;
    while i < axis_names.len() && i < coord.len()
        invariant
            i <= axis_names@.len(),
            i <= coord@.len(),
            r@.len() == i,
            forall|k: int|
                0 <= k < i ==> (#[trigger] r@[k]).0@ == axis_names@[k]@ && r@[k].1 == wire_value(
                    coord@[k],
                ),
        decreases axis_names@.len() - i,
    {
        r.push((axis_names[i].clone(), axis_value_to_polydat(&coord[i])));
        i += 1;
    }
    r
}

/// The candidate at which the structure of an enumerated search is mapped, and
/// at which a search by controls starts: the first one, or why there is none.
pub fn representative(steps: &Vec<EvalStep>, phase_name: &str) -> (r: Result<usize, String>)
    ensures
        steps@.len() > 0 ==> r == Ok::<usize, String>(0),
        steps@.len() == 0 ==> (r matches Err(e) && e@ == "phase '"@ + phase_name@
            + "': control optimize has no representative coordinate"@),
{
    if steps.len() > 0 {
        Ok(0)
    } else {
        Err(cat3("phase '", phase_name, "': control optimize has no representative coordinate"))
    }
}

/// How the next coordinates are asked of a source.
#[derive(Debug, Clone, Copy, PartialEq, Eq, Structural)]
pub enum SourceCall {
    /// With what was evaluated so far.
    Step,
    Pull,
    /// The source gives none.
    Nothing,
}

/// How the next coordinates are asked of a source: with feedback where it takes
/// any.
pub fn source_next(takes_feedback: bool, can_be_pulled: bool) -> (r: SourceCall)
    ensures
        r == (if takes_feedback {
            SourceCall::Step
        } else if can_be_pulled {
            SourceCall::Pull
        } else {
            SourceCall::Nothing
        }),
{
    if takes_feedback {
        SourceCall::Step
    } else if can_be_pulled {
        SourceCall::Pull
    } else {
        SourceCall::Nothing
    }
}

/// A coordinate that is on the grid is found, and it is found where it was
/// enumerated first.
pub proof fn law_enumerated_coordinate_is_found(
    steps: Seq<EvalStep>,
    index: Map<Seq<char>, usize>,
    i: int,
)
    requires
        0 <= i < steps.len(),
        forall|k: Seq<char>| #[trigger]
            index.contains_key(k) ==> is_first_with_key(steps, k, index[k] as int),
        forall|j: int|
            0 <= j < steps.len() ==> index.contains_key(key_of((#[trigger] steps[j]).position@)),
    ensures
        index.contains_key(key_of(steps[i].position@)),
        index[key_of(steps[i].position@)] <= i,
        key_of(steps[index[key_of(steps[i].position@)] as int].position@) == key_of(
            steps[i].position@,
        ),
{
    let k = key_of(steps[i].position@);
    assert(index.contains_key(k));
    if index[k] > i {
        assert(key_of(steps[i].position@) != k);
    }
}

/// Whether a value shown as `t` is among `v`.
pub open spec fn shows(v: Seq<AxisValue>, t: Seq<char>) -> bool {
    exists|i: int| 0 <= i < v.len() && axis_text(#[trigger] v[i]) == t
}

/// The values that are shown differently, in the order in which they are seen.
pub open spec fn distinct(v: Seq<AxisValue>) -> Seq<AxisValue>
    decreases v.len(),
{
    if v.len() == 0 {
        Seq::empty()
    } else {
        let before = distinct(v.drop_last());
        if shows(before, axis_text(v.last())) {
            before
        } else {
            before.push(v.last())
        }
    }
}

/// The positions of all steps on one axis.
pub open spec fn column(steps: Seq<EvalStep>, a: int) -> Seq<AxisValue> {
    steps.map_values(|s: EvalStep| s.position@[a])
}

pub open spec fn all_numeric(v: Seq<AxisValue>) -> bool {
    forall|i: int| 0 <= i < v.len() ==> (#[trigger] v[i]) is Num
}

fn is_shown(v: &Vec<AxisValue>, t: &str) -> (r: bool)
    ensures
        r == shows(v@, t@),
{
    let mut i: usize = 0;
    while i < v.len()
        invariant
            i <= v@.len(),
            forall|k: int| 0 <= k < i ==> axis_text(#[trigger] v@[k]) != t@,
        decreases v@.len() - i,
    {
        if str_eq(v[i].text().as_str(), t) {
            assert(axis_text(v@[i as int]) == t@);
            return true;
        }
        i += 1;
    }
    false
}

/// The axis that the positions of all steps describe.
pub open spec fn is_axis_of(axis: Axis, steps: Seq<EvalStep>, a: int) -> bool {
    let values = distinct(column(steps, a));
    &&& axis.name@ == steps[0].bindings@[a].0@
    &&& axis.changeover == Changeover::Coordinate
    &&& if all_numeric(values) {
        axis.kind matches AxisKind::Discrete { detents } && detents@ == values
    } else {
        axis.kind matches AxisKind::Categorical { options } && options@ == values
    }
}

fn axis_from_steps(steps: &Vec<EvalStep>, a: usize) -> (r: Axis)
    requires
        steps@.len() > 0,
        forall|i: int|
            0 <= i < steps@.len() ==> a < (#[trigger] steps@[i]).position@.len(),
        a < steps@[0].bindings@.len(),
    ensures
        is_axis_of(r, steps@, a as int),
{
    let mut values: Vec<AxisValue> = Vec::new();
    let mut numeric = true;
    let mut i: usize = 0;
    let ghost col = column(steps@, a as int);
    assert(col.take(0).len() == 0);
    while i < steps.len()
        invariant
            i <= steps@.len(),
            col == column(steps@, a as int),
            forall|k: int|
                0 <= k < steps@.len() ==> a < (#[trigger] steps@[k]).position@.len(),
            values@ == distinct(col.take(i as int)),
            numeric == all_numeric(values@),
        decreases steps@.len() - i,
    {
        assert(col.take(i + 1).drop_last() =~= col.take(i as int));
        let v = &steps[i].position[a];
        assert(col[i as int] == *v);
        if !is_shown(&values, v.text().as_str()) {
            let is_num = match v {
                AxisValue::Num(_) => true,
                _ => false,
            };
            let ghost before = values@;
            values.push(v.copy());
            proof {
                assert(values@ == before.push(*v));
                if !is_num {
                    assert(!(values@[before.len() as int] is Num));
                } else if numeric {
                    assert(all_numeric(values@));
                } else {
                    let w = choose|w: int| 0 <= w < before.len() && !((#[trigger] before[w]) is Num);
                    assert(values@[w] == before[w]);
                }
            }
            if !is_num {
                numeric = false;
            }
        }
        i += 1;
    }
    assert(col.take(i as int) =~= col);
    let kind = if numeric {
        AxisKind::Discrete { detents: values }
    } else {
        AxisKind::Categorical { options: values }
    };
    Axis { name: steps[0].bindings[a].0.clone(), kind, changeover: Changeover::Coordinate }
}

/// The space that the enumerated candidates span: per axis the values that
/// occur, in the order in which they are seen, discrete where all of them are
/// numbers.
pub fn search_space_from_steps(steps: &Vec<EvalStep>) -> (r: SearchSpace)
    requires
        steps@.len() > 0 ==> forall|i: int|
            0 <= i < steps@.len() ==> steps@[0].bindings@.len() <= (
            #[trigger] steps@[i]).position@.len(),
    ensures
        r.axes@.len() == (if steps@.len() > 0 {
            steps@[0].bindings@.len()
        } else {
            0
        }),
        forall|a: int| 0 <= a < r.axes@.len() ==> is_axis_of(#[trigger] r.axes@[a], steps@, a),
{
    let mut axes: Vec<Axis> = Vec::new();
    if steps.len() == 0 {
        return SearchSpace { axes };
    }
    let n: usize = steps[0].bindings.len();
    let mut a: usize = 0;
    while a < n
        invariant
            a <= n,
            steps@.len() > 0,
            n == steps@[0].bindings@.len(),
            forall|i: int|
                0 <= i < steps@.len() ==> n <= (#[trigger] steps@[i]).position@.len(),
            axes@.len() == a,
            forall|k: int| 0 <= k < a ==> is_axis_of(#[trigger] axes@[k], steps@, k),
        decreases n - a,
    {
        axes.push(axis_from_steps(steps, a));
        a += 1;
    }
    SearchSpace { axes }
}

/// The space of sampled axes: the names with their bounds, as far as both go.
pub fn search_space_continuous(axis_names: &Vec<String>, intervals: &Vec<(Float, Float)>) -> (r:
    SearchSpace)
    ensures
        r.axes@.len() == adapter::shorter(axis_names@.len(), intervals@.len()),
        forall|i: int|
            0 <= i < r.axes@.len() ==> (#[trigger] r.axes@[i]).name@ == axis_names@[i]@
                && r.axes@[i].changeover == Changeover::Coordinate && r.axes@[i].kind
                == (AxisKind::Continuous { lo: intervals@[i].0, hi: intervals@[i].1 }),
{
    let mut axes: Vec<Axis> = Vec::new();
    let mut i: usize = 0;
    while i < axis_names.len() && i < intervals.len()
        invariant
            i <= axis_names@.len(),
            i <= intervals@.len(),
            axes@.len() == i,
            forall|k: int|
                0 <= k < i ==> (#[trigger] axes@[k]).name@ == axis_names@[k]@
                    && axes@[k].changeover == Changeover::Coordinate && axes@[k].kind
                    == (AxisKind::Continuous { lo: intervals@[k].0, hi: intervals@[k].1 }),
        decreases axis_names@.len() - i,
    {
        let iv = &intervals[i];
        axes.push(
            Axis {
                name: axis_names[i].clone(),
                kind: AxisKind::Continuous {
                    lo: Float { bits: iv.0.bits, text: iv.0.text.clone() },
                    hi: Float { bits: iv.1.bits, text: iv.1.text.clone() },
                },
                changeover: Changeover::Coordinate,
            },
        );
        i += 1;
    }
    SearchSpace { axes }
}

/// How a search is run.
#[derive(Debug, Clone, Copy, PartialEq, Eq, Structural)]
pub enum SearchShape {
    /// There is nothing to search.
    Nothing,
    /// Only the structure is mapped, once.
    Outline,
    /// One run whose controls are all moved live.
    Control,
    /// One run per cell of the coordinate axes, with the others moved live.
    Hybrid,
    /// One run per proposed coordinate.
    Coordinate,
}

/// How a search over `dims` axes, `controls` of which are moved live, is run.
pub fn search_shape(dims: usize, controls: usize, depth: ExecDepth) -> (r: SearchShape)
    ensures
        r == (if dims == 0 {
            SearchShape::Nothing
        } else if model::depth_rank(depth) < model::depth_rank(ExecDepth::Op) {
            SearchShape::Outline
        } else if controls == 0 {
            SearchShape::Coordinate
        } else if controls == dims {
            SearchShape::Control
        } else {
            SearchShape::Hybrid
        }),
{
    if dims == 0 {
        SearchShape::Nothing
    } else if !depth.reaches(ExecDepth::Op) {
        SearchShape::Outline
    } else if controls == 0 {
        SearchShape::Coordinate
    } else if controls == dims {
        SearchShape::Control
    } else {
        SearchShape::Hybrid
    }
}

pub open spec fn is_controlled(controls: Seq<ControlAxis>, i: int) -> bool {
    exists|k: int| 0 <= k < controls.len() && (#[trigger] controls[k]).axis_idx == i
}

/// The axes below `n` that are not moved live, in order.
pub open spec fn coordinate_axes(controls: Seq<ControlAxis>, n: int) -> Seq<int>
    decreases n,
{
    if n <= 0 {
        Seq::empty()
    } else if is_controlled(controls, n - 1) {
        coordinate_axes(controls, n - 1)
    } else {
        coordinate_axes(controls, n - 1).push(n - 1)
    }
}

/// Positions as mathematical integers.
pub open spec fn as_ints(v: Seq<usize>) -> Seq<int> {
    v.map_values(|i: usize| i as int)
}

/// The axes that a hybrid search steps through by running the phase again.
pub fn coord_indices(control_axes: &Vec<ControlAxis>, dims: usize) -> (r: Vec<usize>)
    ensures
        as_ints(r@) == coordinate_axes(control_axes@, dims as int),
{
    let mut r: Vec<usize> = Vec::new();
    let mut i: usize = 0;
    assert(as_ints(r@) =~= coordinate_axes(control_axes@, 0));
    while i < dims
        invariant
            i <= dims,
            as_ints(r@) == coordinate_axes(control_axes@, i as int),
        decreases dims - i,
    {
        let mut hit = false;
        let mut k: usize = 0;
        while k < control_axes.len()
            invariant
                k <= control_axes@.len(),
                hit == exists|j: int|
                    0 <= j < k && (#[trigger] control_axes@[j]).axis_idx == i,
            decreases control_axes@.len() - k,
        {
            if control_axes[k].axis_idx == i {
                hit = true;
                assert(control_axes@[k as int].axis_idx == i);
            }
            k += 1;
        }
        assert(hit == is_controlled(control_axes@, i as int));
        if !hit {
            let ghost before = as_ints(r@);
            r.push(i);
            assert(as_ints(r@) =~= before.push(i as int));
        }
        i += 1;
    }
    r
}

/// Every axis is either moved live or stepped through, never both.
pub proof fn law_axes_are_partitioned(controls: Seq<ControlAxis>, n: int, i: int)
    requires
        0 <= i < n,
    ensures
        coordinate_axes(controls, n).contains(i) <==> !is_controlled(controls, i),
    decreases n,
{
    let less = coordinate_axes(controls, n - 1);
    let all = coordinate_axes(controls, n);
    if i < n - 1 {
        law_axes_are_partitioned(controls, n - 1, i);
        if less.contains(i) {
            let k = less.index_of(i);
            assert(all[k] == i);
        }
        if all.contains(i) {
            let k = all.index_of(i);
            assert(less[k] == i);
        }
    } else {
        if !is_controlled(controls, i) {
            assert(all[less.len() as int] == i);
        } else {
            lemma_coordinate_axes_bound(controls, n - 1);
            if all.contains(i) {
                let k = all.index_of(i);
                assert(less[k] == i);
            }
        }
    }
}

proof fn lemma_coordinate_axes_bound(controls: Seq<ControlAxis>, n: int)
    requires
        0 <= n,
    ensures
        forall|k: int|
            0 <= k < coordinate_axes(controls, n).len() ==> 0 <= #[trigger] coordinate_axes(
                controls,
                n,
            )[k] < n,
    decreases n,
{
    if n > 0 {
        lemma_coordinate_axes_bound(controls, n - 1);
        let less = coordinate_axes(controls, n - 1);
        let all = coordinate_axes(controls, n);
        assert forall|k: int| 0 <= k < all.len() implies 0 <= #[trigger] all[k] < n by {
            if k < less.len() {
                assert(all[k] == less[k]);
            }
        }
    }
}

fn copy_kind(k: &AxisKind) -> (r: AxisKind)
    ensures
        same_kind(r, *k),
{
    match k {
        AxisKind::Discrete { detents } => AxisKind::Discrete { detents: copy_values(detents) },
        AxisKind::Categorical { options } => AxisKind::Categorical {
            options: copy_values(options),
        },
        AxisKind::Continuous { lo, hi } => AxisKind::Continuous {
            lo: Float { bits: lo.bits, text: lo.text.clone() },
            hi: Float { bits: hi.bits, text: hi.text.clone() },
        },
    }
}

fn copy_values(v: &Vec<AxisValue>) -> (r: Vec<AxisValue>)
    ensures
        r@ == v@,
{
    let mut r: Vec<AxisValue> = Vec::new();
    let mut i: usize = 0;
    while i < v.len()
        invariant
            i <= v@.len(),
            r@ == v@.take(i as int),
        decreases v@.len() - i,
    {
        r.push(v[i].copy());
        assert(v@.take(i + 1) =~= v@.take(i as int).push(v@[i as int]));
        i += 1;
    }
    assert(v@.take(i as int) =~= v@);
    r
}

/// Two axis kinds with the same positions.
pub open spec fn same_kind(a: AxisKind, b: AxisKind) -> bool {
    match (a, b) {
        (AxisKind::Discrete { detents: x }, AxisKind::Discrete { detents: y }) => x@ == y@,
        (AxisKind::Categorical { options: x }, AxisKind::Categorical { options: y }) => x@ == y@,
        (AxisKind::Continuous { lo: l, hi: h }, AxisKind::Continuous { lo: m, hi: k }) => l == m
            && h == k,
        _ => false,
    }
}

/// The part of the space that is moved live, and its controls with their places
/// in that part.
pub fn control_subspace(space: &SearchSpace, control_axes: &Vec<ControlAxis>) -> (r: (
    SearchSpace,
    Vec<ControlAxis>,
))
    requires
        forall|k: int|
            0 <= k < control_axes@.len() ==> (#[trigger] control_axes@[k]).axis_idx
                < space.axes@.len(),
    ensures
        r.0.axes@.len() == control_axes@.len(),
        r.1@.len() == control_axes@.len(),
        forall|k: int|
            0 <= k < control_axes@.len() ==> {
                let from = space.axes@[(#[trigger] control_axes@[k]).axis_idx as int];
                &&& r.0.axes@[k].name@ == from.name@
                &&& same_kind(r.0.axes@[k].kind, from.kind)
                &&& r.0.axes@[k].changeover == Changeover::Control
                &&& r.1@[k].axis_idx == k
                &&& r.1@[k].control@ == control_axes@[k].control@
            },
{
    let mut axes: Vec<Axis> = Vec::new();
    let mut controls: Vec<ControlAxis> = Vec::new();
    let mut k: usize = 0;
    while k < control_axes.len()
        invariant
            k <= control_axes@.len(),
            axes@.len() == k,
            controls@.len() == k,
            forall|j: int|
                0 <= j < control_axes@.len() ==> (#[trigger] control_axes@[j]).axis_idx
                    < space.axes@.len(),
            forall|j: int|
                0 <= j < k ==> {
                    let from = space.axes@[(#[trigger] control_axes@[j]).axis_idx as int];
                    &&& axes@[j].name@ == from.name@
                    &&& same_kind(axes@[j].kind, from.kind)
                    &&& axes@[j].changeover == Changeover::Control
                    &&& controls@[j].axis_idx == j
                    &&& controls@[j].control@ == control_axes@[j].control@
                },
        decreases control_axes@.len() - k,
    {
        let ca = &control_axes[k];
        assert(control_axes@[k as int].axis_idx < space.axes@.len());
        let from = &space.axes[ca.axis_idx];
        axes.push(
            Axis {
                name: from.name.clone(),
                kind: copy_kind(&from.kind),
                changeover: Changeover::Control,
            },
        );
        controls.push(ControlAxis { axis_idx: k, control: ca.control.clone() });
        k += 1;
    }
    (SearchSpace { axes }, controls)
}

/// The space after its live axes are marked as such.
pub open spec fn is_stamped(before: Seq<Axis>, controls: Seq<ControlAxis>, after: Seq<Axis>) -> bool {
    &&& after.len() == before.len()
    &&& forall|i: int|
        0 <= i < before.len() ==> {
            &&& (#[trigger] after[i]).name == before[i].name
            &&& after[i].kind == before[i].kind
            &&& after[i].changeover == (if is_controlled(controls, i) {
                Changeover::Control
            } else {
                before[i].changeover
            })
        }
}

/// Marks the axes that are moved live.
pub fn stamp_controls(space: &mut SearchSpace, control_axes: &Vec<ControlAxis>)
    requires
        forall|k: int|
            0 <= k < control_axes@.len() ==> (#[trigger] control_axes@[k]).axis_idx < old(
                space,
            ).axes@.len(),
    ensures
        is_stamped(old(space).axes@, control_axes@, final(space).axes@),
{
    let ghost before = space.axes@;
    let mut k: usize = 0;
    while k < control_axes.len()
        invariant
            k <= control_axes@.len(),
            forall|j: int|
                0 <= j < control_axes@.len() ==> (#[trigger] control_axes@[j]).axis_idx
                    < before.len(),
            is_stamped(before, control_axes@.take(k as int), space.axes@),
        decreases control_axes@.len() - k,
    {
        let at: usize = control_axes[k].axis_idx;
        assert(control_axes@[k as int].axis_idx < before.len());
        let ghost now = space.axes@;
        let mut axis = Axis {
            name: String::new(),
            kind: AxisKind::Discrete { detents: Vec::new() },
            changeover: Changeover::Control,
        };
        space.axes.set_and_swap(at, &mut axis);
        axis.changeover = Changeover::Control;
        space.axes.set(at, axis);
        proof {
            let done = control_axes@.take(k as int);
            let more = control_axes@.take(k + 1);
            assert forall|i: int| 0 <= i < before.len() implies {
                &&& (#[trigger] space.axes@[i]).name == before[i].name
                &&& space.axes@[i].kind == before[i].kind
                &&& space.axes@[i].changeover == (if is_controlled(more, i) {
                    Changeover::Control
                } else {
                    before[i].changeover
                })
            } by {
                assert(now[i].name == before[i].name);
                if is_controlled(done, i) {
                    let j = choose|j: int| 0 <= j < done.len() && (#[trigger] done[j]).axis_idx == i;
                    assert(more[j].axis_idx == i);
                }
                if i == at {
                    assert(more[k as int].axis_idx == i);
                }
                if is_controlled(more, i) && i != at {
                    let j = choose|j: int| 0 <= j < more.len() && (#[trigger] more[j]).axis_idx == i;
                    assert(done[j].axis_idx == i);
                }
            }
        }
        k += 1;
    }
    assert(control_axes@.take(k as int) =~= control_axes@);
}

/// What the bindings of a step show at the given positions.
pub open spec fn shown_at(b: Seq<(String, Value)>, at: Seq<usize>) -> Seq<Seq<char>> {
    at.map_values(|i: usize| value::display_of(b[i as int].1))
}

/// The cell of a step: what it shows on the coordinate axes.
pub open spec fn cell_key(step: EvalStep, at: Seq<usize>) -> Seq<char> {
    text::joined(shown_at(step.bindings@, at), "\u{1f}"@)
}

fn cell_key_of(step: &EvalStep, at: &Vec<usize>) -> (r: String)
    requires
        forall|k: int| 0 <= k < at@.len() ==> #[trigger] at@[k] < step.bindings@.len(),
    ensures
        r@ == cell_key(*step, at@),
{
    let mut parts: Vec<String> = Vec::new();
    let mut i: usize = 0;
    while i < at.len()
        invariant
            i <= at@.len(),
            forall|k: int| 0 <= k < at@.len() ==> #[trigger] at@[k] < step.bindings@.len(),
            parts@.len() == i,
            forall|k: int|
                0 <= k < i ==> #[trigger] parts@[k]@ == value::display_of(
                    step.bindings@[at@[k] as int].1,
                ),
        decreases at@.len() - i,
    {
        assert(at@[i as int] < step.bindings@.len());
        parts.push(step.bindings[at[i]].1.to_display_string());
        i += 1;
    }
    assert(text::views(parts@) =~= shown_at(step.bindings@, at@));
    join_texts(&parts, "\u{1f}")
}

/// The step is the first of its cell.
pub open spec fn opens_cell(steps: Seq<EvalStep>, at: Seq<usize>, i: int) -> bool {
    forall|k: int| 0 <= k < i ==> cell_key(#[trigger] steps[k], at) != cell_key(steps[i], at)
}

/// The steps below `n` that are the first of their cell, in order.
pub open spec fn cell_starts(steps: Seq<EvalStep>, at: Seq<usize>, n: int) -> Seq<int>
    decreases n,
{
    if n <= 0 {
        Seq::empty()
    } else if opens_cell(steps, at, n - 1) {
        cell_starts(steps, at, n - 1).push(n - 1)
    } else {
        cell_starts(steps, at, n - 1)
    }
}

/// One step per cell of the coordinate axes: the first that falls into it.
pub fn hybrid_cells(steps: &Vec<EvalStep>, at: &Vec<usize>) -> (r: Vec<usize>)
    requires
        forall|i: int, k: int|
            #![trigger steps@[i], at@[k]]
            0 <= i < steps@.len() && 0 <= k < at@.len() ==> at@[k] < steps@[i].bindings@.len(),
    ensures
        as_ints(r@) == cell_starts(steps@, at@, steps@.len() as int),
{
    let mut seen: StrMap<usize> = StrMap::new();
    let mut r: Vec<usize> = Vec::new();
    let mut i: usize = 0;
    assert(as_ints(r@) =~= cell_starts(steps@, at@, 0));
    while i < steps.len()
        invariant
            i <= steps@.len(),
            forall|i: int, k: int|
                #![trigger steps@[i], at@[k]]
                0 <= i < steps@.len() && 0 <= k < at@.len() ==> at@[k] < steps@[i].bindings@.len(),
            seen.wf(),
            forall|j: int| 0 <= j < i ==> seen@.contains_key(cell_key(#[trigger] steps@[j], at@)),
            forall|key: Seq<char>| #[trigger]
                seen@.contains_key(key) ==> exists|j: int|
                    0 <= j < i && cell_key(#[trigger] steps@[j], at@) == key,
            as_ints(r@) == cell_starts(steps@, at@, i as int),
        decreases steps@.len() - i,
    {
        let ghost was = seen@;
        assert forall|k: int| 0 <= k < at@.len() implies #[trigger] at@[k]
            < steps@[i as int].bindings@.len() by {
            assert(steps@[i as int] == steps@[i as int]);
        }
        let key = cell_key_of(&steps[i], at);
        if !seen.contains(key.as_str()) {
            assert(opens_cell(steps@, at@, i as int));
            let ghost before = as_ints(r@);
            r.push(i);
            assert(as_ints(r@) =~= before.push(i as int));
            seen.insert(key, i);
            proof {
                assert forall|key: Seq<char>| #[trigger] seen@.contains_key(key) implies exists|
                    j: int,
                |
                    0 <= j < i + 1 && cell_key(#[trigger] steps@[j], at@) == key by {
                    if was.contains_key(key) {
                        let j = choose|j: int|
                            0 <= j < i && cell_key(#[trigger] steps@[j], at@) == key;
                        assert(cell_key(steps@[j], at@) == key);
                    } else {
                        assert(cell_key(steps@[i as int], at@) == key);
                    }
                }
            }
        } else {
            proof {
                let j = choose|j: int|
                    0 <= j < i && cell_key(#[trigger] steps@[j], at@) == key@;
                assert(!opens_cell(steps@, at@, i as int));
            }
        }
        i += 1;
    }
    r
}

/// A hybrid search comes to every cell, and to no cell twice: each step shares
/// its cell with exactly one of the steps at which cells are entered.
pub proof fn law_each_cell_once(steps: Seq<EvalStep>, at: Seq<usize>, n: int, i: int)
    requires
        0 <= i < n <= steps.len(),
    ensures
        exists|a: int|
            0 <= a < cell_starts(steps, at, n).len() && cell_key(
                steps[#[trigger] cell_starts(steps, at, n)[a]],
                at,
            ) == cell_key(steps[i], at),
        forall|a: int, b: int|
            0 <= a < b < cell_starts(steps, at, n).len() ==> cell_key(
                steps[#[trigger] cell_starts(steps, at, n)[a]],
                at,
            ) != cell_key(steps[#[trigger] cell_starts(steps, at, n)[b]], at),
{
    lemma_cell_starts(steps, at, n);
    lemma_cell_reached(steps, at, n, i);
}

proof fn lemma_cell_starts(steps: Seq<EvalStep>, at: Seq<usize>, n: int)
    requires
        0 <= n <= steps.len(),
    ensures
        forall|a: int|
            0 <= a < cell_starts(steps, at, n).len() ==> 0 <= #[trigger] cell_starts(
                steps,
                at,
                n,
            )[a] < n,
        forall|a: int, b: int|
            0 <= a < b < cell_starts(steps, at, n).len() ==> cell_key(
                steps[#[trigger] cell_starts(steps, at, n)[a]],
                at,
            ) != cell_key(steps[#[trigger] cell_starts(steps, at, n)[b]], at),
    decreases n,
{
    if n > 0 {
        lemma_cell_starts(steps, at, n - 1);
        let before = cell_starts(steps, at, n - 1);
        let now = cell_starts(steps, at, n);
        assert forall|a: int, b: int| 0 <= a < b < now.len() implies cell_key(
            steps[#[trigger] now[a]],
            at,
        ) != cell_key(steps[#[trigger] now[b]], at) by {
            assert(now[a] == before[a]);
            if b < before.len() {
                assert(now[b] == before[b]);
            } else {
                assert(now[b] == n - 1);
                assert(cell_key(steps[before[a]], at) != cell_key(steps[n - 1], at));
            }
        }
    }
}

proof fn lemma_cell_reached(steps: Seq<EvalStep>, at: Seq<usize>, n: int, i: int)
    requires
        0 <= i < n <= steps.len(),
    ensures
        exists|a: int|
            0 <= a < cell_starts(steps, at, n).len() && cell_key(
                steps[#[trigger] cell_starts(steps, at, n)[a]],
                at,
            ) == cell_key(steps[i], at),
    decreases n,
{
    let before = cell_starts(steps, at, n - 1);
    let now = cell_starts(steps, at, n);
    if i < n - 1 {
        lemma_cell_reached(steps, at, n - 1, i);
        let a = choose|a: int|
            0 <= a < before.len() && cell_key(steps[#[trigger] before[a]], at) == cell_key(
                steps[i],
                at,
            );
        assert(now[a] == before[a]);
    } else if opens_cell(steps, at, n - 1) {
        assert(now[now.len() - 1] == n - 1);
    } else {
        let k = choose|k: int|
            0 <= k < n - 1 && cell_key(#[trigger] steps[k], at) == cell_key(steps[n - 1], at);
        lemma_cell_reached(steps, at, n - 1, k);
        let a = choose|a: int|
            0 <= a < before.len() && cell_key(steps[#[trigger] before[a]], at) == cell_key(
                steps[k],
                at,
            );
        assert(now[a] == before[a]);
    }
}

/// The warning about a coordinate that was proposed and is not on the grid.
pub fn off_grid_warning(method: &str, phase_name: &str, coord: &Vec<AxisValue>) -> (r: String)
    ensures
        r@ == "optimizer '"@ + method@ + "' on '"@ + phase_name@ + "': coordinate ["@ + key_of(
            coord@,
        ) + "] is not in the enumerable grid — skipping"@,
{
    cat7(
        "optimizer '",
        method,
        "' on '",
        phase_name,
        "': coordinate [",
        coord_key(coord).as_str(),
        "] is not in the enumerable grid — skipping",
    )
}

/// The words for a search that mixes what cannot be mixed.
pub fn hybrid_needs_enumeration(phase_name: &str) -> (r: String)
    ensures
        r@ == "phase '"@ + phase_name@
            + "': hybrid coordinate+control optimize requires enumerated coordinate axes (a continuous coordinate axis alongside a control axis is not yet supported)"@,
{
    cat3(
        "phase '",
        phase_name,
        "': hybrid coordinate+control optimize requires enumerated coordinate axes (a continuous coordinate axis alongside a control axis is not yet supported)",
    )
}

/// The words for a method that is not registered.
pub fn unknown_method(phase_name: &str, method: &str) -> (r: String)
    ensures
        r@ == "phase '"@ + phase_name@ + "': unknown optimizer method '"@ + method@ + "'"@,
{
    cat5("phase '", phase_name, "': unknown optimizer method '", method, "'")
}

/// What evaluating one coordinate gave.
pub enum Evaluation {
    /// The run failed.
    RunFault(String),
    /// The run gave no value of the objective.
    NoValue,
    /// A value; `better` says whether it is greater than all before it.
    Value { better: bool },
}

/// What happened.
pub enum SearchEvent {
    /// How many coordinates the source proposes next; none when it is done.
    Batch(Option<usize>),
    /// Whether the coordinate is on the grid.
    Feasible(bool),
    Evaluated(Evaluation),
}

/// What to do next, with the place of the coordinate in its batch.
pub enum SearchAction {
    Pull,
    Materialize(usize),
    Run(usize),
    Finish(Result<(), String>),
}

#[derive(Debug, Clone, Copy, PartialEq, Eq, Structural)]
pub enum SearchStage {
    Pulling,
    Placing,
    Running,
    Done,
}

/// A coordinate search in the course of running.
pub struct Search {
    phase_name: String,
    objective: String,
    max_evals: usize,
    evals: usize,
    batch: usize,
    at: usize,
    /// How many evaluations had been made when the best was found.
    best: Option<usize>,
    stage: SearchStage,
}

pub struct SearchModel {
    pub phase_name: Seq<char>,
    pub objective: Seq<char>,
    pub max_evals: int,
    pub evals: int,
    pub batch: int,
    pub at: int,
    /// The number of the evaluation that gave the best value.
    pub best: Option<int>,
    pub stage: SearchStage,
}

pub enum SearchActionModel {
    Pull,
    Materialize(int),
    Run(int),
    Finish(Option<Seq<char>>),
}

pub open spec fn search_action(a: SearchAction) -> SearchActionModel {
    match a {
        SearchAction::Pull => SearchActionModel::Pull,
        SearchAction::Materialize(i) => SearchActionModel::Materialize(i as int),
        SearchAction::Run(i) => SearchActionModel::Run(i as int),
        SearchAction::Finish(Ok(_)) => SearchActionModel::Finish(None),
        SearchAction::Finish(Err(e)) => SearchActionModel::Finish(Some(e@)),
    }
}

pub open spec fn search_expects(stage: SearchStage, e: SearchEvent) -> bool {
    match stage {
        SearchStage::Pulling => e is Batch,
        SearchStage::Placing => e is Feasible,
        SearchStage::Running => e is Evaluated,
        SearchStage::Done => false,
    }
}

/// Turns to the coordinate at `m.at`: the next batch when the batch is through,
/// the end when the budget is.
pub open spec fn search_turn(m: SearchModel) -> (SearchModel, SearchActionModel) {
    if m.at >= m.batch {
        (SearchModel { stage: SearchStage::Pulling, ..m }, SearchActionModel::Pull)
    } else if m.evals >= m.max_evals {
        (SearchModel { stage: SearchStage::Done, ..m }, SearchActionModel::Finish(None))
    } else {
        (SearchModel { stage: SearchStage::Placing, ..m }, SearchActionModel::Materialize(m.at))
    }
}

/// The words for an objective without a value.
pub open spec fn no_value_text(phase_name: Seq<char>, objective: Seq<char>) -> Seq<char> {
    "phase '"@ + phase_name + "': optimize objective '"@ + objective
        + "' produced no value — it must be a numeric wire fully qualified on the phase node"@
}

/// One step of a search.
pub open spec fn search_step(m: SearchModel, e: SearchEvent) -> (SearchModel, SearchActionModel) {
    match e {
        SearchEvent::Batch(None) => (
            SearchModel { stage: SearchStage::Done, ..m },
            SearchActionModel::Finish(None),
        ),
        SearchEvent::Batch(Some(n)) => search_turn(SearchModel { batch: n as int, at: 0, ..m }),
        SearchEvent::Feasible(false) => search_turn(SearchModel { at: m.at + 1, ..m }),
        SearchEvent::Feasible(true) => (
            SearchModel { stage: SearchStage::Running, ..m },
            SearchActionModel::Run(m.at),
        ),
        SearchEvent::Evaluated(Evaluation::RunFault(why)) => (
            SearchModel { stage: SearchStage::Done, ..m },
            SearchActionModel::Finish(Some(why@)),
        ),
        SearchEvent::Evaluated(Evaluation::NoValue) => (
            SearchModel { evals: m.evals + 1, stage: SearchStage::Done, ..m },
            SearchActionModel::Finish(Some(no_value_text(m.phase_name, m.objective))),
        ),
        SearchEvent::Evaluated(Evaluation::Value { better }) => search_turn(
            SearchModel {
                evals: m.evals + 1,
                at: m.at + 1,
                best: if better {
                    Some(m.evals + 1)
                } else {
                    m.best
                },
                ..m
            },
        ),
    }
}

impl View for Search {
    type V = SearchModel;

    closed spec fn view(&self) -> SearchModel {
        SearchModel {
            phase_name: self.phase_name@,
            objective: self.objective@,
            max_evals: self.max_evals as int,
            evals: self.evals as int,
            batch: self.batch as int,
            at: self.at as int,
            best: match self.best {
                Some(n) => Some(n as int),
                None => None,
            },
            stage: self.stage,
        }
    }
}

/// The budget is kept, and a coordinate that is being placed or run belongs to
/// its batch.
pub open spec fn search_ok(m: SearchModel) -> bool {
    &&& 0 <= m.evals <= m.max_evals
    &&& m.stage == SearchStage::Placing || m.stage == SearchStage::Running ==> m.at < m.batch
        && m.evals < m.max_evals
    &&& m.best matches Some(n) ==> 0 < n <= m.evals
}

pub open spec fn fresh_search(phase_name: Seq<char>, b: OptimizeBlock) -> SearchModel {
    SearchModel {
        phase_name,
        objective: b.objective@,
        max_evals: b.max_evals as int,
        evals: 0,
        batch: 0,
        at: 0,
        best: None,
        stage: SearchStage::Pulling,
    }
}

impl Search {
    pub open spec fn wf(self) -> bool {
        search_ok(self@)
    }

    pub fn new(phase_name: &str, b: &OptimizeBlock) -> (r: Self)
        ensures
            r.wf(),
            r@ == fresh_search(phase_name@, *b),
    {
        Search {
            phase_name: phase_name.to_owned(),
            objective: b.objective.clone(),
            max_evals: b.max_evals,
            evals: 0,
            batch: 0,
            at: 0,
            best: None,
            stage: SearchStage::Pulling,
        }
    }

    /// How many coordinates were evaluated.
    pub fn evals(&self) -> (r: usize)
        ensures
            r == self@.evals,
    {
        self.evals
    }

    /// Which evaluation gave the best value, counted from one.
    pub fn best(&self) -> (r: Option<usize>)
        ensures
            r is Some <==> self@.best is Some,
            r matches Some(n) ==> self@.best == Some(n as int),
    {
        self.best
    }

    fn turn(&mut self) -> (r: SearchAction)
        requires
            old(self)@.evals <= old(self)@.max_evals,
            old(self)@.best matches Some(n) ==> 0 < n <= old(self)@.evals,
        ensures
            search_ok(final(self)@),
            (final(self)@, search_action(r)) == search_turn(old(self)@),
    {
        if self.at >= self.batch {
            self.stage = SearchStage::Pulling;
            SearchAction::Pull
        } else if self.evals >= self.max_evals {
            self.stage = SearchStage::Done;
            SearchAction::Finish(Ok(()))
        } else {
            self.stage = SearchStage::Placing;
            SearchAction::Materialize(self.at)
        }
    }

    /// Takes what happened and says what to do next.
    pub fn advance(&mut self, event: SearchEvent) -> (r: SearchAction)
        requires
            old(self).wf(),
            search_expects(old(self)@.stage, event),
        ensures
            final(self).wf(),
            (final(self)@, search_action(r)) == search_step(old(self)@, event),
    {
        match event {
            SearchEvent::Batch(None) => {
                self.stage = SearchStage::Done;
                SearchAction::Finish(Ok(()))
            },
            SearchEvent::Batch(Some(n)) => {
                self.batch = n;
                self.at = 0;
                self.turn()
            },
            SearchEvent::Feasible(feasible) => {
                if feasible {
                    self.stage = SearchStage::Running;
                    SearchAction::Run(self.at)
                } else {
                    self.at += 1;
                    self.turn()
                }
            },
            SearchEvent::Evaluated(Evaluation::RunFault(why)) => {
                self.stage = SearchStage::Done;
                SearchAction::Finish(Err(why))
            },
            SearchEvent::Evaluated(Evaluation::NoValue) => {
                self.evals += 1;
                self.stage = SearchStage::Done;
                SearchAction::Finish(
                    Err(
                        cat5(
                            "phase '",
                            self.phase_name.as_str(),
                            "': optimize objective '",
                            self.objective.as_str(),
                            "' produced no value — it must be a numeric wire fully qualified on the phase node",
                        ),
                    ),
                )
            },
            SearchEvent::Evaluated(Evaluation::Value { better }) => {
                self.evals += 1;
                self.at += 1;
                if better {
                    self.best = Some(self.evals);
                }
                self.turn()
            },
        }
    }
}

/// A search never evaluates more coordinates than its budget allows: it runs a
/// coordinate only while the budget has room.
pub proof fn law_search_keeps_budget(m: SearchModel, e: SearchEvent)
    requires
        search_ok(m),
        search_expects(m.stage, e),
    ensures
        search_ok(search_step(m, e).0),
        search_step(m, e).1 is Run ==> m.evals < m.max_evals,
{
}

/// The state and the actions after a run of events.
pub open spec fn search_run(m: SearchModel, events: Seq<SearchEvent>) -> (
    SearchModel,
    Seq<SearchActionModel>,
)
    decreases events.len(),
{
    if events.len() == 0 {
        (m, Seq::empty())
    } else {
        let before = search_run(m, events.drop_last());
        let next = search_step(before.0, events.last());
        (next.0, before.1.push(next.1))
    }
}

pub open spec fn search_run_expected(m: SearchModel, events: Seq<SearchEvent>) -> bool
    decreases events.len(),
{
    events.len() == 0 || (search_run_expected(m, events.drop_last()) && search_expects(
        search_run(m, events.drop_last()).0.stage,
        events.last(),
    ))
}

/// Of each evaluation that gave a value, in order, whether it was better than all before.
pub open spec fn improvements(events: Seq<SearchEvent>) -> Seq<bool>
    decreases events.len(),
{
    if events.len() == 0 {
        Seq::empty()
    } else {
        match events.last() {
            SearchEvent::Evaluated(Evaluation::Value { better }) => improvements(
                events.drop_last(),
            ).push(better),
            _ => improvements(events.drop_last()),
        }
    }
}

/// How many evaluations ran to their end.
pub open spec fn evaluations(events: Seq<SearchEvent>) -> int
    decreases events.len(),
{
    if events.len() == 0 {
        0
    } else {
        evaluations(events.drop_last()) + (match events.last() {
            SearchEvent::Evaluated(Evaluation::Value { .. }) => 1int,
            SearchEvent::Evaluated(Evaluation::NoValue) => 1,
            _ => 0,
        })
    }
}

/// How many coordinates the last batch has.
pub open spec fn last_batch(events: Seq<SearchEvent>) -> int
    decreases events.len(),
{
    if events.len() == 0 {
        0
    } else {
        match events.last() {
            SearchEvent::Batch(Some(n)) => n as int,
            _ => last_batch(events.drop_last()),
        }
    }
}

/// How many coordinates of the last batch are through: off the grid, or with a value.
pub open spec fn settled(events: Seq<SearchEvent>) -> int
    decreases events.len(),
{
    if events.len() == 0 {
        0
    } else {
        match events.last() {
            SearchEvent::Batch(Some(_)) => 0,
            SearchEvent::Feasible(false) => settled(events.drop_last()) + 1,
            SearchEvent::Evaluated(Evaluation::Value { .. }) => settled(events.drop_last()) + 1,
            _ => settled(events.drop_last()),
        }
    }
}

/// The event tells what came of the action.
pub open spec fn search_answers(last: SearchActionModel, e: SearchEvent) -> bool {
    match last {
        SearchActionModel::Pull => e is Batch,
        SearchActionModel::Materialize(_) => e is Feasible,
        SearchActionModel::Run(_) => e is Evaluated,
        SearchActionModel::Finish(_) => false,
    }
}

/// `best` is the number, counted from one, of the last improvement; none where nothing
/// improved.
pub open spec fn is_last_improvement(flags: Seq<bool>, best: Option<int>) -> bool {
    match best {
        None => !flags.contains(true),
        Some(n) => {
            &&& 1 <= n <= flags.len()
            &&& flags[n - 1]
            &&& forall|k: int| n <= k < flags.len() ==> !#[trigger] flags[k]
        },
    }
}

proof fn lemma_search_history(phase_name: Seq<char>, b: OptimizeBlock, events: Seq<SearchEvent>)
    requires
        search_run_expected(fresh_search(phase_name, b), events),
    ensures
        ({
            let (m, acts) = search_run(fresh_search(phase_name, b), events);
            &&& acts.len() == events.len()
            &&& m.phase_name == phase_name
            &&& m.objective == b.objective@
            &&& m.max_evals == b.max_evals
            &&& search_ok(m)
            &&& m.evals == evaluations(events)
            &&& m.batch == last_batch(events)
            &&& m.at == settled(events)
            &&& is_last_improvement(improvements(events), m.best)
            &&& m.stage != SearchStage::Done ==> improvements(events).len() == m.evals
            &&& events.len() == 0 ==> m.stage == SearchStage::Pulling
            &&& events.len() > 0 ==> match acts.last() {
                SearchActionModel::Pull => m.stage == SearchStage::Pulling,
                SearchActionModel::Materialize(i) => m.stage == SearchStage::Placing && i == m.at,
                SearchActionModel::Run(i) => m.stage == SearchStage::Running && i == m.at,
                SearchActionModel::Finish(_) => m.stage == SearchStage::Done,
            }
        }),
    decreases events.len(),
{
    if events.len() > 0 {
        let less = events.drop_last();
        lemma_search_history(phase_name, b, less);
        let m = search_run(fresh_search(phase_name, b), less).0;
        let n = search_run(fresh_search(phase_name, b), events).0;
        let before = improvements(less);
        let after = improvements(events);
        if let SearchEvent::Evaluated(Evaluation::Value { better }) = events.last() {
            assert(after == before.push(better));
            assert(after[before.len() as int] == better);
            if !better && m.best is None {
                assert forall|k: int| 0 <= k < after.len() implies !#[trigger] after[k] by {
                    if k < before.len() {
                        assert(before.contains(before[k]));
                    }
                }
            }
        }
    } else {
        assert(!improvements(events).contains(true));
    }
}

/// The best evaluation is the last that improved on all before it, counted from one among
/// those that gave a value; there is none while nothing improved.
pub proof fn law_best_is_last_improvement(
    phase_name: Seq<char>,
    b: OptimizeBlock,
    events: Seq<SearchEvent>,
)
    requires
        search_run_expected(fresh_search(phase_name, b), events),
    ensures
        is_last_improvement(
            improvements(events),
            search_run(fresh_search(phase_name, b), events).0.best,
        ),
{
    lemma_search_history(phase_name, b, events);
}

/// Every evaluation that ran to its end is counted, and never more than the budget allows.
pub proof fn law_evaluations_are_counted(
    phase_name: Seq<char>,
    b: OptimizeBlock,
    events: Seq<SearchEvent>,
)
    requires
        search_run_expected(fresh_search(phase_name, b), events),
    ensures
        search_run(fresh_search(phase_name, b), events).0.evals == evaluations(events),
        evaluations(events) <= b.max_evals,
{
    lemma_search_history(phase_name, b, events);
}

/// What a search waits for is told by what it asked last; it starts by waiting for a
/// batch, and after its end it waits for nothing.
pub proof fn law_search_awaits_what_it_asked(
    phase_name: Seq<char>,
    b: OptimizeBlock,
    events: Seq<SearchEvent>,
    e: SearchEvent,
)
    requires
        search_run_expected(fresh_search(phase_name, b), events),
    ensures
        ({
            let (m, acts) = search_run(fresh_search(phase_name, b), events);
            search_expects(m.stage, e) <==> if events.len() == 0 {
                e is Batch
            } else {
                search_answers(acts.last(), e)
            }
        }),
{
    lemma_search_history(phase_name, b, events);
}

/// What a search asks for next follows from what was reported so far: each coordinate of
/// a batch in turn, run where it is on the grid, while the budget lasts; then the next
/// batch. A run that fails or gives no value ends it.
pub proof fn law_search_reacts_to_history(
    phase_name: Seq<char>,
    b: OptimizeBlock,
    events: Seq<SearchEvent>,
    e: SearchEvent,
)
    requires
        search_run_expected(fresh_search(phase_name, b), events),
        search_expects(search_run(fresh_search(phase_name, b), events).0.stage, e),
    ensures
        ({
            let a = search_step(search_run(fresh_search(phase_name, b), events).0, e).1;
            let now = events.push(e);
            let next = if settled(now) >= last_batch(now) {
                SearchActionModel::Pull
            } else if evaluations(now) >= b.max_evals {
                SearchActionModel::Finish(None)
            } else {
                SearchActionModel::Materialize(settled(now))
            };
            match e {
                SearchEvent::Batch(None) => a == SearchActionModel::Finish(None),
                SearchEvent::Batch(Some(_)) => a == next,
                SearchEvent::Feasible(false) => a == next,
                SearchEvent::Feasible(true) => a == SearchActionModel::Run(settled(events)),
                SearchEvent::Evaluated(Evaluation::Value { .. }) => a == next,
                SearchEvent::Evaluated(Evaluation::RunFault(why)) => a
                    == SearchActionModel::Finish(Some(why@)),
                SearchEvent::Evaluated(Evaluation::NoValue) => a == SearchActionModel::Finish(
                    Some(
                        "phase '"@ + phase_name + "': optimize objective '"@ + b.objective@
                            + "' produced no value — it must be a numeric wire fully qualified on the phase node"@,
                    ),
                ),
            }
        }),
{
    lemma_search_history(phase_name, b, events);
    let now = events.push(e);
    assert(now.drop_last() =~= events);
    lemma_search_history(phase_name, b, now);
}

/// The outcome of a search.
pub fn search_outcome(result: Result<(), String>) -> (r: Outcome)
    ensures
        match result {
            Ok(_) => r.bare(Disposition::Completed, Validity::Succeeded),
            Err(e) => {
                &&& r.disposition == Disposition::Interrupted
                &&& r.validity == Validity::Failed
                &&& phase_outcome::text_of(r.reason) == Some(e@)
                &&& r.payload is None
            },
        },
{
    match result {
        Ok(_) => Outcome::completed(),
        Err(e) => Outcome::failed().with_reason(e.as_str()),
    }
}

/// What a failed evaluation run is reported by.
pub fn eval_result(o: &Outcome) -> (r: Result<(), String>)
    ensures
        r is Err <==> o.failing(),
        r matches Err(e) ==> e@ == (match o.reason {
            Some(s) => s@,
            None => Seq::<char>::empty(),
        }),
{
    if o.is_failure() {
        match &o.reason {
            Some(s) => Err(s.clone()),
            None => Err(String::new()),
        }
    } else {
        Ok(())
    }
}

/// The best of the cells of a hybrid search, as it is shown.
pub struct HybridBest {
    pub shown: String,
    pub evals: usize,
}

/// A cell as it is shown: its coordinates, then the setting of its controls.
pub open spec fn cell_text(b: Seq<(String, Value)>, at: Seq<usize>, setting: Seq<AxisValue>) -> Seq<
    char,
> {
    text::joined(
        at.map_values(|i: usize| coords::binding_text(b[i as int])),
        ", "@,
    ) + "; "@ + text::joined(axis_texts(setting), ", "@)
}

impl HybridBest {
    pub fn new() -> (r: Self)
        ensures
            r.shown@ == "<none>"@,
            r.evals == 0,
    {
        HybridBest { shown: "<none>".to_owned(), evals: 0 }
    }

    /// Notes what the search within one cell found. `setting` is its best
    /// setting where that is better than all before it.
    pub fn observe(
        &mut self,
        step: &EvalStep,
        at: &Vec<usize>,
        evals: usize,
        setting: Option<&Vec<AxisValue>>,
    )
        requires
            old(self).evals + evals <= usize::MAX,
            forall|k: int| 0 <= k < at@.len() ==> #[trigger] at@[k] < step.bindings@.len(),
        ensures
            final(self).evals == old(self).evals + evals,
            final(self).shown@ == (match setting {
                Some(s) => cell_text(step.bindings@, at@, s@),
                None => old(self).shown@,
            }),
    {
        self.evals = self.evals + evals;
        if let Some(s) = setting {
            let mut parts: Vec<String> = Vec::new();
            let mut i: usize = 0;
            while i < at.len()
                invariant
                    i <= at@.len(),
                    forall|k: int| 0 <= k < at@.len() ==> #[trigger] at@[k] < step.bindings@.len(),
                    parts@.len() == i,
                    forall|k: int|
                        0 <= k < i ==> #[trigger] parts@[k]@ == coords::binding_text(
                            step.bindings@[at@[k] as int],
                        ),
                decreases at@.len() - i,
            {
                assert(at@[i as int] < step.bindings@.len());
                let b = &step.bindings[at[i]];
                parts.push(cat3(b.0.as_str(), "=", b.1.to_display_string().as_str()));
                i += 1;
            }
            assert(text::views(parts@) =~= at@.map_values(
                |i: usize| coords::binding_text(step.bindings@[i as int]),
            ));
            self.shown = cat3(
                join_texts(&parts, ", ").as_str(),
                "; ",
                coord_text(s).as_str(),
            );
        }
    }
}

/// Which parts of the closing line of a search differ by its shape.
pub enum SearchReport {
    Coordinate,
    Control,
    Hybrid(usize),
}

pub open spec fn report_shape(s: SearchReport) -> Seq<char> {
    match s {
        SearchReport::Coordinate => Seq::empty(),
        SearchReport::Control => " (control)"@,
        SearchReport::Hybrid(n) => " (hybrid "@ + text::decimal(n as nat)
            + " coordinate cells × control)"@,
    }
}

/// The closing line of a search. `best` and `value` are as shown.
pub fn report_line(
    b: &OptimizeBlock,
    phase_name: &str,
    shape: SearchReport,
    best: &str,
    value: &str,
    evals: usize,
) -> (r: String)
    ensures
        r@ == ("optimizer '"@ + b.method@ + "' on '"@ + phase_name@ + "'"@ + report_shape(shape)) + (
        ": best ["@ + best@ + "] → "@ + b.objective@ + "="@ + value@ + " after "@) + text::decimal(
            evals as nat,
        ) + " evals"@,
{
    let shown = match shape {
        SearchReport::Coordinate => String::new(),
        SearchReport::Control => " (control)".to_owned(),
        SearchReport::Hybrid(n) => cat3(
            " (hybrid ",
            u64_text(n as u64).as_str(),
            " coordinate cells × control)",
        ),
    };
    let head = text::cat6(
        "optimizer '",
        b.method.as_str(),
        "' on '",
        phase_name,
        "'",
        shown.as_str(),
    );
    let mid = cat7(": best [", best, "] → ", b.objective.as_str(), "=", value, " after ");
    text::cat4(head.as_str(), mid.as_str(), u64_text(evals as u64).as_str(), " evals")
}

/// A variable can be moved live exactly where it is an axis and stands for a control: by
/// its own name, the rate only of a phase that has one, or because the concurrency of the
/// phase is written with it.
pub proof fn law_servo_needs_axis_and_control(
    axes: Seq<Axis>,
    var: Seq<char>,
    concurrency: Option<Seq<char>>,
    has_rate: bool,
)
    ensures
        ({
            let is_axis = exists|k: int| 0 <= k < axes.len() && (#[trigger] axes[k]).name@ == var;
            let wired = concurrency matches Some(c) && text::has_part(c, "{"@ + var + "}"@);
            let moved = if var == "rate"@ {
                has_rate
            } else {
                var == "concurrency"@ || wired
            };
            &&& servo_fault(axes, var, concurrency, has_rate) is None <==> is_axis && moved
            &&& control_of(var, concurrency, has_rate) is Some <==> moved
            &&& moved && var == "rate"@ ==> control_of(var, concurrency, has_rate) == Some("rate"@)
            &&& moved && var != "rate"@ ==> control_of(var, concurrency, has_rate) == Some(
                "concurrency"@,
            )
        }),
{
    reveal_strlit("rate");
    reveal_strlit("concurrency");
    assert("rate"@.len() != "concurrency"@.len());
}

/// The values of an axis are those that occur, each once by what it shows, in the order in
/// which they occur first.
pub proof fn law_axis_has_each_value_once(v: Seq<AxisValue>)
    ensures
        forall|i: int| 0 <= i < v.len() ==> shows(distinct(v), axis_text(#[trigger] v[i])),
        forall|i: int| 0 <= i < distinct(v).len() ==> v.contains(#[trigger] distinct(v)[i]),
        forall|i: int, j: int|
            0 <= i < j < distinct(v).len() ==> axis_text(#[trigger] distinct(v)[i]) != axis_text(
                #[trigger] distinct(v)[j],
            ),
        v.len() > 0 ==> distinct(v).len() > 0 && distinct(v)[0] == v[0],
    decreases v.len(),
{
    if v.len() > 0 {
        let less = v.drop_last();
        law_axis_has_each_value_once(less);
        let before = distinct(less);
        let now = distinct(v);
        assert forall|i: int| 0 <= i < v.len() implies shows(now, axis_text(#[trigger] v[i])) by {
            if i < less.len() {
                assert(less[i] == v[i]);
                let k = choose|k: int|
                    0 <= k < before.len() && axis_text(#[trigger] before[k]) == axis_text(less[i]);
                assert(axis_text(now[k]) == axis_text(v[i]));
            } else if !shows(before, axis_text(v.last())) {
                assert(now[before.len() as int] == v.last());
            }
        }
        assert forall|i: int| 0 <= i < now.len() implies v.contains(#[trigger] now[i]) by {
            if i < before.len() {
                assert(now[i] == before[i]);
                let k = less.index_of(before[i]);
                assert(v[k] == now[i]);
            } else {
                assert(v[v.len() - 1] == now[i]);
            }
        }
        assert forall|i: int, j: int| 0 <= i < j < now.len() implies axis_text(#[trigger] now[i])
            != axis_text(#[trigger] now[j]) by {
            assert(now[i] == before[i]);
            if j < before.len() {
                assert(now[j] == before[j]);
            } else {
                assert(axis_text(before[i]) != axis_text(v.last()));
            }
        }
    }
}

/// An axis that was enumerated is a coordinate; it is stepped where all of its values are
/// numbers, and chosen from otherwise.
pub proof fn law_axis_is_stepped_iff_numeric(axis: Axis, steps: Seq<EvalStep>, a: int)
    requires
        is_axis_of(axis, steps, a),
    ensures
        axis.changeover == Changeover::Coordinate,
        axis.name@ == steps[0].bindings@[a].0@,
        axis.kind is Discrete <==> forall|i: int|
            0 <= i < distinct(column(steps, a)).len() ==> (#[trigger] distinct(column(steps, a))[i]) is Num,
        !(axis.kind is Discrete) ==> axis.kind is Categorical,
        axis.kind matches AxisKind::Discrete { detents } ==> detents@ == distinct(column(steps, a)),
        axis.kind matches AxisKind::Categorical { options } ==> options@ == distinct(
            column(steps, a),
        ),
{
}

/// A value reaches a phase as what it is: a number as a number, a truth value as such, and
/// a label as a text. It shows what it showed before.
pub proof fn law_axis_value_keeps_its_kind(v: AxisValue)
    ensures
        v is Num <==> wire_value(v) is F64,
        v is Bool <==> wire_value(v) is Bool,
        v is Label <==> wire_value(v) is Str,
        value::display_of(wire_value(v)) == axis_text(v),
{
}

/// The axes that are moved live are marked so, and nothing else of the space changes.
pub proof fn law_controls_are_marked(before: Seq<Axis>, controls: Seq<ControlAxis>, after: Seq<Axis>, i: int)
    requires
        is_stamped(before, controls, after),
        0 <= i < before.len(),
    ensures
        after.len() == before.len(),
        after[i].name == before[i].name,
        after[i].kind == before[i].kind,
        (exists|k: int| 0 <= k < controls.len() && (#[trigger] controls[k]).axis_idx == i)
            ==> after[i].changeover == Changeover::Control,
        (forall|k: int| 0 <= k < controls.len() ==> (#[trigger] controls[k]).axis_idx != i)
            ==> after[i].changeover == before[i].changeover,
{
}

/// The axes that are not moved live keep their order.
pub proof fn law_coordinate_axes_are_in_order(controls: Seq<ControlAxis>, n: int)
    requires
        0 <= n,
    ensures
        forall|a: int, b: int|
            0 <= a < b < coordinate_axes(controls, n).len() ==> #[trigger] coordinate_axes(
                controls,
                n,
            )[a] < #[trigger] coordinate_axes(controls, n)[b],
        forall|a: int|
            0 <= a < coordinate_axes(controls, n).len() ==> 0 <= #[trigger] coordinate_axes(
                controls,
                n,
            )[a] < n,
    decreases n,
{
    if n > 0 {
        law_coordinate_axes_are_in_order(controls, n - 1);
        let before = coordinate_axes(controls, n - 1);
        let now = coordinate_axes(controls, n);
        assert forall|a: int| 0 <= a < now.len() implies 0 <= #[trigger] now[a] < n by {
            if a < before.len() {
                assert(now[a] == before[a]);
            }
        }
        assert forall|a: int, b: int| 0 <= a < b < now.len() implies #[trigger] now[a]
            < #[trigger] now[b] by {
            assert(now[a] == before[a]);
            if b < before.len() {
                assert(now[b] == before[b]);
            }
        }
    }
}

/// A cell is entered with the first step that belongs to it, and cells are entered in the
/// order of those steps.
pub proof fn law_cell_is_entered_first(steps: Seq<EvalStep>, at: Seq<usize>, n: int)
    requires
        0 <= n <= steps.len(),
    ensures
        forall|a: int|
            0 <= a < cell_starts(steps, at, n).len() ==> {
                let s = #[trigger] cell_starts(steps, at, n)[a];
                0 <= s < n && forall|k: int|
                    0 <= k < s ==> cell_key(#[trigger] steps[k], at) != cell_key(steps[s], at)
            },
        forall|a: int, b: int|
            0 <= a < b < cell_starts(steps, at, n).len() ==> #[trigger] cell_starts(steps, at, n)[a]
                < #[trigger] cell_starts(steps, at, n)[b],
    decreases n,
{
    if n > 0 {
        law_cell_is_entered_first(steps, at, n - 1);
        let before = cell_starts(steps, at, n - 1);
        let now = cell_starts(steps, at, n);
        assert forall|a: int| 0 <= a < now.len() implies {
            let s = #[trigger] now[a];
            0 <= s < n && forall|k: int|
                0 <= k < s ==> cell_key(#[trigger] steps[k], at) != cell_key(steps[s], at)
        } by {
            if a < before.len() {
                assert(now[a] == before[a]);
            }
        }
        assert forall|a: int, b: int| 0 <= a < b < now.len() implies #[trigger] now[a]
            < #[trigger] now[b] by {
            assert(now[a] == before[a]);
            if b < before.len() {
                assert(now[b] == before[b]);
            }
        }
    }
}

/// Two steps belong to one cell where their values on the coordinate axes show alike; what
/// they bind elsewhere does not count.
pub proof fn law_cell_is_told_by_its_coordinates(a: EvalStep, b: EvalStep, at: Seq<usize>)
    requires
        forall|k: int|
            0 <= k < at.len() ==> value::display_of(a.bindings@[(#[trigger] at[k]) as int].1)
                == value::display_of(b.bindings@[at[k] as int].1),
    ensures
        cell_key(a, at) == cell_key(b, at),
{
    assert(shown_at(a.bindings@, at) =~= shown_at(b.bindings@, at));
}

/// A coordinate is told by what its values show, in order.
pub proof fn law_coordinate_is_told_by_its_values(a: Seq<AxisValue>, b: Seq<AxisValue>)
    requires
        a.len() == b.len(),
    ensures
        (forall|i: int| 0 <= i < a.len() ==> axis_text(#[trigger] a[i]) == axis_text(b[i]))
            ==> key_of(a) == key_of(b),
        a.len() == 1 && axis_text(a[0]) != axis_text(b[0]) ==> key_of(a) != key_of(b),
{
    if forall|i: int| 0 <= i < a.len() ==> axis_text(#[trigger] a[i]) == axis_text(b[i]) {
        assert(axis_texts(a) =~= axis_texts(b));
    }
    if a.len() == 1 {
        assert(axis_texts(a)[0] == axis_text(a[0]));
        assert(axis_texts(b)[0] == axis_text(b[0]));
    }
}

/// A variable is the first axis of its name.
pub proof fn law_axis_is_first_of_its_name(axes: Seq<Axis>, name: Seq<char>, i: int, j: int)
    requires
        axis_named(axes, name, i),
        0 <= j < axes.len(),
        axes[j].name@ == name,
    ensures
        0 <= i <= j,
        axes[i].name@ == name,
{
}

} // verus!
