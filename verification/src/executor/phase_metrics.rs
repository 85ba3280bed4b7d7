//! The metrics that a phase records when it ends.

use vstd::prelude::*;

use crate::executor::context;
use crate::model::{MetricKind, MetricSpec};
use crate::phase_outcome;
use crate::strmap::StrMap;
use crate::text::{cat3, cat4};
use crate::value::{Float, Value};

verus! {

/// The value of a metric before it is formatted.
#[derive(Debug, Clone, PartialEq)]
pub enum Measured {
    F64(Float),
    /// A whole number; `false` and `true` count as zero and one.
    Whole(u64),
}

/// The number that a wire value is, where it is one.
pub open spec fn number_of(v: Value) -> Option<Measured> {
    match v {
        Value::F64(f) => Some(Measured::F64(f)),
        Value::U64(n) => Some(Measured::Whole(n)),
        Value::Bool(b) => Some(
            Measured::Whole(
                if b {
                    1
                } else {
                    0
                },
            ),
        ),
        _ => None,
    }
}

/// What was read for one metric: its value, and the value of each of the
/// dimensions that it is placed in.
pub struct MetricRead {
    pub value: Value,
    pub cell: Vec<Value>,
}

/// A metric to be recorded.
pub struct Recording {
    pub name: String,
    /// The family of the instrument: as declared, else the name.
    pub family: String,
    pub kind: MetricKind,
    pub unit: Option<String>,
    pub format: Option<String>,
    pub value: Measured,
    /// The cell that the metric is placed in, where it has dimensions.
    pub cell: Option<Vec<(String, String)>>,
}

/// Every dimension has a string for a value.
pub open spec fn placeable(cell: Seq<Value>) -> bool {
    forall|i: int| 0 <= i < cell.len() ==> #[trigger] cell[i] is Str
}

/// A metric is recorded when its value is a number and each of its dimensions
/// has a string for a value.
pub open spec fn is_recorded(read: MetricRead) -> bool {
    number_of(read.value) is Some && placeable(read.cell@)
}

/// The cell that a metric is placed in.
pub open spec fn cell_of(dims: Seq<String>, values: Seq<Value>) -> Seq<(Seq<char>, Seq<char>)> {
    Seq::new(dims.len(), |i: int| (dims[i]@, values[i]->Str_0@))
}

pub open spec fn is_recording_of(
    r: Recording,
    name: Seq<char>,
    spec: MetricSpec,
    read: MetricRead,
) -> bool {
    &&& r.name@ == name
    &&& r.family@ == (match spec.family {
        Some(f) => f@,
        None => name,
    })
    &&& r.kind == (match spec.kind {
        Some(k) => k,
        None => MetricKind::Gauge,
    })
    &&& phase_outcome::text_of(r.unit) == phase_outcome::text_of(spec.unit)
    &&& phase_outcome::text_of(r.format) == phase_outcome::text_of(spec.format)
    &&& match (r.value, number_of(read.value)->0) {
        (Measured::F64(a), Measured::F64(b)) => a.bits == b.bits && a.text@ == b.text@,
        (Measured::Whole(a), Measured::Whole(b)) => a == b,
        _ => false,
    }
    &&& match r.cell {
        None => spec.cell@.len() == 0,
        Some(c) => spec.cell@.len() > 0 && context::label_views(c@) == cell_of(
            spec.cell@,
            read.cell@,
        ),
    }
}

/// What was read belongs to the metric.
pub open spec fn matches_spec(spec: MetricSpec, read: MetricRead) -> bool {
    read.cell@.len() == spec.cell@.len()
}

/// The places below `n` of the metrics that are recorded, in order.
pub open spec fn recorded_places(reads: Seq<MetricRead>, n: int) -> Seq<int>
    decreases n,
{
    if n <= 0 {
        Seq::empty()
    } else if is_recorded(reads[n - 1]) {
        recorded_places(reads, n - 1).push(n - 1)
    } else {
        recorded_places(reads, n - 1)
    }
}

/// The number that a wire value is, where it is one. Metrics and the objectives
/// of searches are read by it.
pub fn measure(v: &Value) -> (r: Option<Measured>)
    ensures
        r is Some <==> number_of(*v) is Some,
        r is Some ==> match (r->0, number_of(*v)->0) {
            (Measured::F64(a), Measured::F64(b)) => a.bits == b.bits && a.text@ == b.text@,
            (Measured::Whole(a), Measured::Whole(b)) => a == b,
            _ => false,
        },
{
    match v {
        Value::F64(f) => Some(Measured::F64(Float { bits: f.bits, text: f.text.clone() })),
        Value::U64(n) => Some(Measured::Whole(*n)),
        Value::Bool(b) => Some(
            Measured::Whole(
                if *b {
                    1
                } else {
                    0
                },
            ),
        ),
        _ => None,
    }
}

fn place(dims: &Vec<String>, values: &Vec<Value>) -> (r: Option<Vec<(String, String)>>)
    requires
        dims@.len() == values@.len(),
    ensures
        r is Some <==> placeable(values@),
        r matches Some(c) ==> context::label_views(c@) == cell_of(dims@, values@),
{
    let mut cell: Vec<(String, String)> = Vec::new();
    let mut i: usize = 0;
    while i < dims.len()
        invariant
            i <= dims@.len(),
            dims@.len() == values@.len(),
            cell@.len() == i,
            forall|k: int| 0 <= k < i ==> #[trigger] values@[k] is Str,
            forall|k: int|
                0 <= k < i ==> (#[trigger] cell@[k]).0@ == dims@[k]@ && cell@[k].1@
                    == values@[k]->Str_0@,
        decreases dims@.len() - i,
    {
        match &values[i] {
            Value::Str(s) => {
                cell.push((dims[i].clone(), s.clone()));
            },
            _ => {
                assert(!(values@[i as int] is Str));
                return None;
            },
        }
        i += 1;
    }
    assert(context::label_views(cell@) =~= cell_of(dims@, values@));
    Some(cell)
}

fn copied(t: &Option<String>) -> (r: Option<String>)
    ensures
        phase_outcome::text_of(r) == phase_outcome::text_of(*t),
{
    match t {
        Some(s) => Some(s.clone()),
        None => None,
    }
}

fn record_one(name: &String, spec: &MetricSpec, read: &MetricRead) -> (r: Option<Recording>)
    requires
        matches_spec(*spec, *read),
    ensures
        r is Some <==> is_recorded(*read),
        r matches Some(rec) ==> is_recording_of(rec, name@, *spec, *read),
{
    let value = match measure(&read.value) {
        Some(m) => m,
        None => {
            return None;
        },
    };
    let placed = match place(&spec.cell, &read.cell) {
        Some(c) => c,
        None => {
            return None;
        },
    };
    let cell = if spec.cell.len() == 0 {
        None
    } else {
        Some(placed)
    };
    Some(
        Recording {
            name: name.clone(),
            family: match &spec.family {
                Some(f) => f.clone(),
                None => name.clone(),
            },
            kind: match spec.kind {
                Some(k) => k,
                None => MetricKind::Gauge,
            },
            unit: copied(&spec.unit),
            format: copied(&spec.format),
            value,
            cell,
        },
    )
}

/// The metrics that a phase records, in name order. A metric that is no number,
/// or that cannot be placed, is left out.
pub fn emit_phase_metrics(metrics: &StrMap<MetricSpec>, reads: &Vec<MetricRead>) -> (r: Vec<
    Recording,
>)
    requires
        metrics.wf(),
        reads@.len() == metrics.pairs().len(),
        forall|i: int|
            0 <= i < reads@.len() ==> matches_spec(metrics.pairs()[i].1, #[trigger] reads@[i]),
    ensures
        ({
            let places = recorded_places(reads@, reads@.len() as int);
            &&& r@.len() == places.len()
            &&& forall|k: int|
                0 <= k < r@.len() ==> is_recording_of(
                    #[trigger] r@[k],
                    metrics.pairs()[places[k]].0,
                    metrics.pairs()[places[k]].1,
                    reads@[places[k]],
                )
        }),
{
    let mut out: Vec<Recording> = Vec::new();
    let mut i: usize = 0;
    while i < reads.len()
        invariant
            i <= reads@.len(),
            reads@.len() == metrics.pairs().len(),
            forall|k: int|
                0 <= k < reads@.len() ==> matches_spec(metrics.pairs()[k].1, #[trigger] reads@[k]),
            out@.len() == recorded_places(reads@, i as int).len(),
            forall|k: int|
                0 <= k < out@.len() ==> is_recording_of(
                    #[trigger] out@[k],
                    metrics.pairs()[recorded_places(reads@, i as int)[k]].0,
                    metrics.pairs()[recorded_places(reads@, i as int)[k]].1,
                    reads@[recorded_places(reads@, i as int)[k]],
                ),
        decreases reads@.len() - i,
    {
        if let Some(rec) = record_one(metrics.name_at(i), metrics.value_at(i), &reads[i]) {
            out.push(rec);
        }
        i += 1;
    }
    out
}

/// What is said where no kernel is installed to read the metrics of a phase from.
pub open spec fn no_metrics_kernel(phase_name: Seq<char>) -> Seq<char> {
    "phase '"@ + phase_name
        + "' has `metrics:` but no cached phase scope kernel was installed — synthesis bug (a phase with metrics classifies as PolydatMatter::Definitions and must install a kernel via the `Bindings` install spec)"@
}

pub fn metrics_fault(phase_name: &str) -> (r: String)
    ensures
        r@ == no_metrics_kernel(phase_name@),
{
    cat3(
        "phase '",
        phase_name,
        "' has `metrics:` but no cached phase scope kernel was installed — synthesis bug (a phase with metrics classifies as PolydatMatter::Definitions and must install a kernel via the `Bindings` install spec)",
    )
}

/// Whether the metrics of a phase can be read, or why not. They are read in a scope
/// below the kernel of the phase; `subscope` is what making it gave. A phase without
/// metrics needs neither.
pub fn metrics_ready(
    phase_name: &str,
    has_metrics: bool,
    kernel_installed: bool,
    subscope: &Result<(), String>,
) -> (r: Result<(), String>)
    ensures
        r is Ok <==> !has_metrics || (kernel_installed && *subscope is Ok),
        r matches Err(e) ==> e@ == (if !kernel_installed {
            no_metrics_kernel(phase_name@)
        } else {
            "phase '"@ + phase_name@ + "': metric-pull subscope: "@ + subscope->Err_0@
        }),
{
    if !has_metrics {
        return Ok(());
    }
    if !kernel_installed {
        return Err(metrics_fault(phase_name));
    }
    match subscope {
        Ok(_) => Ok(()),
        Err(e) => Err(cat4("phase '", phase_name, "': metric-pull subscope: ", e.as_str())),
    }
}

/// The warning about metrics that could not be read.
pub fn metrics_warning(phase_name: &str, why: &str) -> (r: String)
    ensures
        r@ == "phase '"@ + phase_name@ + "': phase-metric emission: "@ + why@,
{
    cat4("phase '", phase_name, "': phase-metric emission: ", why)
}

/// A metric is recorded exactly when it can be, and at most once.
pub proof fn law_recorded_once(reads: Seq<MetricRead>, n: int)
    requires
        0 <= n <= reads.len(),
    ensures
        forall|i: int|
            0 <= i < n ==> (#[trigger] is_recorded(reads[i]) <==> recorded_places(
                reads,
                n,
            ).contains(i)),
        forall|a: int, b: int|
            0 <= a < b < recorded_places(reads, n).len() ==> #[trigger] recorded_places(reads, n)[a]
                < #[trigger] recorded_places(reads, n)[b],
        forall|a: int|
            0 <= a < recorded_places(reads, n).len() ==> 0 <= #[trigger] recorded_places(
                reads,
                n,
            )[a] < n,
    decreases n,
{
    if n > 0 {
        law_recorded_once(reads, n - 1);
        let before = recorded_places(reads, n - 1);
        let now = recorded_places(reads, n);
        assert forall|i: int| 0 <= i < n implies (#[trigger] is_recorded(reads[i])
            <==> now.contains(i)) by {
            if i < n - 1 && before.contains(i) {
                let k = before.index_of(i);
                assert(now[k] == i);
            }
            if i == n - 1 && is_recorded(reads[i]) {
                assert(now[now.len() - 1] == i);
            }
            if now.contains(i) && i < n - 1 {
                let k = now.index_of(i);
                assert(before[k] == i);
            }
            if now.contains(i) && i == n - 1 && !is_recorded(reads[i]) {
                let k = before.index_of(i);
                assert(before[k] < n - 1);
            }
        }
    }
}

/// A metric is recorded where its value is a number or a truth value and every coordinate
/// of its cell is a text.
pub proof fn law_recorded_iff_number_in_named_cell(read: MetricRead)
    ensures
        is_recorded(read) <==> (read.value is F64 || read.value is U64 || read.value is Bool)
            && forall|i: int| 0 <= i < read.cell@.len() ==> (#[trigger] read.cell@[i]) is Str,
        read.value matches Value::U64(n) ==> number_of(read.value) == Some(Measured::Whole(n)),
        read.value matches Value::F64(f) ==> number_of(read.value) == Some(Measured::F64(f)),
        read.value matches Value::Bool(b) ==> (number_of(read.value) matches Some(
            Measured::Whole(n),
        ) && (n == 1 <==> b) && (n == 0 <==> !b)),
{
}

/// A recording bears what is declared for its metric: its name, its family or else its
/// name, its kind or else a gauge, and, where it has dimensions, a cell with the value
/// read for each.
pub proof fn law_recording_bears_what_is_declared(
    r: Recording,
    name: Seq<char>,
    spec: MetricSpec,
    read: MetricRead,
)
    requires
        is_recording_of(r, name, spec, read),
        matches_spec(spec, read),
    ensures
        r.name@ == name,
        spec.family is None ==> r.family@ == name,
        spec.family matches Some(f) ==> r.family@ == f@,
        spec.kind is None ==> r.kind == MetricKind::Gauge,
        spec.kind matches Some(k) ==> r.kind == k,
        r.unit is Some <==> spec.unit is Some,
        r.unit matches Some(u) ==> (spec.unit matches Some(v) && u@ == v@),
        r.format is Some <==> spec.format is Some,
        r.format matches Some(u) ==> (spec.format matches Some(v) && u@ == v@),
        r.cell is Some <==> spec.cell@.len() > 0,
        r.cell matches Some(c) ==> c@.len() == spec.cell@.len() && forall|i: int|
            0 <= i < c@.len() ==> (#[trigger] c@[i]).0@ == spec.cell@[i]@ && c@[i].1@
                == read.cell@[i]->Str_0@,
        read.value matches Value::U64(n) ==> r.value == Measured::Whole(n),
        read.value matches Value::F64(f) ==> (r.value matches Measured::F64(g) && g.bits == f.bits),
{
    if let Some(c) = r.cell {
        let v = context::label_views(c@);
        assert(v == cell_of(spec.cell@, read.cell@));
        assert(v.len() == c@.len());
        assert forall|i: int| 0 <= i < c@.len() implies (#[trigger] c@[i]).0@ == spec.cell@[i]@
            && c@[i].1@ == read.cell@[i]->Str_0@ by {
            assert(v[i] == (c@[i].0@, c@[i].1@));
            assert(cell_of(spec.cell@, read.cell@)[i] == (spec.cell@[i]@, read.cell@[i]->Str_0@));
        }
    }
}

} // verus!
