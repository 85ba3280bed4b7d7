//! Adapters: result bodies, execution errors, resolved fields, and the choice
//! of adapter and driver from what is registered.

use std::sync::Arc;

use vstd::prelude::*;

use crate::phase_outcome::Payload;
use crate::strmap::StrMap;
use crate::text;
use crate::text::{cat2, cat3, cat4, cat9, join_texts, split_text, str_eq, trim_text};
use crate::value;
use crate::value::{Json, Value};

verus! {

/// The result of one operation, as an adapter hands it back.
pub trait ResultBody: Payload {
    fn to_json(&self) -> (r: Json);

    /// How many logical elements the body holds.
    fn element_count(&self) -> (r: u64)
        default_ensures
            r == 1,
    {
        1
    }

    /// How many bytes were received, where that is known.
    fn byte_count(&self) -> (r: Option<u64>)
        default_ensures
            r is None,
    {
        None
    }
}

/// A result body of plain text.
#[derive(Debug, Clone)]
pub struct TextBody(pub String);

impl Payload for TextBody {

}

impl ResultBody for TextBody {
    fn to_json(&self) -> (r: Json)
        ensures
            r == Json::Text(self.0),
    {
        Json::Text(self.0.clone())
    }
}

impl TextBody {
    /// The text itself, without quotes.
    pub fn to_text(&self) -> (r: String)
        ensures
            r == self.0,
    {
        self.0.clone()
    }
}

/// A result body of JSON.
pub struct JsonBody(pub Json);

impl Payload for JsonBody {

}

impl ResultBody for JsonBody {
    fn to_json(&self) -> (r: Json)
        ensures
            value::same_json(r, self.0),
    {
        self.0.copy()
    }

    /// An array counts its elements; any other value is one.
    fn element_count(&self) -> (r: u64)
        ensures
            r == (match self.0 {
                Json::Array(a) => a@.len() as u64,
                _ => 1u64,
            }),
    {
        match &self.0 {
            Json::Array(a) => a.len() as u64,
            _ => 1,
        }
    }
}

/// What an operation came back with.
pub struct OpResult {
    pub body: Option<Arc<dyn Payload>>,
    pub skipped: bool,
}

impl OpResult {
    pub fn skipped() -> (r: Self)
        ensures
            r.body is None,
            r.skipped,
    {
        OpResult { body: None, skipped: true }
    }
}

impl Default for OpResult {
    fn default() -> (r: Self)
        ensures
            r.body is None,
            !r.skipped,
    {
        OpResult { body: None, skipped: false }
    }
}

/// An error of an adapter.
#[derive(Debug)]
pub struct AdapterError {
    pub error_name: String,
    pub message: String,
    pub retryable: bool,
}

pub open spec fn error_text(e: AdapterError) -> Seq<char> {
    "["@ + e.error_name@ + "] "@ + e.message@
}

impl AdapterError {
    /// `[name] message`.
    pub fn text(&self) -> (r: String)
        ensures
            r@ == error_text(*self),
    {
        cat4("[", self.error_name.as_str(), "] ", self.message.as_str())
    }
}

/// An operation failed, or the adapter under it did.
#[derive(Debug)]
pub enum ExecutionError {
    Op(AdapterError),
    Adapter(AdapterError),
}

pub open spec fn execution_error_text(e: ExecutionError) -> Seq<char> {
    match e {
        ExecutionError::Op(a) => "[op] "@ + error_text(a),
        ExecutionError::Adapter(a) => "[adapter] "@ + error_text(a),
    }
}

impl ExecutionError {
    pub fn error(&self) -> (r: &AdapterError)
        ensures
            *r == (match *self {
                ExecutionError::Op(e) => e,
                ExecutionError::Adapter(e) => e,
            }),
    {
        match self {
            ExecutionError::Op(e) => e,
            ExecutionError::Adapter(e) => e,
        }
    }

    pub fn is_adapter_level(&self) -> (r: bool)
        ensures
            r == (*self is Adapter),
    {
        match self {
            ExecutionError::Op(_) => false,
            ExecutionError::Adapter(_) => true,
        }
    }

    /// The error with its level in front.
    pub fn text(&self) -> (r: String)
        ensures
            r@ == execution_error_text(*self),
    {
        match self {
            ExecutionError::Op(e) => cat2("[op] ", e.text().as_str()),
            ExecutionError::Adapter(e) => cat2("[adapter] ", e.text().as_str()),
        }
    }
}

/// Whether an adapter can share the terminal with a full-screen display.
#[derive(Debug, Clone, Copy, PartialEq, Eq, PartialOrd, Ord, Structural)]
pub enum DisplayPreference {
    /// The adapter writes to the terminal itself.
    Off,
    /// No objection.
    Auto,
}

/// How the value of a status metric is shown.
#[derive(Debug, Clone, Copy, PartialEq, Eq, Structural)]
pub enum StatusRender {
    Rate,
    Count,
    Latency,
}

/// A metric on the status line.
#[derive(Debug, Clone, PartialEq)]
pub struct StatusMetric {
    pub metric_name: String,
    pub display: String,
    pub render: StatusRender,
}

/// A capture point: where a result value comes from and under which name it is
/// kept.
#[derive(Debug, Clone, PartialEq)]
pub struct CaptureDecl {
    pub source_name: String,
    pub as_name: String,
    pub type_qualifier: Option<String>,
}

/// The field values of one cycle, by name, in declaration order.
#[derive(Debug, Clone, PartialEq)]
pub struct ResolvedFields {
    pub names: Vec<String>,
    pub values: Vec<Value>,
}

/// The first position of `name` among `names`.
pub open spec fn is_first_index(names: Seq<String>, name: Seq<char>, i: int) -> bool {
    0 <= i < names.len() && names[i]@ == name && forall|k: int|
        0 <= k < i ==> #[trigger] names[k]@ != name
}

pub open spec fn has_text(names: Seq<String>, name: Seq<char>) -> bool {
    exists|i: int| 0 <= i < names.len() && #[trigger] names[i]@ == name
}

/// The first position of `name` among `names`.
pub fn position_of(names: &Vec<String>, name: &str) -> (r: Option<usize>)
    ensures
        r is Some <==> has_text(names@, name@),
        r matches Some(i) ==> is_first_index(names@, name@, i as int),
{
    let mut i: usize = 0;
    while i < names.len()
        invariant
            i <= names@.len(),
            forall|k: int| 0 <= k < i ==> #[trigger] names@[k]@ != name@,
        decreases names@.len() - i,
    {
        if str_eq(names[i].as_str(), name) {
            return Some(i);
        }
        i += 1;
    }
    None
}

impl ResolvedFields {
    /// Every name has a value.
    pub open spec fn wf(self) -> bool {
        self.names@.len() <= self.values@.len()
    }

    pub fn new(names: Vec<String>, values: Vec<Value>) -> (r: Self)
        ensures
            r.names == names,
            r.values == values,
    {
        ResolvedFields { names, values }
    }

    /// The text of every value, in order.
    pub fn strings(&self) -> (r: Vec<String>)
        ensures
            r@.len() == self.values@.len(),
            forall|i: int| 0 <= i < r@.len() ==> #[trigger] r@[i]@ == value::display_of(self.values@[i]),
    {
        let mut r: Vec<String> = Vec::new();
        let mut i: usize = 0;
        while i < self.values.len()
            invariant
                i <= self.values@.len(),
                r@.len() == i,
                forall|k: int| 0 <= k < i ==> #[trigger] r@[k]@ == value::display_of(self.values@[k]),
            decreases self.values@.len() - i,
        {
            r.push(self.values[i].to_display_string());
            i += 1;
        }
        r
    }

    /// The text of the first field called `name`.
    pub fn get_str(&self, name: &str) -> (r: Option<String>)
        requires
            self.wf(),
        ensures
            r is Some <==> has_text(self.names@, name@),
            r matches Some(t) ==> exists|i: int| #[trigger]
                is_first_index(self.names@, name@, i) && t@ == value::display_of(self.values@[i]),
    {
        match position_of(&self.names, name) {
            Some(i) => Some(self.values[i].to_display_string()),
            None => None,
        }
    }

    /// The value of the first field called `name`.
    pub fn get_value(&self, name: &str) -> (r: Option<&Value>)
        requires
            self.wf(),
        ensures
            r is Some <==> has_text(self.names@, name@),
            r matches Some(v) ==> exists|i: int| #[trigger]
                is_first_index(self.names@, name@, i) && *v == self.values@[i],
    {
        match position_of(&self.names, name) {
            Some(i) => Some(&self.values[i]),
            None => None,
        }
    }

    /// The text of the value at `index`.
    pub fn str_at(&self, index: usize) -> (r: String)
        requires
            index < self.values@.len(),
        ensures
            r@ == value::display_of(self.values@[index as int]),
    {
        self.values[index].to_display_string()
    }

    /// The same fields without those called `name`.
    pub fn without(&self, name: &str) -> (r: Self)
        requires
            self.wf(),
        ensures
            r.wf(),
            r.names@.len() == r.values@.len(),
            kept(self.names@, self.values@, name@) == paired(r.names@, r.values@),
    {
        let mut names: Vec<String> = Vec::new();
        let mut values: Vec<Value> = Vec::new();
        let mut i: usize = 0;
        assert(paired(names@, values@) =~= kept(self.names@.take(0), self.values@, name@));
        while i < self.names.len()
            invariant
                self.wf(),
                i <= self.names@.len(),
                names@.len() == values@.len(),
                kept(self.names@.take(i as int), self.values@, name@) == paired(names@, values@),
            decreases self.names@.len() - i,
        {
            let ghost before = paired(names@, values@);
            assert(self.names@.take(i + 1).drop_last() =~= self.names@.take(i as int));
            if !str_eq(self.names[i].as_str(), name) {
                names.push(self.names[i].clone());
                values.push(self.values[i].copy());
                assert(paired(names@, values@) =~= before.push(
                    (self.names@[i as int]@, self.values@[i as int]),
                ));
            }
            i += 1;
        }
        assert(self.names@.take(i as int) =~= self.names@);
        ResolvedFields { names, values }
    }

    /// The fields as a JSON object. Of fields with one name the last counts.
    pub fn to_json(&self) -> (r: StrMap<Json>)
        ensures
            r.wf(),
            is_object_of(r@, self.names@, self.values@, shorter(self.names@.len(), self.values@.len())),
    {
        let mut m: StrMap<Json> = StrMap::new();
        let mut i: usize = 0;
        while i < self.names.len() && i < self.values.len()
            invariant
                i <= self.names@.len(),
                i <= self.values@.len(),
                m.wf(),
                is_object_of(m@, self.names@, self.values@, i as nat),
            decreases self.names@.len() - i,
        {
            let ghost before = m@;
            let j = self.values[i].to_json();
            m.insert(self.names[i].clone(), j);
            i += 1;
            proof {
                assert forall|k: Seq<char>| m@.contains_key(k) == has_before(
                    self.names@,
                    k,
                    i as int,
                ) by {
                    assert(before.contains_key(k) == has_before(self.names@, k, i - 1));
                    if has_before(self.names@, k, i - 1) {
                        let a = choose|a: int|
                            0 <= a < i - 1 && a < self.names@.len() && #[trigger] self.names@[a]@
                                == k;
                        assert(self.names@[a]@ == k);
                    }
                    if k == self.names@[i - 1]@ {
                        assert(has_before(self.names@, k, i as int));
                    }
                }
                assert forall|a: int|
                    #![trigger self.names@[a]]
                    is_last_before(self.names@, a, i as int) implies value::is_json_of(
                    m@[self.names@[a]@],
                    self.values@[a],
                ) by {
                    if a != i - 1 {
                        assert(self.names@[i - 1]@ != self.names@[a]@);
                        assert(is_last_before(self.names@, a, i - 1));
                    }
                }
            }
        }
        m
    }
}

pub open spec fn shorter(a: nat, b: nat) -> nat {
    if a <= b {
        a
    } else {
        b
    }
}

/// Names with their values, position by position.
pub open spec fn paired(names: Seq<String>, values: Seq<Value>) -> Seq<(Seq<char>, Value)> {
    Seq::new(names.len(), |i: int| (names[i]@, values[i]))
}

/// The fields whose name is not `name`, in order.
pub open spec fn kept(names: Seq<String>, values: Seq<Value>, name: Seq<char>) -> Seq<
    (Seq<char>, Value),
>
    decreases names.len(),
{
    if names.len() == 0 {
        Seq::empty()
    } else {
        let before = kept(names.drop_last(), values, name);
        if names.last()@ == name {
            before
        } else {
            before.push((names.last()@, values[names.len() - 1]))
        }
    }
}

pub open spec fn has_before(names: Seq<String>, k: Seq<char>, n: int) -> bool {
    exists|i: int| 0 <= i < n && i < names.len() && #[trigger] names[i]@ == k
}

/// Among the first `n` names, `names[a]` is not followed by the same name.
pub open spec fn is_last_before(names: Seq<String>, a: int, n: int) -> bool {
    0 <= a < n && a < names.len() && forall|b: int|
        a < b < n && b < names.len() ==> #[trigger] names[b]@ != names[a]@
}

/// `m` holds, for each of the first `n` names, the JSON form of the last value
/// given under it, and nothing else.
pub open spec fn is_object_of(
    m: Map<Seq<char>, Json>,
    names: Seq<String>,
    values: Seq<Value>,
    n: nat,
) -> bool {
    &&& forall|k: Seq<char>| m.contains_key(k) == has_before(names, k, n as int)
    &&& forall|a: int|
        #![trigger names[a]]
        is_last_before(names, a, n as int) ==> value::is_json_of(m[names[a]@], values[a])
}

/// Of the fields that remain none has the removed name, and every other field
/// remains.
pub proof fn law_without_removes(
    names: Seq<String>,
    values: Seq<Value>,
    name: Seq<char>,
)
    ensures
        forall|i: int|
            0 <= i < kept(names, values, name).len() ==> (#[trigger] kept(
                names,
                values,
                name,
            )[i]).0 != name,
        forall|i: int|
            0 <= i < names.len() && #[trigger] names[i]@ != name ==> kept(
                names,
                values,
                name,
            ).contains((names[i]@, values[i])),
    decreases names.len(),
{
    if names.len() > 0 {
        let before = kept(names.drop_last(), values, name);
        law_without_removes(names.drop_last(), values, name);
        assert forall|i: int| 0 <= i < names.len() && #[trigger] names[i]@ != name implies kept(
            names,
            values,
            name,
        ).contains((names[i]@, values[i])) by {
            if i < names.len() - 1 {
                assert(names.drop_last()[i]@ != name);
                assert(before.contains((names[i]@, values[i])));
                let j = before.index_of((names[i]@, values[i]));
                assert(kept(names, values, name)[j] == (names[i]@, values[i]));
            } else {
                assert(kept(names, values, name)[before.len() as int] == (names[i]@, values[i]));
            }
        }
    }
}

/// An adapter that was linked in: the names it answers to, the parameters it
/// takes, and its display preference under the parameters of this run.
#[derive(Debug, Clone, PartialEq)]
pub struct AdapterRegistration {
    pub names: Vec<String>,
    pub known_params: Vec<String>,
    pub display_preference: DisplayPreference,
}

/// One driver implementation of an adapter. The lowest rank is tried first.
#[derive(Debug, Clone, PartialEq)]
pub struct DriverImpl {
    pub adapter: String,
    pub driver: String,
    pub default_rank: u32,
    pub known_params: Vec<String>,
}

/// Marks a driver whose instances phases may share.
#[derive(Debug, Clone, PartialEq)]
pub struct SharedDriverRegistration {
    pub adapter: String,
    pub driver: String,
}

/// Everything that was registered, in the order of registration.
#[derive(Debug, Clone, PartialEq)]
pub struct Registry {
    pub adapters: Vec<AdapterRegistration>,
    pub drivers: Vec<DriverImpl>,
    pub shared: Vec<SharedDriverRegistration>,
}

/// The driver name of adapters that have a single engine.
pub const DEFAULT_DRIVER_NAME: &'static str = "default";

pub open spec fn answers_to(a: AdapterRegistration, driver: Seq<char>) -> bool {
    has_text(a.names@, driver)
}

/// The first registered adapter that answers to `driver`.
pub fn find_adapter_registration<'a>(registry: &'a Registry, driver: &str) -> (r: Option<
    &'a AdapterRegistration,
>)
    ensures
        r is Some <==> exists|i: int|
            0 <= i < registry.adapters@.len() && #[trigger] answers_to(
                registry.adapters@[i],
                driver@,
            ),
        r matches Some(a) ==> exists|i: int|
            0 <= i < registry.adapters@.len() && *a == registry.adapters@[i] && #[trigger]
                answers_to(registry.adapters@[i], driver@) && forall|k: int|
                0 <= k < i ==> !#[trigger] answers_to(registry.adapters@[k], driver@),
{
    let mut i: usize = 0;
    while i < registry.adapters.len()
        invariant
            i <= registry.adapters@.len(),
            forall|k: int| 0 <= k < i ==> !#[trigger] answers_to(registry.adapters@[k], driver@),
        decreases registry.adapters@.len() - i,
    {
        if position_of(&registry.adapters[i].names, driver).is_some() {
            assert(answers_to(registry.adapters@[i as int], driver@));
            return Some(&registry.adapters[i]);
        }
        i += 1;
    }
    None
}

/// The names of the first `n` adapters, one list after another.
pub open spec fn adapter_names(adapters: Seq<AdapterRegistration>) -> Seq<Seq<char>>
    decreases adapters.len(),
{
    if adapters.len() == 0 {
        Seq::empty()
    } else {
        adapter_names(adapters.drop_last()) + text::views(adapters.last().names@)
    }
}

pub open spec fn adapter_params(adapters: Seq<AdapterRegistration>) -> Seq<Seq<char>>
    decreases adapters.len(),
{
    if adapters.len() == 0 {
        Seq::empty()
    } else {
        adapter_params(adapters.drop_last()) + text::views(adapters.last().known_params@)
    }
}

/// The parameters of the drivers of one adapter, or of all drivers.
pub open spec fn driver_params(drivers: Seq<DriverImpl>, adapter: Option<Seq<char>>) -> Seq<
    Seq<char>,
>
    decreases drivers.len(),
{
    if drivers.len() == 0 {
        Seq::empty()
    } else {
        let before = driver_params(drivers.drop_last(), adapter);
        if adapter is None || adapter == Some(drivers.last().adapter@) {
            before + text::views(drivers.last().known_params@)
        } else {
            before
        }
    }
}

fn extend_texts(out: &mut Vec<String>, more: &Vec<String>)
    ensures
        text::views(final(out)@) == text::views(old(out)@) + text::views(more@),
{
    let ghost before = text::views(out@);
    let mut i: usize = 0;
    assert(before + text::views(more@).take(0) =~= before);
    while i < more.len()
        invariant
            i <= more@.len(),
            text::views(out@) == before + text::views(more@).take(i as int),
        decreases more@.len() - i,
    {
        let ghost now = text::views(out@);
        out.push(more[i].clone());
        assert(text::views(out@) =~= now.push(more@[i as int]@));
        assert(text::views(more@).take(i + 1) =~= text::views(more@).take(i as int).push(more@[i as int]@));
        assert(now.push(more@[i as int]@) =~= before + text::views(more@).take(i + 1));
        i += 1;
    }
    assert(text::views(more@).take(i as int) =~= text::views(more@));
}

/// All driver names that some adapter answers to.
pub fn registered_driver_names(registry: &Registry) -> (r: Vec<String>)
    ensures
        text::views(r@) == adapter_names(registry.adapters@),
{
    let mut r: Vec<String> = Vec::new();
    let mut i: usize = 0;
    assert(text::views(r@) =~= adapter_names(registry.adapters@.take(0)));
    while i < registry.adapters.len()
        invariant
            i <= registry.adapters@.len(),
            text::views(r@) == adapter_names(registry.adapters@.take(i as int)),
        decreases registry.adapters@.len() - i,
    {
        assert(registry.adapters@.take(i + 1).drop_last() =~= registry.adapters@.take(i as int));
        extend_texts(&mut r, &registry.adapters[i].names);
        i += 1;
    }
    assert(registry.adapters@.take(i as int) =~= registry.adapters@);
    r
}

/// The display preference of the adapter that answers to `driver`. An unknown
/// driver raises no objection.
pub fn adapter_display_preference(registry: &Registry, driver: &str) -> (r: DisplayPreference)
    ensures
        (forall|i: int|
            0 <= i < registry.adapters@.len() ==> !#[trigger] answers_to(
                registry.adapters@[i],
                driver@,
            )) ==> r == DisplayPreference::Auto,
        forall|i: int|
            #![trigger registry.adapters@[i]]
            0 <= i < registry.adapters@.len() && answers_to(registry.adapters@[i], driver@) && (
            forall|k: int| 0 <= k < i ==> !#[trigger] answers_to(registry.adapters@[k], driver@))
                ==> r == registry.adapters@[i].display_preference,
{
    match find_adapter_registration(registry, driver) {
        Some(a) => {
            proof {
                let w = choose|i: int|
                    0 <= i < registry.adapters@.len() && *a == registry.adapters@[i]
                        && #[trigger] answers_to(registry.adapters@[i], driver@) && forall|k: int|
                        0 <= k < i ==> !#[trigger] answers_to(registry.adapters@[k], driver@);
                assert forall|i: int|
                    #![trigger registry.adapters@[i]]
                    0 <= i < registry.adapters@.len() && answers_to(registry.adapters@[i], driver@)
                        && (forall|k: int|
                        0 <= k < i ==> !#[trigger] answers_to(
                            registry.adapters@[k],
                            driver@,
                        )) implies i == w by {}
            }
            a.display_preference
        },
        None => DisplayPreference::Auto,
    }
}

/// All parameters that some adapter or driver takes.
pub fn registered_adapter_params(registry: &Registry) -> (r: Vec<String>)
    ensures
        text::views(r@) == adapter_params(registry.adapters@) + driver_params(registry.drivers@, None),
{
    let mut r: Vec<String> = Vec::new();
    let mut i: usize = 0;
    assert(text::views(r@) =~= adapter_params(registry.adapters@.take(0)));
    while i < registry.adapters.len()
        invariant
            i <= registry.adapters@.len(),
            text::views(r@) == adapter_params(registry.adapters@.take(i as int)),
        decreases registry.adapters@.len() - i,
    {
        assert(registry.adapters@.take(i + 1).drop_last() =~= registry.adapters@.take(i as int));
        extend_texts(&mut r, &registry.adapters[i].known_params);
        i += 1;
    }
    assert(registry.adapters@.take(i as int) =~= registry.adapters@);
    let ghost first = adapter_params(registry.adapters@);
    let mut j: usize = 0;
    assert(text::views(r@) =~= first + driver_params(registry.drivers@.take(0), None));
    while j < registry.drivers.len()
        invariant
            j <= registry.drivers@.len(),
            text::views(r@) == first + driver_params(registry.drivers@.take(j as int), None),
        decreases registry.drivers@.len() - j,
    {
        assert(registry.drivers@.take(j + 1).drop_last() =~= registry.drivers@.take(j as int));
        extend_texts(&mut r, &registry.drivers[j].known_params);
        assert(text::views(r@) =~= first + driver_params(registry.drivers@.take(j + 1), None));
        j += 1;
    }
    assert(registry.drivers@.take(j as int) =~= registry.drivers@);
    r
}

/// All parameters that the drivers of `adapter` take.
pub fn adapter_driver_params(registry: &Registry, adapter: &str) -> (r: Vec<String>)
    ensures
        text::views(r@) == driver_params(registry.drivers@, Some(adapter@)),
{
    let mut r: Vec<String> = Vec::new();
    let mut j: usize = 0;
    assert(text::views(r@) =~= driver_params(registry.drivers@.take(0), Some(adapter@)));
    while j < registry.drivers.len()
        invariant
            j <= registry.drivers@.len(),
            text::views(r@) == driver_params(registry.drivers@.take(j as int), Some(adapter@)),
        decreases registry.drivers@.len() - j,
    {
        assert(registry.drivers@.take(j + 1).drop_last() =~= registry.drivers@.take(j as int));
        if str_eq(registry.drivers[j].adapter.as_str(), adapter) {
            extend_texts(&mut r, &registry.drivers[j].known_params);
        }
        j += 1;
    }
    assert(registry.drivers@.take(j as int) =~= registry.drivers@);
    r
}

pub open spec fn is_shared_pair(
    e: SharedDriverRegistration,
    adapter: Seq<char>,
    driver: Seq<char>,
) -> bool {
    e.adapter@ == adapter && e.driver@ == driver
}

/// The position of the first sharing registration for the pair.
pub fn find_shared_driver(registry: &Registry, adapter: &str, driver: &str) -> (r: Option<usize>)
    ensures
        r is Some <==> exists|i: int|
            0 <= i < registry.shared@.len() && #[trigger] is_shared_pair(
                registry.shared@[i],
                adapter@,
                driver@,
            ),
        r matches Some(i) ==> i < registry.shared@.len() && is_shared_pair(
            registry.shared@[i as int],
            adapter@,
            driver@,
        ) && forall|k: int|
            0 <= k < i ==> !#[trigger] is_shared_pair(registry.shared@[k], adapter@, driver@),
{
    let mut i: usize = 0;
    while i < registry.shared.len()
        invariant
            i <= registry.shared@.len(),
            forall|k: int|
                0 <= k < i ==> !#[trigger] is_shared_pair(registry.shared@[k], adapter@, driver@),
        decreases registry.shared@.len() - i,
    {
        let e = &registry.shared[i];
        if str_eq(e.adapter.as_str(), adapter) && str_eq(e.driver.as_str(), driver) {
            assert(is_shared_pair(registry.shared@[i as int], adapter@, driver@));
            return Some(i);
        }
        i += 1;
    }
    None
}

pub open spec fn is_driver_pair(e: DriverImpl, adapter: Seq<char>, driver: Seq<char>) -> bool {
    e.adapter@ == adapter && e.driver@ == driver
}

pub open spec fn has_driver(
    drivers: Seq<DriverImpl>,
    adapter: Seq<char>,
    driver: Seq<char>,
) -> bool {
    exists|i: int|
        0 <= i < drivers.len() && #[trigger] is_driver_pair(drivers[i], adapter, driver)
}

/// The position of the first driver registered for the pair.
pub fn find_driver(registry: &Registry, adapter: &str, driver: &str) -> (r: Option<usize>)
    ensures
        r is Some <==> has_driver(registry.drivers@, adapter@, driver@),
        r matches Some(i) ==> i < registry.drivers@.len() && is_driver_pair(
            registry.drivers@[i as int],
            adapter@,
            driver@,
        ) && forall|k: int|
            0 <= k < i ==> !#[trigger] is_driver_pair(registry.drivers@[k], adapter@, driver@),
{
    let mut i: usize = 0;
    while i < registry.drivers.len()
        invariant
            i <= registry.drivers@.len(),
            forall|k: int|
                0 <= k < i ==> !#[trigger] is_driver_pair(registry.drivers@[k], adapter@, driver@),
        decreases registry.drivers@.len() - i,
    {
        let e = &registry.drivers[i];
        if str_eq(e.adapter.as_str(), adapter) && str_eq(e.driver.as_str(), driver) {
            assert(is_driver_pair(registry.drivers@[i as int], adapter@, driver@));
            return Some(i);
        }
        i += 1;
    }
    None
}

/// How many leading entries have a rank of at most `rank`.
pub open spec fn rank_prefix(s: Seq<(u32, Seq<char>)>, rank: u32) -> int
    decreases s.len(),
{
    if s.len() > 0 && s[0].0 <= rank {
        1 + rank_prefix(s.drop_first(), rank)
    } else {
        0
    }
}

/// The drivers of `adapter` by rising rank; drivers of one rank keep the order
/// of registration.
pub open spec fn ranked(drivers: Seq<DriverImpl>, adapter: Seq<char>) -> Seq<(u32, Seq<char>)>
    decreases drivers.len(),
{
    if drivers.len() == 0 {
        Seq::empty()
    } else {
        let before = ranked(drivers.drop_last(), adapter);
        let e = drivers.last();
        if e.adapter@ == adapter {
            before.insert(rank_prefix(before, e.default_rank), (e.default_rank, e.driver@))
        } else {
            before
        }
    }
}

/// The names of ranked drivers.
pub open spec fn ranked_names(s: Seq<(u32, Seq<char>)>) -> Seq<Seq<char>> {
    s.map_values(|e: (u32, Seq<char>)| e.1)
}

proof fn lemma_rank_prefix(s: Seq<(u32, Seq<char>)>, rank: u32)
    ensures
        0 <= rank_prefix(s, rank) <= s.len(),
        forall|k: int| 0 <= k < rank_prefix(s, rank) ==> (#[trigger] s[k]).0 <= rank,
        rank_prefix(s, rank) < s.len() ==> s[rank_prefix(s, rank)].0 > rank,
    decreases s.len(),
{
    if s.len() > 0 && s[0].0 <= rank {
        lemma_rank_prefix(s.drop_first(), rank);
        let n = rank_prefix(s.drop_first(), rank);
        assert forall|k: int| 0 <= k < n + 1 implies (#[trigger] s[k]).0 <= rank by {
            if k > 0 {
                assert(s.drop_first()[k - 1] == s[k]);
            }
        }
        if n + 1 < s.len() {
            assert(s.drop_first()[n] == s[n + 1]);
        }
    }
}

/// The default order is by rising rank.
pub proof fn law_default_order_sorted(drivers: Seq<DriverImpl>, adapter: Seq<char>)
    ensures
        forall|i: int, j: int|
            0 <= i <= j < ranked(drivers, adapter).len() ==> (#[trigger] ranked(
                drivers,
                adapter,
            )[i]).0 <= (#[trigger] ranked(drivers, adapter)[j]).0,
    decreases drivers.len(),
{
    if drivers.len() > 0 {
        law_default_order_sorted(drivers.drop_last(), adapter);
        let before = ranked(drivers.drop_last(), adapter);
        lemma_rank_prefix(before, drivers.last().default_rank);
    }
}

/// The default order holds exactly the drivers registered for the adapter.
pub proof fn law_default_order_complete(
    drivers: Seq<DriverImpl>,
    adapter: Seq<char>,
    driver: Seq<char>,
)
    ensures
        has_driver(drivers, adapter, driver) <==> ranked_names(ranked(drivers, adapter)).contains(
            driver,
        ),
    decreases drivers.len(),
{
    let all = ranked(drivers, adapter);
    if drivers.len() > 0 {
        let less = drivers.drop_last();
        let before = ranked(less, adapter);
        let e = drivers.last();
        law_default_order_complete(less, adapter, driver);
        lemma_rank_prefix(before, e.default_rank);
        let p = rank_prefix(before, e.default_rank);
        if has_driver(less, adapter, driver) {
            let i = choose|i: int|
                0 <= i < less.len() && #[trigger] is_driver_pair(less[i], adapter, driver);
            assert(is_driver_pair(drivers[i], adapter, driver));
            let a = ranked_names(before).index_of(driver);
            if e.adapter@ == adapter {
                let b = if a < p { a } else { a + 1 };
                assert(all[b] == before[a]);
                assert(ranked_names(all)[b] == driver);
            }
        }
        if is_driver_pair(e, adapter, driver) {
            assert(is_driver_pair(drivers[drivers.len() - 1], adapter, driver));
            assert(ranked_names(all)[p] == driver);
        }
        if ranked_names(all).contains(driver) && !is_driver_pair(e, adapter, driver) {
            let b = ranked_names(all).index_of(driver);
            if e.adapter@ == adapter {
                let a = if b < p { b } else { b - 1 };
                assert(all[b] == before[a]);
                assert(ranked_names(before)[a] == driver);
            }
        }
        if has_driver(drivers, adapter, driver) && !is_driver_pair(e, adapter, driver) {
            let i = choose|i: int|
                0 <= i < drivers.len() && #[trigger] is_driver_pair(drivers[i], adapter, driver);
            assert(is_driver_pair(less[i], adapter, driver));
        }
    }
}

/// The drivers of `adapter` in default order.
pub fn default_drivers(registry: &Registry, adapter: &str) -> (r: Vec<String>)
    ensures
        text::views(r@) == ranked_names(ranked(registry.drivers@, adapter@)),
{
    let mut names: Vec<String> = Vec::new();
    let mut ranks: Vec<u32> = Vec::new();
    let mut i: usize = 0;
    let ghost mut model: Seq<(u32, Seq<char>)> = Seq::empty();
    assert(text::views(names@) =~= ranked_names(model));
    assert(registry.drivers@.take(0).len() == 0);
    while i < registry.drivers.len()
        invariant
            i <= registry.drivers@.len(),
            model == ranked(registry.drivers@.take(i as int), adapter@),
            text::views(names@) == ranked_names(model),
            names@.len() == ranks@.len() == model.len(),
            forall|k: int| 0 <= k < ranks@.len() ==> #[trigger] ranks@[k] == model[k].0,
        decreases registry.drivers@.len() - i,
    {
        assert(registry.drivers@.take(i + 1).drop_last() =~= registry.drivers@.take(i as int));
        let e = &registry.drivers[i];
        if str_eq(e.adapter.as_str(), adapter) {
            let mut p: usize = 0;
            assert(model.skip(0) =~= model);
            while p < ranks.len() && ranks[p] <= e.default_rank
                invariant
                    p <= ranks@.len() == model.len(),
                    forall|k: int| 0 <= k < ranks@.len() ==> #[trigger] ranks@[k] == model[k].0,
                    rank_prefix(model, e.default_rank) == p + rank_prefix(
                        model.skip(p as int),
                        e.default_rank,
                    ),
                decreases ranks@.len() - p,
            {
                assert(model.skip(p as int).drop_first() =~= model.skip(p + 1));
                p += 1;
            }
            let ghost old_names = text::views(names@);
            let ghost old_ranks = ranks@;
            names.insert(p, e.driver.clone());
            ranks.insert(p, e.default_rank);
            proof {
                let old_model = model;
                model = old_model.insert(p as int, (e.default_rank, e.driver@));
                assert(text::views(names@) =~= old_names.insert(p as int, e.driver@));
                assert(ranked_names(model) =~= ranked_names(old_model).insert(p as int, e.driver@));
            }
        }
        i += 1;
    }
    assert(registry.drivers@.take(i as int) =~= registry.drivers@);
    names
}

/// The names that a selector value lists: split at commas, trimmed, without
/// empty ones.
pub open spec fn selector_names(s: Seq<char>) -> Seq<Seq<char>> {
    nonempty(text::split_on(s, ',').map_values(|t: Seq<char>| text::trimmed(t)))
}

pub open spec fn nonempty(s: Seq<Seq<char>>) -> Seq<Seq<char>>
    decreases s.len(),
{
    if s.len() == 0 {
        Seq::empty()
    } else if s.last().len() == 0 {
        nonempty(s.drop_last())
    } else {
        nonempty(s.drop_last()).push(s.last())
    }
}

fn parse_selector(s: &str) -> (r: Vec<String>)
    ensures
        text::views(r@) == selector_names(s@),
{
    let parts = split_text(s, ',');
    let ghost all = text::split_on(s@, ',').map_values(|t: Seq<char>| text::trimmed(t));
    let mut r: Vec<String> = Vec::new();
    let mut i: usize = 0;
    assert(text::views(r@) =~= nonempty(all.take(0)));
    while i < parts.len()
        invariant
            i <= parts@.len(),
            text::views(parts@) == text::split_on(s@, ','),
            all == text::split_on(s@, ',').map_values(|t: Seq<char>| text::trimmed(t)),
            text::views(r@) == nonempty(all.take(i as int)),
        decreases parts@.len() - i,
    {
        assert(text::views(parts@)[i as int] == parts@[i as int]@);
        assert(all.take(i + 1).drop_last() =~= all.take(i as int));
        let t = trim_text(parts[i].as_str());
        assert(all[i as int] == t@);
        if !t.as_str().is_empty() {
            let ghost before = text::views(r@);
            let ghost added = t@;
            r.push(t);
            assert(text::views(r@) =~= before.push(added));
        }
        i += 1;
    }
    assert(text::views(parts@).len() == parts@.len());
    assert(all.take(i as int) =~= all);
    r
}

/// The order in which drivers are tried: the user's selection where there is
/// one, else the default order.
pub open spec fn driver_order(
    registry: Registry,
    adapter: Seq<char>,
    selector: Option<Seq<char>>,
) -> Seq<Seq<char>> {
    match selector {
        Some(s) => selector_names(s),
        None => ranked_names(ranked(registry.drivers@, adapter)),
    }
}

/// The first name of `order` under which the adapter has a driver.
pub open spec fn first_available(
    drivers: Seq<DriverImpl>,
    adapter: Seq<char>,
    order: Seq<Seq<char>>,
) -> Option<Seq<char>>
    decreases order.len(),
{
    if order.len() == 0 {
        None
    } else if has_driver(drivers, adapter, order[0]) {
        Some(order[0])
    } else {
        first_available(drivers, adapter, order.drop_first())
    }
}

/// The user's selector value, if one is set.
pub open spec fn selector_value(params: Map<Seq<char>, String>, selector_param: Seq<char>) -> Option<
    Seq<char>,
> {
    if params.contains_key(selector_param) {
        Some(params[selector_param]@)
    } else {
        None
    }
}

fn order_for(
    registry: &Registry,
    adapter: &str,
    selector_param: &str,
    params: &StrMap<String>,
) -> (r: Vec<String>)
    requires
        params.wf(),
    ensures
        text::views(r@) == driver_order(*registry, adapter@, selector_value(params@, selector_param@)),
{
    match params.get(selector_param) {
        Some(s) => parse_selector(s.as_str()),
        None => default_drivers(registry, adapter),
    }
}

fn pick(registry: &Registry, adapter: &str, order: &Vec<String>) -> (r: Option<usize>)
    ensures
        r is Some <==> first_available(registry.drivers@, adapter@, text::views(order@)) is Some,
        r matches Some(i) ==> i < registry.drivers@.len() && Some(registry.drivers@[i as int].driver@)
            == first_available(registry.drivers@, adapter@, text::views(order@))
            && registry.drivers@[i as int].adapter@ == adapter@ && forall|k: int|
            0 <= k < i ==> !#[trigger] is_driver_pair(
                registry.drivers@[k],
                adapter@,
                registry.drivers@[i as int].driver@,
            ),
{
    let ghost all = text::views(order@);
    let mut i: usize = 0;
    assert(all.skip(0) =~= all);
    while i < order.len()
        invariant
            i <= order@.len(),
            all == text::views(order@),
            first_available(registry.drivers@, adapter@, all) == first_available(
                registry.drivers@,
                adapter@,
                all.skip(i as int),
            ),
        decreases order@.len() - i,
    {
        assert(all.skip(i as int)[0] == order@[i as int]@);
        assert(all.skip(i as int).drop_first() =~= all.skip(i + 1));
        let found = find_driver(registry, adapter, order[i].as_str());
        if found.is_some() {
            return found;
        }
        i += 1;
    }
    None
}

/// The driver that serves `adapter`: the first of the order that is registered,
/// and `default` where none is.
pub fn resolve_driver_name(
    registry: &Registry,
    adapter: &str,
    selector_param: &str,
    params: &StrMap<String>,
) -> (r: Option<String>)
    requires
        params.wf(),
    ensures
        r is Some,
        r->0@ == (match first_available(
            registry.drivers@,
            adapter@,
            driver_order(*registry, adapter@, selector_value(params@, selector_param@)),
        ) {
            Some(d) => d,
            None => DEFAULT_DRIVER_NAME@,
        }),
{
    let order = order_for(registry, adapter, selector_param, params);
    match pick(registry, adapter, &order) {
        Some(i) => Some(registry.drivers[i].driver.clone()),
        None => Some(DEFAULT_DRIVER_NAME.to_owned()),
    }
}

/// The position of the driver to instantiate for `adapter`, or why there is
/// none.
pub fn select_driver(
    registry: &Registry,
    adapter: &str,
    selector_param: &str,
    params: &StrMap<String>,
) -> (r: Result<usize, String>)
    requires
        params.wf(),
    ensures
        ({
            let order = driver_order(*registry, adapter@, selector_value(params@, selector_param@));
            let found = first_available(registry.drivers@, adapter@, order);
            match r {
                Ok(i) => i < registry.drivers@.len() && Some(registry.drivers@[i as int].driver@)
                    == found && registry.drivers@[i as int].adapter@ == adapter@ && (forall|k: int|
                    0 <= k < i ==> !#[trigger] is_driver_pair(
                        registry.drivers@[k],
                        adapter@,
                        found->0,
                    )),
                Err(e) => found is None && e@ == (if order.len() == 0 {
                    "adapter '"@ + adapter@
                        + "': no driver implementations registered. Build the binary with at least one driver feature enabled."@
                } else {
                    "adapter '"@ + adapter@ + "': no driver in "@ + selector_param@ + "='"@
                        + text::joined(order, ","@) + "' is compiled in; available drivers: ["@ + text::joined(
                        ranked_names(ranked(registry.drivers@, adapter@)),
                        ", "@,
                    ) + "]"@
                }),
            }
        }),
{
    let order = order_for(registry, adapter, selector_param, params);
    if order.len() == 0 {
        assert(text::views(order@).len() == 0);
        return Err(
            cat3(
                "adapter '",
                adapter,
                "': no driver implementations registered. Build the binary with at least one driver feature enabled.",
            ),
        );
    }
    assert(text::views(order@).len() > 0);
    match pick(registry, adapter, &order) {
        Some(i) => Ok(i),
        None => {
            let defaults = default_drivers(registry, adapter);
            Err(
                cat9(
                    "adapter '",
                    adapter,
                    "': no driver in ",
                    selector_param,
                    "='",
                    join_texts(&order, ",").as_str(),
                    "' is compiled in; available drivers: [",
                    join_texts(&defaults, ", ").as_str(),
                    "]",
                ),
            )
        },
    }
}

/// The driver that is chosen is registered for the adapter, and no driver before
/// it in the order is.
pub proof fn law_chosen_driver_is_first_registered(
    drivers: Seq<DriverImpl>,
    adapter: Seq<char>,
    order: Seq<Seq<char>>,
    d: Seq<char>,
)
    requires
        first_available(drivers, adapter, order) == Some(d),
    ensures
        has_driver(drivers, adapter, d),
        exists|i: int|
            0 <= i < order.len() && #[trigger] order[i] == d && forall|k: int|
                0 <= k < i ==> !has_driver(drivers, adapter, #[trigger] order[k]),
    decreases order.len(),
{
    if has_driver(drivers, adapter, order[0]) {
        assert(order[0] == d);
    } else {
        let rest = order.drop_first();
        law_chosen_driver_is_first_registered(drivers, adapter, rest, d);
        let i = choose|i: int|
            0 <= i < rest.len() && #[trigger] rest[i] == d && forall|k: int|
                0 <= k < i ==> !has_driver(drivers, adapter, #[trigger] rest[k]);
        assert(order[i + 1] == d);
        assert forall|k: int| 0 <= k < i + 1 implies !has_driver(
            drivers,
            adapter,
            #[trigger] order[k],
        ) by {
            if k > 0 {
                assert(rest[k - 1] == order[k]);
            }
        }
    }
}

/// What is left without a name is all the rest, in order.
pub proof fn law_without_keeps_the_rest(names: Seq<String>, values: Seq<Value>, name: Seq<char>)
    ensures
        kept(names, values, name) == paired(names, values).filter(
            |e: (Seq<char>, Value)| e.0 != name,
        ),
    decreases names.len(),
{
    reveal(Seq::filter);
    if names.len() > 0 {
        law_without_keeps_the_rest(names.drop_last(), values, name);
        assert(paired(names, values).drop_last() =~= paired(names.drop_last(), values));
    }
}

/// An object holds the value of every name, the last one where a name occurs more often.
pub proof fn law_object_holds_last_values(
    m: Map<Seq<char>, Json>,
    names: Seq<String>,
    values: Seq<Value>,
    i: int,
)
    requires
        is_object_of(m, names, values, shorter(names.len(), values.len())),
        0 <= i < names.len(),
        i < values.len(),
        forall|k: int|
            i < k < names.len() && k < values.len() ==> (#[trigger] names[k])@ != names[i]@,
    ensures
        m.contains_key(names[i]@),
        value::is_json_of(m[names[i]@], values[i]),
{
    let n = shorter(names.len(), values.len()) as int;
    assert(has_before(names, names[i]@, n));
    assert(is_last_before(names, i, n));
}

/// Drivers of one rank, in the order in which they were registered.
pub open spec fn drivers_of_rank(drivers: Seq<DriverImpl>, adapter: Seq<char>, rank: u32) -> Seq<
    Seq<char>,
>
    decreases drivers.len(),
{
    if drivers.len() == 0 {
        Seq::empty()
    } else {
        let before = drivers_of_rank(drivers.drop_last(), adapter, rank);
        if drivers.last().adapter@ == adapter && drivers.last().default_rank == rank {
            before.push(drivers.last().driver@)
        } else {
            before
        }
    }
}

/// The names of one rank.
pub open spec fn names_of_rank(s: Seq<(u32, Seq<char>)>, rank: u32) -> Seq<Seq<char>>
    decreases s.len(),
{
    if s.len() == 0 {
        Seq::empty()
    } else {
        let before = names_of_rank(s.drop_last(), rank);
        if s.last().0 == rank {
            before.push(s.last().1)
        } else {
            before
        }
    }
}

proof fn lemma_names_of_rank_add(a: Seq<(u32, Seq<char>)>, b: Seq<(u32, Seq<char>)>, rank: u32)
    ensures
        names_of_rank(a + b, rank) == names_of_rank(a, rank) + names_of_rank(b, rank),
    decreases b.len(),
{
    if b.len() == 0 {
        assert(a + b =~= a);
        assert(names_of_rank(a, rank) + names_of_rank(b, rank) =~= names_of_rank(a, rank));
    } else {
        assert((a + b).drop_last() =~= a + b.drop_last());
        lemma_names_of_rank_add(a, b.drop_last(), rank);
        assert(names_of_rank(a + b, rank) =~= names_of_rank(a, rank) + names_of_rank(b, rank));
    }
}

proof fn lemma_no_names_above(b: Seq<(u32, Seq<char>)>, rank: u32)
    requires
        forall|i: int| 0 <= i < b.len() ==> (#[trigger] b[i]).0 > rank,
    ensures
        names_of_rank(b, rank).len() == 0,
    decreases b.len(),
{
    if b.len() > 0 {
        assert(b[b.len() - 1].0 > rank);
        let less = b.drop_last();
        assert forall|i: int| 0 <= i < less.len() implies (#[trigger] less[i]).0 > rank by {
            assert(less[i] == b[i]);
        }
        lemma_no_names_above(less, rank);
    }
}

/// Among drivers of one rank the one that was registered first comes first.
pub proof fn law_default_order_is_stable(drivers: Seq<DriverImpl>, adapter: Seq<char>, rank: u32)
    ensures
        names_of_rank(ranked(drivers, adapter), rank) == drivers_of_rank(drivers, adapter, rank),
    decreases drivers.len(),
{
    if drivers.len() > 0 {
        let less = drivers.drop_last();
        law_default_order_is_stable(less, adapter, rank);
        law_default_order_sorted(less, adapter);
        let before = ranked(less, adapter);
        let e = drivers.last();
        if e.adapter@ == adapter {
            lemma_rank_prefix(before, e.default_rank);
            let p = rank_prefix(before, e.default_rank);
            let x = (e.default_rank, e.driver@);
            let head = before.take(p);
            let tail = before.skip(p);
            assert(before.insert(p, x) =~= head + seq![x] + tail);
            assert(before =~= head + tail);
            lemma_names_of_rank_add(head, tail, rank);
            lemma_names_of_rank_add(head, seq![x], rank);
            lemma_names_of_rank_add(head + seq![x], tail, rank);
            assert(seq![x].drop_last() =~= Seq::<(u32, Seq<char>)>::empty());
            assert(names_of_rank(seq![x].drop_last(), rank) =~= Seq::<Seq<char>>::empty());
            if e.default_rank == rank {
                lemma_no_names_above(tail, rank);
                assert(names_of_rank(seq![x], rank) =~= seq![e.driver@]);
                assert(names_of_rank(before.insert(p, x), rank) =~= names_of_rank(before, rank).push(
                    e.driver@,
                ));
            } else {
                assert(names_of_rank(seq![x], rank) =~= Seq::<Seq<char>>::empty());
                assert(names_of_rank(before.insert(p, x), rank) =~= names_of_rank(before, rank));
            }
        }
    }
}

/// A selector says which drivers are looked for and in which order, whatever their ranks;
/// without one the ranks do.
pub proof fn law_selector_goes_before_rank(registry: Registry, adapter: Seq<char>, said: Seq<char>)
    ensures
        driver_order(registry, adapter, Some(said)) == text::split_on(said, ',').map_values(
            |t: Seq<char>| text::trimmed(t),
        ).filter(|t: Seq<char>| t.len() > 0),
        driver_order(registry, adapter, None) == ranked_names(ranked(registry.drivers@, adapter)),
{
    lemma_nonempty(text::split_on(said, ',').map_values(|t: Seq<char>| text::trimmed(t)));
}

proof fn lemma_nonempty(s: Seq<Seq<char>>)
    ensures
        nonempty(s) == s.filter(|t: Seq<char>| t.len() > 0),
    decreases s.len(),
{
    reveal(Seq::filter);
    if s.len() > 0 {
        lemma_nonempty(s.drop_last());
    }
}

/// A driver is found as soon as one of those that are looked for is registered.
pub proof fn law_registered_driver_is_found(
    drivers: Seq<DriverImpl>,
    adapter: Seq<char>,
    order: Seq<Seq<char>>,
)
    ensures
        first_available(drivers, adapter, order) is None <==> forall|i: int|
            0 <= i < order.len() ==> !has_driver(drivers, adapter, #[trigger] order[i]),
    decreases order.len(),
{
    if order.len() > 0 && !has_driver(drivers, adapter, order[0]) {
        let rest = order.drop_first();
        law_registered_driver_is_found(drivers, adapter, rest);
        if first_available(drivers, adapter, order) is None {
            assert forall|i: int| 0 <= i < order.len() implies !has_driver(
                drivers,
                adapter,
                #[trigger] order[i],
            ) by {
                if i > 0 {
                    assert(rest[i - 1] == order[i]);
                }
            }
        }
        if forall|i: int| 0 <= i < order.len() ==> !has_driver(drivers, adapter, #[trigger] order[i]) {
            assert forall|i: int| 0 <= i < rest.len() implies !has_driver(
                drivers,
                adapter,
                #[trigger] rest[i],
            ) by {
                assert(rest[i] == order[i + 1]);
            }
        }
    }
}

/// The names and parameters of adapters and drivers are listed in the order of
/// registration; those of drivers of another adapter are left out where one is asked for.
pub proof fn law_registered_are_listed(
    a: Seq<AdapterRegistration>,
    b: Seq<AdapterRegistration>,
    c: Seq<DriverImpl>,
    d: Seq<DriverImpl>,
    of: Option<Seq<char>>,
)
    ensures
        adapter_names(a + b) == adapter_names(a) + adapter_names(b),
        adapter_params(a + b) == adapter_params(a) + adapter_params(b),
        driver_params(c + d, of) == driver_params(c, of) + driver_params(d, of),
        b.len() == 1 ==> adapter_names(b) == text::views(b[0].names@) && adapter_params(b)
            == text::views(b[0].known_params@),
        d.len() == 1 && (of is None || of == Some(d[0].adapter@)) ==> driver_params(d, of)
            == text::views(d[0].known_params@),
        d.len() == 1 && of is Some && of != Some(d[0].adapter@) ==> driver_params(d, of).len() == 0,
    decreases b.len() + d.len(),
{
    if b.len() == 0 {
        assert(a + b =~= a);
        assert(adapter_names(a) + adapter_names(b) =~= adapter_names(a));
        assert(adapter_params(a) + adapter_params(b) =~= adapter_params(a));
    } else {
        assert((a + b).drop_last() =~= a + b.drop_last());
        law_registered_are_listed(a, b.drop_last(), c, d, of);
        assert(adapter_names(a + b) =~= adapter_names(a) + adapter_names(b));
        assert(adapter_params(a + b) =~= adapter_params(a) + adapter_params(b));
    }
    if d.len() == 0 {
        assert(c + d =~= c);
        assert(driver_params(c, of) + driver_params(d, of) =~= driver_params(c, of));
    } else {
        assert((c + d).drop_last() =~= c + d.drop_last());
        law_registered_are_listed(a, b, c, d.drop_last(), of);
        assert(driver_params(c + d, of) =~= driver_params(c, of) + driver_params(d, of));
    }
    if b.len() == 1 {
        assert(b.drop_last().len() == 0);
        assert(adapter_names(b) =~= text::views(b[0].names@));
        assert(adapter_params(b) =~= text::views(b[0].known_params@));
    }
    if d.len() == 1 {
        assert(d.drop_last().len() == 0);
        if of is None || of == Some(d[0].adapter@) {
            assert(driver_params(d, of) =~= text::views(d[0].known_params@));
        }
    }
}

/// A registration is found by the adapter and the driver together.
pub proof fn law_registration_is_told_by_both_names(
    e: SharedDriverRegistration,
    d: DriverImpl,
    adapter: Seq<char>,
    driver: Seq<char>,
)
    ensures
        is_shared_pair(e, adapter, driver) <==> adapter == e.adapter@ && driver == e.driver@,
        is_driver_pair(d, adapter, driver) <==> adapter == d.adapter@ && driver == d.driver@,
{
}

/// An adapter answers to each of its names and to no other.
pub proof fn law_adapter_answers_to_its_names(a: AdapterRegistration, name: Seq<char>)
    ensures
        answers_to(a, name) <==> text::views(a.names@).contains(name),
{
    let v = text::views(a.names@);
    if answers_to(a, name) {
        let i = choose|i: int| 0 <= i < a.names@.len() && #[trigger] a.names@[i]@ == name;
        assert(v[i] == name);
    }
    if v.contains(name) {
        let i = v.index_of(name);
        assert(a.names@[i]@ == name);
    }
}

/// A selector is what its parameter says, where the parameter is set.
pub proof fn law_selector_is_its_parameter(params: Map<Seq<char>, String>, name: Seq<char>)
    ensures
        selector_value(params, name) is Some <==> params.contains_key(name),
        selector_value(params, name) matches Some(v) ==> v == params[name]@,
{
}

/// An error tells its name in brackets before its words, and first of all whether it is of
/// the op or of the adapter.
pub proof fn law_error_tells_its_level(a: AdapterError)
    ensures
        execution_error_text(ExecutionError::Op(a)) == "[op] "@ + ("["@ + a.error_name@ + "] "@
            + a.message@),
        execution_error_text(ExecutionError::Adapter(a)) == "[adapter] "@ + ("["@ + a.error_name@
            + "] "@ + a.message@),
{
}

} // verus!
