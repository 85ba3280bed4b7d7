//! The controls that a run can have: what each is, what it accepts and when it
//! is there, before anything runs.

use vstd::prelude::*;

use crate::text;
use crate::text::{cat2, cat3, cat5};
use crate::value;
use crate::value::Float;

verus! {

/// The shape of a control's value. Every value is written as a double.
#[derive(Debug, Clone, Copy, PartialEq, Eq, Structural)]
pub enum ControlValueType {
    /// A whole number.
    Count,
    /// Operations per second.
    Rate,
    /// A fraction of one.
    Fraction,
    /// A ceiling in events per second; zero sets none.
    Frequency,
}

pub open spec fn type_label(t: ControlValueType) -> Seq<char> {
    match t {
        ControlValueType::Count => "count(u32)"@,
        ControlValueType::Rate => "rate(ops/s)"@,
        ControlValueType::Fraction => "fraction"@,
        ControlValueType::Frequency => "freq(hz)"@,
    }
}

impl ControlValueType {
    pub fn label(self) -> (r: &'static str)
        ensures
            r@ == type_label(self),
    {
        match self {
            ControlValueType::Count => "count(u32)",
            ControlValueType::Rate => "rate(ops/s)",
            ControlValueType::Fraction => "fraction",
            ControlValueType::Frequency => "freq(hz)",
        }
    }
}

/// When a control is there.
#[derive(Debug, Clone, Copy, PartialEq, Eq)]
pub enum DeclaredWhen {
    Always,
    /// When a phase sets this field.
    PhaseField(&'static str),
    /// When this adapter is active.
    AdapterActive(&'static str),
    /// When this driver is active.
    Driver(&'static str),
}

pub open spec fn condition_text(w: DeclaredWhen) -> Seq<char> {
    match w {
        DeclaredWhen::Always => "always"@,
        DeclaredWhen::PhaseField(field) => "when a phase sets `"@ + field@ + ":`"@,
        DeclaredWhen::AdapterActive(name) => "when the `"@ + name@ + "` adapter is active"@,
        DeclaredWhen::Driver(driver) => "when the `"@ + driver@ + "` driver is active"@,
    }
}

impl DeclaredWhen {
    pub fn text(&self) -> (r: String)
        ensures
            r@ == condition_text(*self),
    {
        match self {
            DeclaredWhen::Always => "always".to_owned(),
            DeclaredWhen::PhaseField(field) => cat3("when a phase sets `", field, ":`"),
            DeclaredWhen::AdapterActive(name) => cat3(
                "when the `",
                name,
                "` adapter is active",
            ),
            DeclaredWhen::Driver(driver) => cat3("when the `", driver, "` driver is active"),
        }
    }
}

/// What a control is.
#[derive(Debug, Clone, PartialEq)]
pub struct ControlDesc {
    pub name: &'static str,
    pub value_type: ControlValueType,
    /// What a run starts from where nothing is set.
    pub default: Float,
    /// The least value; a rate must be above it.
    pub min: Float,
    /// The greatest value.
    pub max: Float,
    pub unit: &'static str,
    pub doc: &'static str,
    pub declared_when: DeclaredWhen,
}

/// A finite value within the bounds of a control.
pub open spec fn within(d: ControlDesc, v: Float) -> bool {
    value::finite_bits(v.bits) && below_or_at(d.min, v) && below_or_at(v, d.max)
}

/// `a` is at most `b`, and both are numbers.
pub open spec fn below_or_at(a: Float, b: Float) -> bool {
    !value::nan_bits(a.bits) && !value::nan_bits(b.bits) && value::place_of(a.bits)
        <= value::place_of(b.bits)
}

/// `a` is greater than `b`, and both are numbers.
pub open spec fn above(a: Float, b: Float) -> bool {
    below_or_at(b, a) && !below_or_at(a, b)
}

/// A value that a rate refuses: one that is not above its floor, or that is above
/// its greatest value.
pub open spec fn rate_refuses(d: ControlDesc, v: Float) -> bool {
    below_or_at(v, d.min) || above(v, d.max)
}

impl ControlDesc {
    fn holds(&self, v: &Float) -> (r: bool)
        ensures
            r == within(*self, *v),
    {
        v.is_finite() && self.min.at_most(v) && v.at_most(&self.max)
    }

    /// Whether a count takes this value, or why not.
    pub fn check_u32(&self, v: &Float) -> (r: Result<(), String>)
        ensures
            r is Ok <==> within(*self, *v),
            r matches Err(e) ==> e@ == self.name@ + " out of range ["@ + self.min.text@ + ", "@
                + self.max.text@ + "]: got "@ + v.text@,
    {
        if self.holds(v) {
            Ok(())
        } else {
            Err(
                text::cat7(
                    self.name,
                    " out of range [",
                    self.min.text.as_str(),
                    ", ",
                    self.max.text.as_str(),
                    "]: got ",
                    v.text.as_str(),
                ),
            )
        }
    }

    /// Whether a fraction or a frequency takes this value, or why not.
    pub fn check_f64(&self, v: &Float) -> (r: Result<(), String>)
        ensures
            r is Ok <==> within(*self, *v),
            r matches Err(e) ==> e@ == self.name@ + " must be in ["@ + self.min.text@ + ", "@
                + self.max.text@ + "]: got "@ + v.text@,
    {
        if self.holds(v) {
            Ok(())
        } else {
            Err(
                text::cat7(
                    self.name,
                    " must be in [",
                    self.min.text.as_str(),
                    ", ",
                    self.max.text.as_str(),
                    "]: got ",
                    v.text.as_str(),
                ),
            )
        }
    }

    /// Whether a rate takes this value, or why not. Its floor is refused too: a rate
    /// of zero switches the limiter off, which is not done by writing a control.
    pub fn check_rate(&self, v: &Float) -> (r: Result<(), String>)
        ensures
            r is Err <==> rate_refuses(*self, *v),
            r matches Err(e) ==> e@ == (if below_or_at(*v, self.min) {
                self.name@ + " must be > "@ + self.min.text@ + ", got "@ + v.text@
            } else {
                self.name@ + " must be <= "@ + self.max.text@ + ", got "@ + v.text@
            }),
    {
        if v.at_most(&self.min) {
            Err(cat5(self.name, " must be > ", self.min.text.as_str(), ", got ", v.text.as_str()))
        } else if self.max.at_most(v) && !v.at_most(&self.max) {
            Err(cat5(self.name, " must be <= ", self.max.text.as_str(), ", got ", v.text.as_str()))
        } else {
            Ok(())
        }
    }
}

pub open spec fn is_number(f: Float, bits: u64, shown: Seq<char>) -> bool {
    f.bits == bits && f.text@ == shown
}

fn number(bits: u64, shown: &str) -> (r: Float)
    ensures
        is_number(r, bits, shown@),
{
    Float { bits, text: shown.to_owned() }
}

/// The number of fibers of a phase.
pub open spec fn is_concurrency(d: ControlDesc) -> bool {
    &&& d.name@ == "concurrency"@
    &&& d.value_type == ControlValueType::Count
    &&& is_number(d.default, 0x3ff0_0000_0000_0000, "1"@)
    &&& is_number(d.min, 0x3ff0_0000_0000_0000, "1"@)
    &&& is_number(d.max, 0x40f8_6a00_0000_0000, "100000"@)
    &&& d.unit@ == "fibers"@
    &&& d.doc@
        == "Concurrent fibers the executor maintains; re-balanced live on every change."@
    &&& d.declared_when == DeclaredWhen::Always
}

/// The limit on the rate of cycles.
pub open spec fn is_rate(d: ControlDesc) -> bool {
    &&& d.name@ == "rate"@
    &&& d.value_type == ControlValueType::Rate
    &&& is_number(d.default, 0, "0"@)
    &&& is_number(d.min, 0, "0"@)
    &&& is_number(d.max, 0x7ff0_0000_0000_0000, "inf"@)
    &&& d.unit@ == "ops/sec"@
    &&& d.doc@ == "Target cycle rate (ops/sec) enforced by the rate limiter."@
    &&& d.declared_when matches DeclaredWhen::PhaseField(f) && f@ == "rate"@
}

/// The fraction of retried errors that is shown.
pub open spec fn is_exemplar_rate(d: ControlDesc) -> bool {
    &&& d.name@ == "retry_exemplar_rate"@
    &&& d.value_type == ControlValueType::Fraction
    &&& is_number(d.default, 0, "0"@)
    &&& is_number(d.min, 0, "0"@)
    &&& is_number(d.max, 0x3ff0_0000_0000_0000, "1"@)
    &&& d.unit@ == "probability"@
    &&& d.doc@
        == "Fraction of retried op errors sampled to the session log as counter-exemplars (0 = off, 1 = all); moves every op without a pinned retry_exemplar_* param."@
    &&& d.declared_when == DeclaredWhen::Always
}

/// The ceiling on how often retried errors are shown.
pub open spec fn is_exemplar_max_hz(d: ControlDesc) -> bool {
    &&& d.name@ == "retry_exemplar_max_hz"@
    &&& d.value_type == ControlValueType::Frequency
    &&& is_number(d.default, 0x4014_0000_0000_0000, "5"@)
    &&& is_number(d.min, 0, "0"@)
    &&& is_number(d.max, 0x412e_8480_0000_0000, "1000000"@)
    &&& d.unit@ == "events/sec"@
    &&& d.doc@
        == "Ceiling on retry-exemplar emissions per second; excess is squelched and counted, never silent. 0 = uncapped."@
    &&& d.declared_when == DeclaredWhen::Always
}

pub fn concurrency() -> (r: ControlDesc)
    ensures
        is_concurrency(r),
{
    ControlDesc {
        name: "concurrency",
        value_type: ControlValueType::Count,
        default: number(0x3ff0_0000_0000_0000, "1"),
        min: number(0x3ff0_0000_0000_0000, "1"),
        max: number(0x40f8_6a00_0000_0000, "100000"),
        unit: "fibers",
        doc: "Concurrent fibers the executor maintains; re-balanced live on every change.",
        declared_when: DeclaredWhen::Always,
    }
}

pub fn rate() -> (r: ControlDesc)
    ensures
        is_rate(r),
{
    ControlDesc {
        name: "rate",
        value_type: ControlValueType::Rate,
        default: number(0, "0"),
        min: number(0, "0"),
        max: number(0x7ff0_0000_0000_0000, "inf"),
        unit: "ops/sec",
        doc: "Target cycle rate (ops/sec) enforced by the rate limiter.",
        declared_when: DeclaredWhen::PhaseField("rate"),
    }
}

pub fn retry_exemplar_rate() -> (r: ControlDesc)
    ensures
        is_exemplar_rate(r),
{
    ControlDesc {
        name: "retry_exemplar_rate",
        value_type: ControlValueType::Fraction,
        default: number(0, "0"),
        min: number(0, "0"),
        max: number(0x3ff0_0000_0000_0000, "1"),
        unit: "probability",
        doc: "Fraction of retried op errors sampled to the session log as counter-exemplars (0 = off, 1 = all); moves every op without a pinned retry_exemplar_* param.",
        declared_when: DeclaredWhen::Always,
    }
}

pub fn retry_exemplar_max_hz() -> (r: ControlDesc)
    ensures
        is_exemplar_max_hz(r),
{
    ControlDesc {
        name: "retry_exemplar_max_hz",
        value_type: ControlValueType::Frequency,
        default: number(0x4014_0000_0000_0000, "5"),
        min: number(0, "0"),
        max: number(0x412e_8480_0000_0000, "1000000"),
        unit: "events/sec",
        doc: "Ceiling on retry-exemplar emissions per second; excess is squelched and counted, never silent. 0 = uncapped.",
        declared_when: DeclaredWhen::Always,
    }
}

/// The controls that are there whatever adapters are.
pub fn core_controls() -> (r: Vec<ControlDesc>)
    ensures
        r@.len() == 4,
        is_concurrency(r@[0]),
        is_rate(r@[1]),
        is_exemplar_rate(r@[2]),
        is_exemplar_max_hz(r@[3]),
{
    let mut r: Vec<ControlDesc> = Vec::new();
    r.push(concurrency());
    r.push(rate());
    r.push(retry_exemplar_rate());
    r.push(retry_exemplar_max_hz());
    r
}

/// Where a control comes from.
#[derive(Debug, Clone, PartialEq, Eq)]
pub enum ControlOwner {
    Core,
    /// From the adapter with this name.
    Adapter(String),
}

impl ControlOwner {
    pub fn text(&self) -> (r: String)
        ensures
            r@ == (match *self {
                ControlOwner::Core => "core"@,
                ControlOwner::Adapter(name) => "adapter:"@ + name@,
            }),
    {
        match self {
            ControlOwner::Core => "core".to_owned(),
            ControlOwner::Adapter(name) => cat2("adapter:", name.as_str()),
        }
    }
}

/// The controls of an adapter.
pub struct AdapterControls {
    /// The names that the adapter answers to.
    pub names: Vec<String>,
    pub controls: Vec<ControlDesc>,
}

/// A control and where it comes from.
pub struct ControlEntry<'a> {
    pub desc: &'a ControlDesc,
    pub owner: ControlOwner,
}

/// The name by which an adapter owns its controls.
pub open spec fn owner_name(a: AdapterControls) -> Seq<char> {
    if a.names@.len() > 0 {
        a.names@[0]@
    } else {
        "?"@
    }
}

/// Each control with its owner: no name for the core.
pub open spec fn entry_models(v: Seq<ControlEntry<'_>>) -> Seq<(ControlDesc, Option<Seq<char>>)> {
    v.map_values(
        |e: ControlEntry<'_>|
            (
                *e.desc,
                match e.owner {
                    ControlOwner::Core => None,
                    ControlOwner::Adapter(name) => Some(name@),
                },
            ),
    )
}

pub open spec fn owned(
    controls: Seq<ControlDesc>,
    owner: Option<Seq<char>>,
) -> Seq<(ControlDesc, Option<Seq<char>>)> {
    controls.map_values(|d: ControlDesc| (d, owner))
}

/// The controls of the adapters, one adapter after another.
pub open spec fn adapter_entries(adapters: Seq<AdapterControls>) -> Seq<
    (ControlDesc, Option<Seq<char>>),
>
    decreases adapters.len(),
{
    if adapters.len() == 0 {
        Seq::empty()
    } else {
        adapter_entries(adapters.drop_last()) + owned(
            adapters.last().controls@,
            Some(owner_name(adapters.last())),
        )
    }
}

fn push_owned<'a>(
    out: &mut Vec<ControlEntry<'a>>,
    controls: &'a Vec<ControlDesc>,
    adapter: Option<&String>,
)
    ensures
        entry_models(final(out)@) == entry_models(old(out)@) + owned(
            controls@,
            match adapter {
                Some(name) => Some(name@),
                None => None,
            },
        ),
{
    let ghost before = entry_models(out@);
    let ghost owner = match adapter {
        Some(name) => Some(name@),
        None => None,
    };
    let mut i: usize = 0;
    assert(before + owned(controls@, owner).take(0) =~= before);
    while i < controls.len()
        invariant
            i <= controls@.len(),
            owner == (match adapter {
                Some(name) => Some(name@),
                None => None,
            }),
            entry_models(out@) == before + owned(controls@, owner).take(i as int),
        decreases controls@.len() - i,
    {
        let ghost now = out@;
        let entry = ControlEntry {
            desc: &controls[i],
            owner: match adapter {
                Some(name) => ControlOwner::Adapter(name.clone()),
                None => ControlOwner::Core,
            },
        };
        out.push(entry);
        assert(entry_models(out@) =~= entry_models(now).push((controls@[i as int], owner)));
        assert(owned(controls@, owner).take(i + 1) =~= owned(controls@, owner).take(i as int).push(
            (controls@[i as int], owner),
        ));
        assert(entry_models(now).push((controls@[i as int], owner)) =~= before + owned(
            controls@,
            owner,
        ).take(i + 1));
        i += 1;
    }
    assert(owned(controls@, owner).take(i as int) =~= owned(controls@, owner));
}

/// Every control that there can be: the core ones, then those of each adapter.
pub fn all_controls<'a>(core: &'a Vec<ControlDesc>, adapters: &'a Vec<AdapterControls>) -> (r: Vec<
    ControlEntry<'a>,
>)
    ensures
        entry_models(r@) == owned(core@, None) + adapter_entries(adapters@),
{
    let mut out: Vec<ControlEntry<'a>> = Vec::new();
    assert(entry_models(out@) + owned(core@, None) =~= owned(core@, None));
    push_owned(&mut out, core, None);
    let mut i: usize = 0;
    assert(adapters@.take(0).len() == 0);
    assert(owned(core@, None) + adapter_entries(adapters@.take(0)) =~= owned(core@, None));
    while i < adapters.len()
        invariant
            i <= adapters@.len(),
            entry_models(out@) == owned(core@, None) + adapter_entries(adapters@.take(i as int)),
        decreases adapters@.len() - i,
    {
        assert(adapters@.take(i + 1).drop_last() =~= adapters@.take(i as int));
        let unnamed = "?".to_owned();
        let name = if adapters[i].names.len() > 0 {
            &adapters[i].names[0]
        } else {
            &unnamed
        };
        push_owned(&mut out, &adapters[i].controls, Some(name));
        assert(owned(core@, None) + adapter_entries(adapters@.take(i + 1)) =~= owned(core@, None)
            + adapter_entries(adapters@.take(i as int)) + owned(
            adapters@[i as int].controls@,
            Some(owner_name(adapters@[i as int])),
        ));
        i += 1;
    }
    assert(adapters@.take(i as int) =~= adapters@);
    out
}

/// The default of each core control but the rate is a value that the control
/// takes. The default of the rate is none: it stands for no limiter.
pub proof fn law_defaults_are_taken(d: ControlDesc)
    requires
        is_concurrency(d) || is_exemplar_rate(d) || is_exemplar_max_hz(d) || is_rate(d),
    ensures
        !is_rate(d) ==> within(d, d.default),
        is_rate(d) ==> rate_refuses(d, d.default),
{
    reveal_strlit("rate");
    reveal_strlit("concurrency");
    reveal_strlit("retry_exemplar_rate");
    reveal_strlit("retry_exemplar_max_hz");
    assert("rate"@.len() == 4 && "concurrency"@.len() == 11 && "retry_exemplar_rate"@.len() == 19
        && "retry_exemplar_max_hz"@.len() == 21);
}

/// What a control takes has no gaps: between two values that it takes there is
/// none that it refuses.
pub proof fn law_taken_values_have_no_gaps(d: ControlDesc, a: Float, v: Float, b: Float)
    requires
        within(d, a),
        within(d, b),
        value::finite_bits(v.bits),
        below_or_at(a, v),
        below_or_at(v, b),
    ensures
        within(d, v),
{
}

/// A rate with a floor of zero and no greatest value takes exactly the numbers
/// above zero.
pub proof fn law_catalogued_rate_takes_positive(d: ControlDesc, v: Float)
    requires
        is_rate(d),
        !value::nan_bits(v.bits),
    ensures
        rate_refuses(d, v) <==> value::place_of(v.bits) <= 0,
{
    let top: u64 = 0x7ff0_0000_0000_0000;
    assert(value::place_of(top) == 0x7ff0_0000_0000_0000);
    assert(value::place_of(v.bits) <= 0x7ff0_0000_0000_0000);
}

/// A control takes both of its bounds, where they are finite and in order, and nothing
/// below the lower or above the upper one; what is no finite number it never takes.
pub proof fn law_control_takes_its_range(d: ControlDesc, v: Float)
    requires
        !value::nan_bits(d.min.bits),
        !value::nan_bits(d.max.bits),
    ensures
        within(d, v) ==> value::finite_bits(v.bits),
        value::finite_bits(v.bits) ==> (within(d, v) <==> value::place_of(d.min.bits)
            <= value::place_of(v.bits) <= value::place_of(d.max.bits)),
{
    value::law_finite_doubles(v.bits);
}

/// A rate must be above its lower bound and not above its upper one.
pub proof fn law_rate_lies_above_its_bound(d: ControlDesc, v: Float)
    requires
        !value::nan_bits(d.min.bits),
        !value::nan_bits(d.max.bits),
        !value::nan_bits(v.bits),
    ensures
        !rate_refuses(d, v) <==> value::place_of(d.min.bits) < value::place_of(v.bits)
            <= value::place_of(d.max.bits),
{
}

/// All controls are listed: those of the core first, then those of the adapters in order,
/// each with the first name of its adapter.
pub proof fn law_controls_are_listed_by_owner(
    a: Seq<AdapterControls>,
    b: Seq<AdapterControls>,
    one: AdapterControls,
    i: int,
)
    requires
        0 <= i < one.controls@.len(),
        one.names@.len() > 0,
    ensures
        adapter_entries(a + b) == adapter_entries(a) + adapter_entries(b),
        adapter_entries(seq![one]).len() == one.controls@.len(),
        adapter_entries(seq![one])[i] == (one.controls@[i], Some(one.names@[0]@)),
    decreases b.len(),
{
    if b.len() == 0 {
        assert(a + b =~= a);
        assert(adapter_entries(a) + adapter_entries(b) =~= adapter_entries(a));
    } else {
        assert((a + b).drop_last() =~= a + b.drop_last());
        law_controls_are_listed_by_owner(a, b.drop_last(), one, i);
        assert(adapter_entries(a + b) =~= adapter_entries(a) + adapter_entries(b));
    }
    assert(seq![one].drop_last() =~= Seq::<AdapterControls>::empty());
    assert(adapter_entries(seq![one].drop_last()).len() == 0);
}

/// Controls of an adapter are listed under the first of its names.
pub proof fn law_owner_is_the_first_name(a: AdapterControls)
    ensures
        a.names@.len() > 0 ==> owner_name(a) == a.names@[0]@,
        a.names@.len() == 0 ==> owner_name(a) == "?"@,
{
}

/// What the catalogued controls take: a concurrency from one to a hundred thousand, a
/// fraction from zero to one, a ceiling from zero to a million; a run starts with one fiber,
/// without sampling, and with at most five samples a second.
pub proof fn law_catalogued_ranges(d: ControlDesc, v: Float)
    requires
        value::finite_bits(v.bits),
    ensures
        is_concurrency(d) ==> (within(d, v) <==> value::ONE_BITS <= value::place_of(v.bits)
            <= 0x40f8_6a00_0000_0000) && d.default.bits == value::ONE_BITS && d.declared_when
            == DeclaredWhen::Always && d.value_type == ControlValueType::Count,
        is_exemplar_rate(d) ==> (within(d, v) <==> 0 <= value::place_of(v.bits)
            <= value::ONE_BITS) && d.default.bits == 0 && d.declared_when == DeclaredWhen::Always
            && d.value_type == ControlValueType::Fraction,
        is_exemplar_max_hz(d) ==> (within(d, v) <==> 0 <= value::place_of(v.bits)
            <= 0x412e_8480_0000_0000) && d.default.bits == 0x4014_0000_0000_0000 && d.declared_when
            == DeclaredWhen::Always && d.value_type == ControlValueType::Frequency,
        is_rate(d) ==> (d.declared_when matches DeclaredWhen::PhaseField(f) && f@ == "rate"@)
            && d.value_type == ControlValueType::Rate,
{
    value::law_finite_doubles(v.bits);
}

/// Each catalogued control goes by its own name and unit.
pub proof fn law_catalogued_names(d: ControlDesc)
    ensures
        is_concurrency(d) ==> d.name@ == "concurrency"@ && d.unit@ == "fibers"@,
        is_rate(d) ==> d.name@ == "rate"@ && d.unit@ == "ops/sec"@,
        is_exemplar_rate(d) ==> d.name@ == "retry_exemplar_rate"@ && d.unit@ == "probability"@,
        is_exemplar_max_hz(d) ==> d.name@ == "retry_exemplar_max_hz"@ && d.unit@ == "events/sec"@,
{
}

} // verus!
