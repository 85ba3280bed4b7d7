//! Samples of errors that a retry absorbs.
//!
//! A retried error is otherwise visible only as a count. A sample of them is
//! shown: a fraction is picked by a fixed function of cycle and attempt, and a
//! ceiling on their frequency holds bursts back. What is held back is counted
//! and reported with the next sample. Without sampling, the first error of each
//! class is still shown once.

use vstd::prelude::*;

use crate::observer::{EventCategory, EventTag, LogEntry, LogLevel};
use crate::text;
use crate::text::{cat2, cat3, cat6, cat8, str_eq, u64_text};
use crate::value;
use crate::value::Float;

verus! {

/// One sampled error.
pub struct ExecExemplar<'a> {
    pub op_name: &'a str,
    pub cycle: u64,
    /// The attempt that failed, counted from one.
    pub attempt_no: u32,
    /// How many attempts the op has in all.
    pub tries_budget: u32,
    pub error_class: &'a str,
    pub message: &'a str,
    pub will_retry: bool,
    /// How many samples were held back since the last one.
    pub squelched_since_last: u64,
}

/// The line that shows a sample.
pub open spec fn exemplar_line(ex: ExecExemplar<'_>) -> Seq<char> {
    let head = "retry exemplar: op '"@ + ex.op_name@ + "' attempt "@ + text::decimal(
        ex.attempt_no as nat,
    ) + "/"@ + text::decimal(ex.tries_budget as nat) + " cycle "@ + text::decimal(ex.cycle as nat);
    let note = if ex.will_retry {
        " (retrying): ["@
    } else {
        " (terminal): ["@
    };
    let squelched = if ex.squelched_since_last > 0 {
        " (+"@ + text::decimal(ex.squelched_since_last as nat) + " squelched)"@
    } else {
        Seq::empty()
    };
    head + note + ex.error_class@ + "] "@ + ex.message@ + squelched
}

/// The line that shows a sample.
pub fn render_exemplar(ex: &ExecExemplar<'_>) -> (r: String)
    ensures
        r@ == exemplar_line(*ex),
{
    let head = cat8(
        "retry exemplar: op '",
        ex.op_name,
        "' attempt ",
        u64_text(ex.attempt_no as u64).as_str(),
        "/",
        u64_text(ex.tries_budget as u64).as_str(),
        " cycle ",
        u64_text(ex.cycle).as_str(),
    );
    let note = if ex.will_retry {
        " (retrying): ["
    } else {
        " (terminal): ["
    };
    let squelched = if ex.squelched_since_last > 0 {
        cat3(" (+", u64_text(ex.squelched_since_last).as_str(), " squelched)")
    } else {
        String::new()
    };
    assert(ex.squelched_since_last == 0 ==> squelched@ =~= Seq::<char>::empty());
    cat6(head.as_str(), note, ex.error_class, "] ", ex.message, squelched.as_str())
}

/// A warning in flight about retries.
pub open spec fn is_retry_entry(e: LogEntry, message: Seq<char>) -> bool {
    &&& e.level == LogLevel::Warn
    &&& e.tag == (EventTag { attached: None, category: EventCategory::Retry })
    &&& e.message@ == message
}

/// The event by which a sample is submitted.
pub fn submit_exemplar(ex: &ExecExemplar<'_>) -> (r: LogEntry)
    ensures
        is_retry_entry(r, exemplar_line(*ex)),
{
    LogEntry {
        level: LogLevel::Warn,
        tag: EventTag::in_flight(EventCategory::Retry),
        message: render_exemplar(ex),
    }
}

/// The line that shows the first retried error of a class.
pub open spec fn advisory_line(
    op_name: Seq<char>,
    cycle: u64,
    tries_budget: u32,
    error_class: Seq<char>,
    message: Seq<char>,
) -> Seq<char> {
    "retry advisory: op '"@ + op_name + "' hit its first retryable ["@ + error_class
        + "] at cycle "@ + text::decimal(cycle as nat) + ": "@ + message + (
    " — further occurrences are absorbed by the tries budget ("@ + text::decimal(
        tries_budget as nat,
    )
        + ") and appear only as att:%/r: chips and attempt_* metrics; sample live specimens via the retry_exemplar_rate control, or silence this line with retry_advisory: off"@)
}

/// The line that shows the first retried error of a class, and what can be done
/// about it.
pub fn render_advisory(
    op_name: &str,
    cycle: u64,
    tries_budget: u32,
    error_class: &str,
    message: &str,
) -> (r: String)
    ensures
        r@ == advisory_line(op_name@, cycle, tries_budget, error_class@, message@),
{
    let head = cat8(
        "retry advisory: op '",
        op_name,
        "' hit its first retryable [",
        error_class,
        "] at cycle ",
        u64_text(cycle).as_str(),
        ": ",
        message,
    );
    let tail = cat3(
        " — further occurrences are absorbed by the tries budget (",
        u64_text(tries_budget as u64).as_str(),
        ") and appear only as att:%/r: chips and attempt_* metrics; sample live specimens via the retry_exemplar_rate control, or silence this line with retry_advisory: off",
    );
    cat2(head.as_str(), tail.as_str())
}

/// What a wrapper that sees retried errors submits. The methods are complete as
/// they stand.
pub trait ExecEventSubscriber {
    /// The event by which a sample is submitted.
    fn submit_exemplar(&self, ex: &ExecExemplar<'_>) -> (r: LogEntry)
        default_ensures
            is_retry_entry(r, exemplar_line(*ex)),
    {
        self::submit_exemplar(ex)
    }

    /// The event by which the first retried error of a class is submitted.
    fn submit_advisory(
        &self,
        op_name: &str,
        cycle: u64,
        tries_budget: u32,
        error_class: &str,
        message: &str,
    ) -> (r: LogEntry)
        default_ensures
            is_retry_entry(
                r,
                advisory_line(op_name@, cycle, tries_budget, error_class@, message@),
            ),
    {
        LogEntry {
            level: LogLevel::Warn,
            tag: EventTag::in_flight(EventCategory::Retry),
            message: render_advisory(op_name, cycle, tries_budget, error_class, message),
        }
    }
}

/// How many error classes a phase is advised of.
pub const ADVISORY_CAP: usize = 3;

/// Lets the first error of each class through, up to a number of classes.
pub struct AdvisoryGate {
    seen: Vec<String>,
}

impl View for AdvisoryGate {
    type V = Seq<Seq<char>>;

    /// The classes that were let through, in order.
    closed spec fn view(&self) -> Seq<Seq<char>> {
        text::views(self.seen@)
    }
}

/// A class is let through when it is new and there is room for it.
pub open spec fn lets_through(seen: Seq<Seq<char>>, class: Seq<char>) -> bool {
    !seen.contains(class) && seen.len() < ADVISORY_CAP
}

/// The classes let through after a sighting.
pub open spec fn after_sighting(seen: Seq<Seq<char>>, class: Seq<char>) -> Seq<Seq<char>> {
    if lets_through(seen, class) {
        seen.push(class)
    } else {
        seen
    }
}

impl Default for AdvisoryGate {
    fn default() -> (r: Self)
        ensures
            r@ == Seq::<Seq<char>>::empty(),
    {
        Self::new()
    }
}

impl AdvisoryGate {
    pub fn new() -> (r: Self)
        ensures
            r@ == Seq::<Seq<char>>::empty(),
    {
        let r = AdvisoryGate { seen: Vec::new() };
        assert(r@ =~= Seq::<Seq<char>>::empty());
        r
    }

    /// Whether this sighting of an error class is let through.
    pub fn first_sighting(&mut self, class: &str) -> (r: bool)
        ensures
            r == lets_through(old(self)@, class@),
            final(self)@ == after_sighting(old(self)@, class@),
    {
        let ghost before = self@;
        let mut i: usize = 0;
        while i < self.seen.len()
            invariant
                i <= self.seen@.len(),
                self@ == before,
                before == old(self)@,
                forall|k: int| 0 <= k < i ==> #[trigger] before[k] != class@,
            decreases self.seen@.len() - i,
        {
            assert(before[i as int] == self.seen@[i as int]@);
            if str_eq(self.seen[i].as_str(), class) {
                assert(before.contains(class@));
                return false;
            }
            i += 1;
        }
        assert(before.len() == self.seen@.len());
        if self.seen.len() >= ADVISORY_CAP {
            return false;
        }
        self.seen.push(class.to_owned());
        assert(self@ =~= before.push(class@));
        true
    }
}

/// The classes let through after a series of sightings.
pub open spec fn let_through(classes: Seq<Seq<char>>) -> Seq<Seq<char>>
    decreases classes.len(),
{
    if classes.len() == 0 {
        Seq::empty()
    } else {
        after_sighting(let_through(classes.drop_last()), classes.last())
    }
}

/// Over any series of sightings each class is let through at most once, no more
/// classes than the cap are, and only classes that were seen.
pub proof fn law_advisories_are_bounded(classes: Seq<Seq<char>>)
    ensures
        let_through(classes).no_duplicates(),
        let_through(classes).len() <= ADVISORY_CAP,
        forall|c: Seq<char>| #[trigger] let_through(classes).contains(c) ==> classes.contains(c),
    decreases classes.len(),
{
    if classes.len() > 0 {
        let init = classes.drop_last();
        law_advisories_are_bounded(init);
        let before = let_through(init);
        let now = let_through(classes);
        assert forall|c: Seq<char>| #[trigger] now.contains(c) implies classes.contains(c) by {
            let k = now.index_of(c);
            if k < before.len() {
                assert(before[k] == c);
                assert(before.contains(c));
                let j = init.index_of(c);
                assert(classes[j] == c);
            } else {
                assert(classes[classes.len() - 1] == c);
            }
        }
    }
}

/// A class is let through at its first sighting while fewer classes than the cap
/// were seen before it.
pub proof fn law_first_classes_are_advised(classes: Seq<Seq<char>>, class: Seq<char>)
    requires
        !classes.contains(class),
        let_through(classes).len() < ADVISORY_CAP,
    ensures
        lets_through(let_through(classes), class),
{
    law_advisories_are_bounded(classes);
}

/// A fixed scrambling of 64 bits.
pub open spec fn scrambled(z: u64) -> u64 {
    let a = z.wrapping_add(0x9E37_79B9_7F4A_7C15);
    let b = (a ^ (a >> 30)).wrapping_mul(0xBF58_476D_1CE4_E5B9);
    let c = (b ^ (b >> 27)).wrapping_mul(0x94D0_49BB_1331_11EB);
    c ^ (c >> 31)
}

pub fn splitmix64(z: u64) -> (r: u64)
    ensures
        r == scrambled(z),
{
    let a: u64 = z.wrapping_add(0x9E37_79B9_7F4A_7C15);
    let b: u64 = (a ^ (a >> 30)).wrapping_mul(0xBF58_476D_1CE4_E5B9);
    let c: u64 = (b ^ (b >> 27)).wrapping_mul(0x94D0_49BB_1331_11EB);
    c ^ (c >> 31)
}

/// What is sampled, and how often.
#[derive(Debug, Clone, Copy, PartialEq, Eq, Structural)]
pub struct ExemplarConfig {
    /// The fraction of errors that are candidates, by the bits of a double from zero to
    /// one. Zero switches sampling off, and one makes every error a candidate.
    pub rate: u64,
    /// The least time between two samples, in nanoseconds. Zero sets no ceiling.
    pub min_interval_nanos: u64,
}

/// A number above zero that is no infinity.
pub open spec fn is_positive(f: Float) -> bool {
    value::finite_bits(f.bits) && value::place_of(f.bits) > 0
}

fn positive(f: &Float) -> (r: bool)
    ensures
        r == is_positive(*f),
{
    let zero = Float { bits: 0, text: String::new() };
    f.is_finite() && !f.at_most(&zero)
}

/// The fraction that a number stands for: none where it is not above zero or no number,
/// and all from one on.
pub open spec fn fraction_of(rate: Float) -> u64 {
    if !is_positive(rate) {
        0
    } else if rate.bits >= value::ONE_BITS {
        value::ONE_BITS
    } else {
        rate.bits
    }
}

/// The interval of a ceiling. `nanos` is its inverse; it counts for a ceiling above
/// zero. Anything else is no ceiling.
pub open spec fn interval_for(max_hz: Float, nanos: u64) -> u64 {
    if is_positive(max_hz) {
        nanos
    } else {
        0
    }
}

impl ExemplarConfig {
    /// The configuration of a sampling fraction and a ceiling on samples per second.
    pub fn new(rate: &Float, max_hz: &Float, nanos: u64) -> (r: Self)
        ensures
            r.rate == fraction_of(*rate),
            r.min_interval_nanos == interval_for(*max_hz, nanos),
    {
        let mut r = ExemplarConfig { rate: 0, min_interval_nanos: 0 };
        r.set_rate(rate);
        r.set_max_hz(max_hz, nanos);
        r
    }

    /// Takes another sampling fraction. The ceiling stays.
    pub fn set_rate(&mut self, rate: &Float)
        ensures
            *final(self) == (ExemplarConfig { rate: fraction_of(*rate), ..*old(self) }),
    {
        self.rate = if !positive(rate) {
            0
        } else if rate.bits >= value::ONE_BITS {
            value::ONE_BITS
        } else {
            rate.bits
        };
    }

    /// Takes another ceiling. The sampling fraction stays.
    pub fn set_max_hz(&mut self, max_hz: &Float, nanos: u64)
        ensures
            *final(self) == (ExemplarConfig {
                min_interval_nanos: interval_for(*max_hz, nanos),
                ..*old(self)
            }),
    {
        self.min_interval_nanos = if positive(max_hz) {
            nanos
        } else {
            0
        };
    }

    pub fn min_interval(&self) -> (r: u64)
        ensures
            r == self.min_interval_nanos,
    {
        self.min_interval_nanos
    }
}

/// The roll of an attempt: always the same for the same cycle and attempt.
pub open spec fn roll_of(cycle: u64, attempt_no: u32) -> u64 {
    scrambled(cycle ^ ((attempt_no as u64) << 48) ^ 0xE0E0_5EED)
}

/// What a sampler remembers.
pub ghost struct SamplerModel {
    /// When the last sample was let through, plus one; zero for never.
    pub last: u64,
    /// How many candidates were held back since.
    pub squelched: u64,
}

/// An error that a sampler decides on.
pub ghost struct Caught {
    pub config: ExemplarConfig,
    pub cycle: u64,
    pub attempt_no: u32,
    /// The time since the sampler was made, in nanoseconds.
    pub elapsed: u64,
}

/// An error is a candidate when its roll is a lesser share of all rolls than the
/// sampling fraction. At one every error is, whatever its share is rounded to.
pub open spec fn is_candidate(c: Caught) -> bool {
    c.config.rate >= value::ONE_BITS || value::share_is_below(
        roll_of(c.cycle, c.attempt_no),
        c.config.rate,
    )
}

/// A candidate comes too soon after the last sample.
pub open spec fn too_soon(s: SamplerModel, c: Caught) -> bool {
    c.config.min_interval_nanos != 0 && s.last != 0 && (if c.elapsed + 1 >= s.last {
        c.elapsed + 1 - s.last
    } else {
        0
    }) < c.config.min_interval_nanos
}

/// What a sampler decides, and what it remembers then: nothing happens to an
/// error that is no candidate, one that comes too soon is counted, and any other
/// is let through with the count, which starts again.
pub open spec fn decided(s: SamplerModel, c: Caught) -> (SamplerModel, Option<u64>) {
    if !is_candidate(c) {
        (s, None)
    } else if too_soon(s, c) {
        (SamplerModel { squelched: s.squelched.wrapping_add(1), ..s }, None)
    } else {
        (SamplerModel { last: (c.elapsed + 1) as u64, squelched: 0 }, Some(s.squelched))
    }
}

/// Picks the errors that are shown.
pub struct ExemplarSampler {
    last_shown: u64,
    squelched: u64,
}

impl View for ExemplarSampler {
    type V = SamplerModel;

    closed spec fn view(&self) -> SamplerModel {
        SamplerModel { last: self.last_shown, squelched: self.squelched }
    }
}

impl ExemplarSampler {
    /// A sampler that has let nothing through yet.
    pub fn shared() -> (r: Self)
        ensures
            r@ == (SamplerModel { last: 0, squelched: 0 }),
    {
        ExemplarSampler { last_shown: 0, squelched: 0 }
    }

    /// Whether anything can be sampled at all.
    pub fn enabled(&self, config: &ExemplarConfig) -> (r: bool)
        ensures
            r == (config.rate > 0),
    {
        config.rate > 0
    }

    /// How many candidates were held back and are not reported yet.
    pub fn squelched(&self) -> (r: u64)
        ensures
            r == self@.squelched,
    {
        self.squelched
    }

    /// Decides on an error. One that is let through reports how many were held
    /// back before it.
    pub fn sample(&mut self, config: &ExemplarConfig, cycle: u64, attempt_no: u32, elapsed: u64) -> (r:
        Option<u64>)
        requires
            elapsed < u64::MAX,
        ensures
            (final(self)@, r) == decided(
                old(self)@,
                (Caught { config: *config, cycle, attempt_no, elapsed }),
            ),
    {
        if config.rate == 0 {
            assert(value::magnitude(0) == 0) by (nonlinear_arith);
            return None;
        }
        let roll: u64 = splitmix64(cycle ^ ((attempt_no as u64) << 48) ^ 0xE0E0_5EED);
        if config.rate < value::ONE_BITS && !value::is_share_below(roll, config.rate) {
            return None;
        }
        let now: u64 = elapsed + 1;
        let min_interval: u64 = config.min_interval();
        if min_interval != 0 && self.last_shown != 0 && (now < self.last_shown || now
            - self.last_shown < min_interval) {
            self.squelched = self.squelched.wrapping_add(1);
            return None;
        }
        self.last_shown = now;
        let held = self.squelched;
        self.squelched = 0;
        Some(held)
    }

    /// What is said of a sampler that is given up: the candidates that it held
    /// back and never reported.
    pub fn retired(&self) -> (r: Option<String>)
        ensures
            r is Some <==> self@.squelched > 0,
            r matches Some(t) ==> t@ == "exemplar sampler retired with "@ + text::decimal(
                self@.squelched as nat,
            ) + " squelched admission(s) unreported (frequency ceiling)"@,
    {
        if self.squelched > 0 {
            Some(
                cat3(
                    "exemplar sampler retired with ",
                    u64_text(self.squelched).as_str(),
                    " squelched admission(s) unreported (frequency ceiling)",
                ),
            )
        } else {
            None
        }
    }
}

/// What a sampler remembers after a series of errors.
pub open spec fn remembered(caught: Seq<Caught>) -> SamplerModel
    decreases caught.len(),
{
    if caught.len() == 0 {
        SamplerModel { last: 0, squelched: 0 }
    } else {
        decided(remembered(caught.drop_last()), caught.last()).0
    }
}

/// The sum of the counts that the samples of a series reported.
pub open spec fn reported(caught: Seq<Caught>) -> int
    decreases caught.len(),
{
    if caught.len() == 0 {
        0
    } else {
        reported(caught.drop_last()) + match decided(
            remembered(caught.drop_last()),
            caught.last(),
        ).1 {
            Some(n) => n as int,
            None => 0int,
        }
    }
}

/// How many candidates of a series were held back.
pub open spec fn held_back(caught: Seq<Caught>) -> int
    decreases caught.len(),
{
    if caught.len() == 0 {
        0
    } else {
        held_back(caught.drop_last()) + (if is_candidate(caught.last()) && too_soon(
            remembered(caught.drop_last()),
            caught.last(),
        ) {
            1int
        } else {
            0
        })
    }
}

/// Nothing is dropped in silence: what the samples reported, together with what
/// the sampler still remembers, is exactly what was held back.
pub proof fn law_held_back_is_counted(caught: Seq<Caught>)
    requires
        caught.len() <= u64::MAX,
    ensures
        reported(caught) + remembered(caught).squelched == held_back(caught),
        0 <= remembered(caught).squelched <= held_back(caught) <= caught.len(),
    decreases caught.len(),
{
    if caught.len() > 0 {
        let init = caught.drop_last();
        law_held_back_is_counted(init);
        lemma_reported_nonneg(init);
        let s = remembered(init);
        if is_candidate(caught.last()) && too_soon(s, caught.last()) {
            assert(s.squelched < u64::MAX);
        }
    }
}

proof fn lemma_reported_nonneg(caught: Seq<Caught>)
    ensures
        reported(caught) >= 0,
    decreases caught.len(),
{
    if caught.len() > 0 {
        lemma_reported_nonneg(caught.drop_last());
    }
}

/// What the sampler decided on the error at position `i` of a series.
pub open spec fn shown(caught: Seq<Caught>, i: int) -> Option<u64> {
    decided(remembered(caught.take(i)), caught[i]).1
}

/// The errors of a series are caught under a configuration that takes everything and
/// sets no ceiling.
pub open spec fn takes_all(caught: Seq<Caught>) -> bool {
    forall|i: int|
        0 <= i < caught.len() ==> (#[trigger] caught[i]).config.rate >= value::ONE_BITS
            && caught[i].config.min_interval_nanos == 0
}

/// At the full rate and without a ceiling every error is let through, and none is
/// ever held back.
pub proof fn law_full_rate_takes_all(caught: Seq<Caught>)
    requires
        takes_all(caught),
    ensures
        forall|i: int| 0 <= i < caught.len() ==> #[trigger] shown(caught, i) == Some(0u64),
        remembered(caught).squelched == 0,
    decreases caught.len(),
{
    if caught.len() > 0 {
        let init = caught.drop_last();
        assert forall|i: int| 0 <= i < init.len() implies (#[trigger] init[i]).config.rate
            >= value::ONE_BITS && init[i].config.min_interval_nanos == 0 by {
            assert(init[i] == caught[i]);
        }
        law_full_rate_takes_all(init);
        let last = caught[caught.len() - 1];
        assert(last.config.rate >= value::ONE_BITS);
        assert forall|i: int| 0 <= i < caught.len() implies #[trigger] shown(caught, i) == Some(
            0u64,
        ) by {
            if i < init.len() {
                assert(caught.take(i) =~= init.take(i));
                assert(shown(init, i) == Some(0u64));
            } else {
                assert(caught.take(i) =~= init);
            }
        }
    }
}

/// A sample reports exactly the candidates that were held back since the sample
/// before it, and the first sample of a series reports none. `from` is where the
/// errors after the sample before begin.
pub proof fn law_sample_reports_held_back(caught: Seq<Caught>, from: int, c: Caught, n: u64)
    requires
        caught.len() <= u64::MAX,
        0 <= from <= caught.len(),
        from > 0 ==> shown(caught, from - 1) is Some,
        forall|k: int| from <= k < caught.len() ==> #[trigger] shown(caught, k) is None,
        decided(remembered(caught), c).1 == Some(n),
    ensures
        n == held_back(caught) - held_back(caught.take(from)),
        from == 0 ==> n == 0,
{
    lemma_held_since(caught, from);
}

proof fn lemma_held_since(caught: Seq<Caught>, from: int)
    requires
        caught.len() <= u64::MAX,
        0 <= from <= caught.len(),
        from > 0 ==> shown(caught, from - 1) is Some,
        forall|k: int| from <= k < caught.len() ==> #[trigger] shown(caught, k) is None,
    ensures
        remembered(caught).squelched == held_back(caught) - held_back(caught.take(from)),
        from == 0 ==> remembered(caught).last == 0 && held_back(caught) == 0,
    decreases caught.len(),
{
    assert(caught.take(caught.len() as int) =~= caught);
    if from < caught.len() {
        let init = caught.drop_last();
        assert(caught.take(caught.len() - 1) =~= init);
        assert(caught.take(from) =~= init.take(from));
        if from > 0 {
            assert(init.take(from - 1) =~= caught.take(from - 1));
            assert(shown(init, from - 1) is Some);
        }
        assert forall|k: int| from <= k < init.len() implies #[trigger] shown(init, k) is None by {
            assert(init.take(k) =~= caught.take(k));
            assert(shown(caught, k) is None);
        }
        lemma_held_since(init, from);
        assert(shown(caught, caught.len() - 1) is None);
        law_held_back_is_counted(init);
        lemma_reported_nonneg(init);
    } else if from > 0 {
        assert(caught.take(from - 1) =~= caught.drop_last());
    }
}

proof fn lemma_last_is_later(caught: Seq<Caught>, i: int, d: u64)
    requires
        0 <= i < caught.len(),
        d > 0,
        shown(caught, i) is Some,
        forall|k: int|
            0 <= k < caught.len() ==> (#[trigger] caught[k]).config.min_interval_nanos == d
                && caught[k].elapsed < u64::MAX,
    ensures
        remembered(caught).last >= caught[i].elapsed + 1,
    decreases caught.len(),
{
    let init = caught.drop_last();
    assert(caught.take(caught.len() - 1) =~= init);
    if i < caught.len() - 1 {
        assert(init.take(i) =~= caught.take(i));
        assert forall|k: int| 0 <= k < init.len() implies (
        #[trigger] init[k]).config.min_interval_nanos == d && init[k].elapsed < u64::MAX by {
            assert(init[k] == caught[k]);
        }
        lemma_last_is_later(init, i, d);
    }
    assert(caught.last() == caught[caught.len() - 1]);
}

/// Under a ceiling two samples are never closer than its interval.
pub proof fn law_samples_keep_their_distance(caught: Seq<Caught>, i: int, j: int, d: u64)
    requires
        0 <= i < j < caught.len(),
        shown(caught, i) is Some,
        shown(caught, j) is Some,
        d > 0,
        forall|k: int|
            0 <= k < caught.len() ==> (#[trigger] caught[k]).config.min_interval_nanos == d
                && caught[k].elapsed < u64::MAX,
    ensures
        caught[j].elapsed - caught[i].elapsed >= d,
{
    let part = caught.take(j);
    assert(part.take(i) =~= caught.take(i));
    assert forall|k: int| 0 <= k < part.len() implies (#[trigger] part[k]).config.min_interval_nanos
        == d && part[k].elapsed < u64::MAX by {
        assert(part[k] == caught[k]);
    }
    lemma_last_is_later(part, i, d);
}

/// Without a ceiling every candidate is shown, whatever came before, and which
/// errors are candidates depends on cycle and attempt alone.
pub proof fn law_sampling_replays(s: SamplerModel, t: SamplerModel, c: Caught, d: Caught)
    requires
        c.config == d.config,
        c.config.min_interval_nanos == 0,
        c.cycle == d.cycle,
        c.attempt_no == d.attempt_no,
    ensures
        decided(s, c).1 is Some <==> decided(t, d).1 is Some,
{
}

/// Raising the sampling fraction drops no sample: without a ceiling, what is shown at
/// one rate is shown at every greater one, whatever came before, and at equal rates the
/// same is shown. At a rate that is not above zero nothing is.
pub proof fn law_raising_drops_no_sample(
    a: Float,
    b: Float,
    s: SamplerModel,
    t: SamplerModel,
    c: Caught,
    d: Caught,
)
    requires
        value::finite_bits(a.bits),
        value::finite_bits(b.bits),
        value::place_of(a.bits) <= value::place_of(b.bits),
        c.config.rate == fraction_of(a),
        d.config.rate == fraction_of(b),
        c.config.min_interval_nanos == 0,
        d.config.min_interval_nanos == 0,
        c.cycle == d.cycle,
        c.attempt_no == d.attempt_no,
    ensures
        decided(s, c).1 is Some ==> decided(t, d).1 is Some,
        value::place_of(a.bits) == value::place_of(b.bits) ==> (decided(s, c).1 is Some
            <==> decided(t, d).1 is Some),
        value::place_of(a.bits) <= 0 ==> decided(s, c).1 is None,
{
    assert(fraction_of(a) <= fraction_of(b));
    value::lemma_magnitude_follows_bits(fraction_of(a), fraction_of(b));
    law_rate_switches_sampling(a, s, c);
}

/// Sampling is on exactly when the fraction that was set last is a number above
/// zero, whatever the ceiling; while it is off nothing is shown and nothing is
/// remembered.
pub proof fn law_rate_switches_sampling(rate: Float, s: SamplerModel, c: Caught)
    ensures
        fraction_of(rate) > 0 <==> is_positive(rate),
        c.config.rate == fraction_of(rate) && !is_positive(rate) ==> decided(s, c) == (
            s,
            None::<u64>,
        ),
{
    assert(value::magnitude(0) == 0) by (nonlinear_arith);
}

/// A candidate is shown wherever the least time has passed since the last one that was, or
/// none was shown yet, or no least time is set; what was held back is then told and
/// forgotten.
pub proof fn law_due_candidate_is_shown(s: SamplerModel, c: Caught)
    requires
        is_candidate(c),
        c.elapsed < u64::MAX,
        s.last == 0 || c.config.min_interval_nanos == 0 || c.elapsed - (s.last - 1)
            >= c.config.min_interval_nanos,
    ensures
        decided(s, c).1 == Some(s.squelched),
        decided(s, c).0.squelched == 0,
        decided(s, c).0.last == c.elapsed + 1,
{
}

/// A candidate that comes too soon is held back and counted, and what is no candidate
/// leaves no trace.
pub proof fn law_early_candidate_is_held_back(s: SamplerModel, c: Caught)
    requires
        s.last > 0,
        c.elapsed < u64::MAX,
        c.config.min_interval_nanos > 0,
        c.elapsed - (s.last - 1) < c.config.min_interval_nanos,
    ensures
        decided(s, c).1 is None,
        decided(s, c).0.last == s.last,
        is_candidate(c) && s.squelched < u64::MAX ==> decided(s, c).0.squelched == s.squelched + 1,
        !is_candidate(c) ==> decided(s, c).0 == s,
{
}

/// The ceiling holds only where the frequency is a positive number.
pub proof fn law_ceiling_needs_a_frequency(max_hz: Float, nanos: u64)
    ensures
        value::finite_bits(max_hz.bits) && value::place_of(max_hz.bits) > 0 ==> interval_for(
            max_hz,
            nanos,
        ) == nanos,
        !value::finite_bits(max_hz.bits) || value::place_of(max_hz.bits) <= 0 ==> interval_for(
            max_hz,
            nanos,
        ) == 0,
{
}

/// A fraction is kept as it is between zero and one, and brought to one where it is more
/// and to zero where it is less or no finite number.
pub proof fn law_fraction_is_clamped(rate: Float)
    ensures
        fraction_of(rate) <= value::ONE_BITS,
        value::finite_bits(rate.bits) && 0 < value::place_of(rate.bits) <= value::ONE_BITS
            ==> fraction_of(rate) == rate.bits,
        value::finite_bits(rate.bits) && value::place_of(rate.bits) > value::ONE_BITS
            ==> fraction_of(rate) == value::ONE_BITS,
        !value::finite_bits(rate.bits) || value::place_of(rate.bits) <= 0 ==> fraction_of(rate)
            == 0,
{
}

/// An advisory is due for a class that was not seen before, as long as fewer than three
/// were let through, and those let through are kept in order.
pub proof fn law_advisory_is_due(seen: Seq<Seq<char>>, class: Seq<char>)
    ensures
        lets_through(seen, class) <==> seen.len() < 3 && forall|i: int|
            0 <= i < seen.len() ==> #[trigger] seen[i] != class,
        lets_through(seen, class) ==> after_sighting(seen, class) == seen.push(class),
        !lets_through(seen, class) ==> after_sighting(seen, class) == seen,
{
    if seen.contains(class) {
        let i = seen.index_of(class);
        assert(seen[i] == class);
    }
}

/// What is said of retries is a warning in flight, of their category, in the words given.
pub proof fn law_retry_entry_is_a_warning(e: LogEntry, message: Seq<char>)
    requires
        is_retry_entry(e, message),
    ensures
        e.level == LogLevel::Warn,
        e.tag.attached is None,
        e.tag.category == EventCategory::Retry,
        e.message@ == message,
{
}

/// The line of a sample tells the op, the attempt out of how many, the cycle, whether it is
/// tried again, the class and the words of the error, and at its end how many were held
/// back, where any were.
pub proof fn law_sample_line_tells_all(ex: ExecExemplar<'_>)
    ensures
        exemplar_line(ex) == ("retry exemplar: op '"@ + ex.op_name@ + "' attempt "@ + text::decimal(
            ex.attempt_no as nat,
        ) + "/"@ + text::decimal(ex.tries_budget as nat) + " cycle "@ + text::decimal(
            ex.cycle as nat,
        )) + (if ex.will_retry {
            " (retrying): ["@
        } else {
            " (terminal): ["@
        }) + ex.error_class@ + "] "@ + ex.message@ + (if ex.squelched_since_last == 0 {
            Seq::<char>::empty()
        } else {
            " (+"@ + text::decimal(ex.squelched_since_last as nat) + " squelched)"@
        }),
{
}

} // verus!
