use nmbrs_runtime::exec_events::{
    render_advisory, render_exemplar, splitmix64, submit_exemplar, AdvisoryGate,
    ExecEventSubscriber, ExecExemplar, ExemplarConfig, ExemplarSampler,
};
use nmbrs_runtime::observer::{EventCategory, EventTag, LogLevel};
use nmbrs_runtime::value::Float;

fn num(f: f64) -> Float {
    Float { bits: f.to_bits(), text: f.to_string() }
}

fn nanos(max_hz: f64) -> u64 {
    (1_000_000_000f64 / max_hz) as u64
}

fn config(rate: f64, max_hz: f64) -> ExemplarConfig {
    ExemplarConfig::new(&num(rate), &num(max_hz), nanos(max_hz))
}

#[test]
fn zero_rate_is_off() {
    let cfg = config(0.0, 1000.0);
    let mut s = ExemplarSampler::shared();
    assert!(!s.enabled(&cfg));
    for c in 0..1000 {
        assert!(s.sample(&cfg, c, 1, c).is_none());
    }
}

#[test]
fn full_rate_uncapped_admits_all() {
    let cfg = config(1.0, 0.0);
    let mut s = ExemplarSampler::shared();
    for c in 0..100 {
        assert_eq!(s.sample(&cfg, c, 1, c), Some(0), "cycle {c}");
    }
}

#[test]
fn fractional_rate_samples_deterministically() {
    let cfg = config(0.25, 0.0);
    let mut s1 = ExemplarSampler::shared();
    let mut s2 = ExemplarSampler::shared();
    let picks1: Vec<bool> = (0..4000).map(|c| s1.sample(&cfg, c, 3, c).is_some()).collect();
    let picks2: Vec<bool> = (0..4000).map(|c| s2.sample(&cfg, c, 3, 2 * c).is_some()).collect();
    assert_eq!(picks1, picks2, "sampling must be replayable");
    let hits = picks1.iter().filter(|b| **b).count();
    assert!((600..=1400).contains(&hits), "0.25 of 4000 should land near 1000, got {hits}");
}

#[test]
fn frequency_ceiling_squelches_and_counts() {
    // 1 event per 10 seconds: exactly one sample fits; the rest is held back.
    let cfg = config(1.0, 0.1);
    let mut s = ExemplarSampler::shared();
    assert_eq!(s.sample(&cfg, 0, 1, 0), Some(0), "first admission passes");
    let mut squelched = 0u64;
    for c in 1..50 {
        if s.sample(&cfg, c, 1, c).is_none() {
            squelched += 1;
        }
    }
    assert_eq!(squelched, 49, "burst over the ceiling is squelched");
    assert_eq!(s.squelched(), 49);
    assert_eq!(s.sample(&cfg, 50, 1, 10_000_000_000), Some(49));
}

#[test]
fn shared_cell_moves_live_samplers_on_set() {
    let mut cfg = config(0.0, 0.0);
    let mut s = ExemplarSampler::shared();
    assert!(!s.enabled(&cfg), "starts off");
    assert!(s.sample(&cfg, 1, 1, 1).is_none());

    cfg.set_rate(&num(1.0));
    assert!(s.enabled(&cfg), "flips on push-on-set");
    assert_eq!(s.sample(&cfg, 1, 1, 2), Some(0));

    cfg.set_max_hz(&num(0.001), nanos(0.001)); // ceiling: next admissions squelch
    assert!(s.sample(&cfg, 2, 1, 3).is_none());
    assert!(s.sample(&cfg, 3, 1, 4).is_none());

    cfg.set_rate(&num(0.0)); // and off again, live
    assert!(!s.enabled(&cfg));
}

#[test]
fn what_was_held_back_is_reported_with_the_next_sample() {
    let cfg = ExemplarConfig { rate: 1.0f64.to_bits(), min_interval_nanos: 100 };
    let mut s = ExemplarSampler::shared();
    assert_eq!(s.sample(&cfg, 0, 1, 0), Some(0));
    assert_eq!(s.sample(&cfg, 1, 1, 50), None);
    assert_eq!(s.sample(&cfg, 2, 1, 99), None);
    assert_eq!(s.retired().unwrap(), "exemplar sampler retired with 2 squelched admission(s) unreported (frequency ceiling)");
    assert_eq!(s.sample(&cfg, 3, 1, 100), Some(2));
    assert_eq!(s.retired(), None);
    // A clock that stands still counts as too soon.
    assert_eq!(s.sample(&cfg, 4, 1, 10), None);
}

/// Undoes one `z ^ (z >> n)`.
fn unshift(z: u64, n: u32) -> u64 {
    let mut r = z;
    for _ in 0..64 {
        r = z ^ (r >> n);
    }
    r
}

/// The inverse of an odd number modulo two to the power of 64.
fn inverse(m: u64) -> u64 {
    let mut r: u64 = 1;
    for _ in 0..64 {
        r = r.wrapping_mul(2u64.wrapping_sub(m.wrapping_mul(r)));
    }
    r
}

/// The cycle whose first attempt rolls `roll`.
fn cycle_of(roll: u64) -> u64 {
    let c = unshift(roll, 31);
    let b = unshift(c.wrapping_mul(inverse(0x94D0_49BB_1331_11EB)), 27);
    let a = unshift(b.wrapping_mul(inverse(0xBF58_476D_1CE4_E5B9)), 30);
    a.wrapping_sub(0x9E37_79B9_7F4A_7C15) ^ (1u64 << 48) ^ 0xE0E0_5EED
}

#[test]
fn the_full_rate_takes_the_greatest_roll() {
    let last = cycle_of(u64::MAX);
    assert_eq!(splitmix64(last ^ (1u64 << 48) ^ 0xE0E0_5EED), u64::MAX);
    let mut s = ExemplarSampler::shared();
    assert_eq!(s.sample(&config(1.0, 0.0), last, 1, 0), Some(0));
    assert_eq!(s.sample(&config(7.0, 0.0), last, 1, 0), Some(0));
    assert_eq!(s.sample(&config(0.999, 0.0), last, 1, 0), None);
    let least = cycle_of(0);
    assert_eq!(s.sample(&config(f64::MIN_POSITIVE, 0.0), least, 1, 0), Some(0));
}

#[test]
fn a_roll_is_taken_by_its_share_of_all_rolls() {
    let rates = [
        f64::MIN_POSITIVE, 1e-310, 1e-19, 5.5e-20, 1e-5, 0.1, 0.25, 0.3, 0.5, 0.75, 0.999,
        1.0 - f64::EPSILON / 2.0,
    ];
    for rate in rates {
        let cfg = config(rate, 0.0);
        let edge = (rate * 18446744073709551616.0) as u64;
        let mut rolls: Vec<u64> = vec![0, 1, 2, u64::MAX, 1 << 53, (1 << 53) + 1];
        for d in 0..3000u64 {
            rolls.push(edge.saturating_sub(d));
            rolls.push(edge.saturating_add(d));
            rolls.push(splitmix64(d));
            rolls.push(splitmix64(d) >> (d % 64));
        }
        let mut s = ExemplarSampler::shared();
        for roll in rolls {
            let wanted = (roll as f64 / u64::MAX as f64) < rate;
            let taken = s.sample(&cfg, cycle_of(roll), 1, 0).is_some();
            assert_eq!(taken, wanted, "roll {roll} at {rate}");
        }
    }
}

#[test]
fn sampling_is_on_for_positive_rates_alone() {
    let s = ExemplarSampler::shared();
    for off in [0.0, -0.0, -1.0, f64::NAN, f64::INFINITY, f64::NEG_INFINITY] {
        assert!(!s.enabled(&config(off, 0.0)), "{off}");
    }
    for on in [1e-300, 0.5, 1.0, 2.0] {
        let mut cfg = config(on, 0.0);
        assert!(s.enabled(&cfg), "{on}");
        cfg.set_max_hz(&num(5.0), nanos(5.0));
        assert!(s.enabled(&cfg), "{on}");
        assert_eq!(cfg.min_interval(), 200_000_000);
        cfg.set_max_hz(&num(f64::INFINITY), 7);
        assert_eq!(cfg.min_interval(), 0);
    }
}

#[test]
fn raising_the_rate_drops_no_sample() {
    let (low, high) = (config(0.1, 0.0), config(0.4, 0.0));
    let (mut a, mut b) = (ExemplarSampler::shared(), ExemplarSampler::shared());
    for c in 0..2000 {
        if a.sample(&low, c, 2, c).is_some() {
            assert!(b.sample(&high, c, 2, c).is_some(), "cycle {c}");
        }
    }
}

#[test]
fn rolls_are_fixed() {
    assert_eq!(splitmix64(0), 0xE220_A839_7B1D_CDAF);
    assert_eq!(splitmix64(1), 0x910A_2DEC_8902_5CC1);
}

#[test]
fn advisory_gate_is_once_per_class_and_capped() {
    let mut g = AdvisoryGate::new();
    assert!(g.first_sighting("Overload"));
    assert!(!g.first_sighting("Overload"), "once per class");
    assert!(g.first_sighting("Timeout"));
    assert!(g.first_sighting("Unavailable"));
    assert!(!g.first_sighting("FourthClass"), "cap closes it");
    assert!(!g.first_sighting("Overload"), "seen classes stay closed");
}

#[test]
fn advisory_line_is_actionable() {
    let line = render_advisory("insert", 42, 21, "Overload", "in_flight=9 > 8");
    assert!(line.contains("op 'insert'"), "{line}");
    assert!(line.contains("[Overload]"), "{line}");
    assert!(line.contains("cycle 42"), "{line}");
    assert!(line.contains("(21)"), "{line}");
    assert!(line.contains("retry_exemplar_rate"), "{line}");
    assert!(line.contains("retry_advisory: off"), "{line}");
}

#[test]
fn rendered_line_is_self_describing() {
    let line = render_exemplar(&ExecExemplar {
        op_name: "insert",
        cycle: 12345,
        attempt_no: 3,
        tries_budget: 21,
        error_class: "Overload",
        message: "simulated overload: in_flight=9 > 8",
        will_retry: true,
        squelched_since_last: 7,
    });
    assert!(line.contains("op 'insert'"), "{line}");
    assert!(line.contains("attempt 3/21"), "{line}");
    assert!(line.contains("cycle 12345"), "{line}");
    assert!(line.contains("retrying"), "{line}");
    assert!(line.contains("[Overload]"), "{line}");
    assert!(line.contains("in_flight=9 > 8"), "{line}");
    assert!(line.contains("(+7 squelched)"), "{line}");
}

struct Quiet;

impl ExecEventSubscriber for Quiet {}

#[test]
fn samples_are_submitted_as_retry_warnings() {
    let ex = ExecExemplar {
        op_name: "read",
        cycle: 1,
        attempt_no: 2,
        tries_budget: 2,
        error_class: "Gone",
        message: "no host",
        will_retry: false,
        squelched_since_last: 0,
    };
    let e = submit_exemplar(&ex);
    assert_eq!(e.level, LogLevel::Warn);
    assert_eq!(e.tag, EventTag::in_flight(EventCategory::Retry));
    assert_eq!(e.message, "retry exemplar: op 'read' attempt 2/2 cycle 1 (terminal): [Gone] no host");
    assert_eq!(Quiet.submit_exemplar(&ex), e);
    let a = Quiet.submit_advisory("read", 1, 2, "Gone", "no host");
    assert_eq!(a.message, render_advisory("read", 1, 2, "Gone", "no host"));
    assert_eq!(a.tag, e.tag);
    assert!(a.message.starts_with("retry advisory: op 'read' hit its first retryable [Gone] at cycle 1: no host — further"));
}
