use nmbrs_runtime::control_catalog::{
    all_controls, core_controls, AdapterControls, ControlDesc, ControlOwner, ControlValueType,
    DeclaredWhen,
};
use nmbrs_runtime::value::Float;

fn num(f: f64) -> Float {
    Float { bits: f.to_bits(), text: f.to_string() }
}

fn find<'a>(all: &'a [ControlDesc], name: &str) -> &'a ControlDesc {
    all.iter().find(|d| d.name == name).unwrap()
}

#[test]
fn core_controls_cover_concurrency_and_rate_with_conditions() {
    let core = core_controls();
    let conc = core.iter().find(|d| d.name == "concurrency").expect("concurrency present");
    let rate = core.iter().find(|d| d.name == "rate").expect("rate present");
    assert_eq!(conc.declared_when, DeclaredWhen::Always);
    assert_eq!(rate.declared_when, DeclaredWhen::PhaseField("rate"));
    assert_eq!(conc.value_type, ControlValueType::Count);
    assert_eq!(rate.value_type, ControlValueType::Rate);
}

#[test]
fn all_controls_includes_core_and_is_owner_tagged() {
    let core = core_controls();
    let adapters = vec![];
    let all = all_controls(&core, &adapters);
    let conc = all.iter().find(|e| e.desc.name == "concurrency").expect("concurrency enumerated");
    assert_eq!(conc.owner, ControlOwner::Core);
}

#[test]
fn bounds_are_the_documented_numbers() {
    let core = core_controls();
    let of = |d: &ControlDesc| {
        (f64::from_bits(d.default.bits), f64::from_bits(d.min.bits), f64::from_bits(d.max.bits))
    };
    assert_eq!(of(find(&core, "concurrency")), (1.0, 1.0, 100_000.0));
    assert_eq!(of(find(&core, "rate")), (0.0, 0.0, f64::INFINITY));
    assert_eq!(of(find(&core, "retry_exemplar_rate")), (0.0, 0.0, 1.0));
    assert_eq!(of(find(&core, "retry_exemplar_max_hz")), (5.0, 0.0, 1_000_000.0));
    for d in &core {
        for f in [&d.default, &d.min, &d.max] {
            assert_eq!(f.text, f64::from_bits(f.bits).to_string());
        }
    }
}

#[test]
fn counts_are_checked_against_their_range() {
    let core = core_controls();
    let conc = find(&core, "concurrency");
    assert!(conc.check_u32(&num(16.0)).is_ok());
    assert!(conc.check_u32(&num(1.0)).is_ok());
    assert!(conc.check_u32(&num(100_000.0)).is_ok());
    assert_eq!(
        conc.check_u32(&num(0.0)).unwrap_err(),
        "concurrency out of range [1, 100000]: got 0"
    );
    assert!(conc.check_u32(&num(f64::NAN)).is_err());
    assert!(conc.check_u32(&num(f64::INFINITY)).is_err());
    assert!(conc.check_u32(&num(-3.0)).is_err());
}

#[test]
fn fractions_and_rates_are_checked() {
    let core = core_controls();
    let frac = find(&core, "retry_exemplar_rate");
    assert!(frac.check_f64(&num(0.0)).is_ok());
    assert!(frac.check_f64(&num(-0.0)).is_ok());
    assert!(frac.check_f64(&num(0.3)).is_ok());
    assert_eq!(
        frac.check_f64(&num(1.5)).unwrap_err(),
        "retry_exemplar_rate must be in [0, 1]: got 1.5"
    );
    let rate = find(&core, "rate");
    assert!(rate.check_rate(&num(500.0)).is_ok());
    assert_eq!(rate.check_rate(&num(0.0)).unwrap_err(), "rate must be > 0, got 0");
    assert!(rate.check_rate(&num(-1.0)).is_err());
    assert!(rate.check_rate(&num(f64::INFINITY)).is_ok());
}

#[test]
fn a_rate_keeps_to_its_bounds() {
    let core = core_controls();
    let narrow = ControlDesc { min: num(10.0), max: num(100.0), ..find(&core, "rate").clone() };
    assert_eq!(narrow.check_rate(&num(5.0)).unwrap_err(), "rate must be > 10, got 5");
    assert_eq!(narrow.check_rate(&num(10.0)).unwrap_err(), "rate must be > 10, got 10");
    assert!(narrow.check_rate(&num(10.5)).is_ok());
    assert!(narrow.check_rate(&num(100.0)).is_ok());
    assert_eq!(narrow.check_rate(&num(100.5)).unwrap_err(), "rate must be <= 100, got 100.5");
}

#[test]
fn taken_values_have_no_gaps() {
    let core = core_controls();
    let conc = find(&core, "concurrency");
    for v in [1.0, 1.5, 2.0, 99_999.9] {
        assert!(conc.check_u32(&num(v)).is_ok());
    }
    for d in &core {
        if d.name != "rate" {
            assert!(d.check_f64(&d.default).is_ok(), "{}", d.name);
        }
    }
}

#[test]
fn adapters_own_their_controls() {
    let core = core_controls();
    let trace = ControlDesc { name: "cql_trace_rate", ..find(&core, "retry_exemplar_rate").clone() };
    let adapters = vec![
        AdapterControls { names: vec!["cql".into(), "cassandra".into()], controls: vec![trace.clone()] },
        AdapterControls { names: vec![], controls: vec![trace] },
    ];
    let all = all_controls(&core, &adapters);
    assert_eq!(all.len(), 6);
    assert_eq!(all[4].owner, ControlOwner::Adapter("cql".into()));
    assert_eq!(all[4].desc.name, "cql_trace_rate");
    assert_eq!(all[5].owner.text(), "adapter:?");
    assert_eq!(all[0].owner.text(), "core");
}

#[test]
fn labels_and_conditions_in_words() {
    assert_eq!(ControlValueType::Count.label(), "count(u32)");
    assert_eq!(ControlValueType::Rate.label(), "rate(ops/s)");
    assert_eq!(ControlValueType::Fraction.label(), "fraction");
    assert_eq!(ControlValueType::Frequency.label(), "freq(hz)");
    assert_eq!(DeclaredWhen::Always.text(), "always");
    assert_eq!(DeclaredWhen::PhaseField("rate").text(), "when a phase sets `rate:`");
    assert_eq!(DeclaredWhen::AdapterActive("cql").text(), "when the `cql` adapter is active");
    assert_eq!(DeclaredWhen::Driver("scylla").text(), "when the `scylla` driver is active");
}
