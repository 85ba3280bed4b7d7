use std::sync::Arc;

use nmbrs_runtime::phase_outcome::{
    Disposition, LegacyPhaseStatus, Outcome, Payload, PhaseErrorDetail, PhaseIdentity, PhaseOutcome,
    PhaseOutcomeWire, ReasonClass, ResumeCursor, Seconds, SessionDisposition, Validity,
};

fn secs(f: f64) -> Seconds {
    Seconds { bits: f.to_bits() }
}

fn error(class: &str, message: &str) -> PhaseErrorDetail {
    PhaseErrorDetail {
        class: class.into(),
        message: message.into(),
        op_name: None,
        cycle: None,
        op_template: None,
        op_resolved: None,
        at_nanos: 0,
        retryable: false,
    }
}

#[test]
fn is_failure_keys_on_validity_alone() {
    assert!(!Outcome::completed().is_failure());
    assert!(Outcome::failed().is_failure());
    assert!(Outcome::completed_failed().is_failure());
    assert!(!Outcome::interrupted().is_failure());
    assert!(!Outcome::skipped().is_failure());
}

#[test]
fn glyphs_and_labels_cover_the_axis_pairs() {
    assert_eq!(Outcome::completed().glyph(), '✓');
    assert_eq!(Outcome::failed().glyph(), '✗');
    assert_eq!(Outcome::completed_failed().glyph(), '✗');
    assert_eq!(Outcome::interrupted().glyph(), '…');
    assert_eq!(Outcome::skipped().glyph(), '~');
    assert_eq!(Outcome::completed().label(), "completed");
    assert_eq!(Outcome::failed().label(), "failed");
    assert_eq!(Outcome::completed_failed().label(), "completed_failed");
    assert_eq!(Outcome::interrupted().label(), "interrupted");
    assert_eq!(Outcome::skipped().label(), "skipped");
}

#[test]
fn session_disposition_exit_codes() {
    assert_eq!(SessionDisposition::Success.exit_code(), 0);
    assert_ne!(SessionDisposition::Failure.exit_code(), 0);
}

#[test]
fn session_disposition_labels() {
    assert_eq!(SessionDisposition::Success.label(), "SUCCESS");
    assert_eq!(SessionDisposition::Failure.label(), "FAILURE");
    assert_eq!(SessionDisposition::Failure.exit_code(), 1);
}

#[test]
fn outcome_completed_has_no_errors() {
    let o = PhaseOutcome::completed(PhaseIdentity::new("p", "x=1"), secs(1.5));
    assert_eq!(o.disposition, Disposition::Completed);
    assert_eq!(o.validity, Validity::Succeeded);
    assert!(o.errors.is_empty());
    assert!(o.first_error_message().is_none());
}

#[test]
fn outcome_failed_carries_errors() {
    let errors = vec![PhaseErrorDetail {
        class: "Timeout".into(),
        message: "connection timed out".into(),
        op_name: Some("read_state".into()),
        cycle: Some(0),
        op_template: Some("SELECT ...".into()),
        op_resolved: Some("SELECT * FROM ks.t".into()),
        at_nanos: 1_000_000_000,
        retryable: true,
    }];
    let o = PhaseOutcome::failed(PhaseIdentity::new("p", "x=1"), secs(30.0), errors.clone());
    assert_eq!(o.disposition, Disposition::Interrupted);
    assert_eq!(o.validity, Validity::Failed);
    assert_eq!(o.errors, errors);
    assert_eq!(o.first_error_message(), Some("connection timed out"));
}

#[test]
fn outcome_skipped_has_zero_duration_and_no_errors() {
    let o = PhaseOutcome::skipped(PhaseIdentity::new("p", ""));
    assert_eq!(o.disposition, Disposition::Skipped);
    assert_eq!(f64::from_bits(o.duration_secs.bits), 0.0);
    assert!(o.errors.is_empty());
}

#[test]
fn two_axis_outcome_projects_to_and_from_status() {
    // The four constructors land in the right quadrants.
    assert!(Outcome::completed() == Outcome::new(Disposition::Completed, Validity::Succeeded));
    assert!(Outcome::failed() == Outcome::new(Disposition::Interrupted, Validity::Failed));
    assert!(Outcome::interrupted() == Outcome::new(Disposition::Interrupted, Validity::Succeeded));

    // Validity drives is_failure, orthogonal to disposition.
    assert!(Outcome::failed().is_failure());
    assert!(!Outcome::interrupted().is_failure());
    assert!(!Outcome::completed().is_failure());

    // PhaseOutcome surfaces the two-axis view.
    let oc = PhaseOutcome::completed(PhaseIdentity::new("p", ""), secs(1.0));
    assert!(oc.outcome() == Outcome::completed());
    assert!(!oc.outcome().is_failure());
}

fn wire(
    d: Option<Disposition>,
    v: Option<Validity>,
    status: Option<LegacyPhaseStatus>,
) -> PhaseOutcomeWire {
    PhaseOutcomeWire {
        phase_id: PhaseIdentity::new("p", ""),
        disposition: d,
        validity: v,
        status,
        duration_secs: secs(1.0),
        errors: vec![],
        resume_cursor: None,
        phase_hash: None,
        params_consumed: None,
    }
}

#[test]
fn legacy_status_records_still_deserialize() {
    let cases = [
        (LegacyPhaseStatus::Completed, Disposition::Completed, Validity::Succeeded),
        (LegacyPhaseStatus::Failed, Disposition::Interrupted, Validity::Failed),
        (LegacyPhaseStatus::Skipped, Disposition::Skipped, Validity::Succeeded),
        (LegacyPhaseStatus::CursorSuspended, Disposition::Interrupted, Validity::Succeeded),
    ];
    for (status, d, v) in cases {
        let parsed = PhaseOutcome::from(wire(None, None, Some(status)));
        assert_eq!(parsed.disposition, d, "disposition for '{status:?}'");
        assert_eq!(parsed.validity, v, "validity for '{status:?}'");
    }
}

#[test]
fn stored_axes_win_over_the_status() {
    let o = PhaseOutcome::from(wire(
        Some(Disposition::Skipped),
        Some(Validity::Failed),
        Some(LegacyPhaseStatus::Completed),
    ));
    assert_eq!((o.disposition, o.validity), (Disposition::Skipped, Validity::Failed));
    let half = PhaseOutcome::from(wire(Some(Disposition::Skipped), None, None));
    assert_eq!((half.disposition, half.validity), (Disposition::Completed, Validity::Succeeded));
}

#[test]
fn reason_classes_read_back() {
    for c in [
        ReasonClass::Timeout,
        ReasonClass::StopCondition,
        ReasonClass::Error,
        ReasonClass::Panic,
        ReasonClass::Operator,
    ] {
        assert_eq!(ReasonClass::from_error_class(c.as_str()), c);
    }
    assert_eq!(ReasonClass::from_error_class("poll_timeout"), ReasonClass::Timeout);
    assert_eq!(ReasonClass::from_error_class("error_rate_exceeded"), ReasonClass::StopCondition);
    assert_eq!(ReasonClass::from_error_class("stop_condition:x"), ReasonClass::StopCondition);
    assert_eq!(ReasonClass::from_error_class("Overload"), ReasonClass::Error);
}

#[test]
fn protocol_classes_follow_reason_and_disposition() {
    let id = || PhaseIdentity::new("p", "");
    assert_eq!(PhaseOutcome::skipped(id()).protocol_class(), "SKIPPED");
    assert_eq!(PhaseOutcome::completed(id(), secs(1.0)).protocol_class(), "COMPLETED");
    let timeout = PhaseOutcome::failed(id(), secs(1.0), vec![error("poll_timeout", "late")]);
    assert_eq!(timeout.protocol_class(), "OUT-OF-RANGE");
    assert_eq!(timeout.reason_class(), Some(ReasonClass::Timeout));
    let failed = PhaseOutcome::failed(id(), secs(1.0), vec![error("Overload", "busy")]);
    assert_eq!(failed.protocol_class(), "FAILED");
    let cut = PhaseOutcome::interrupted(id(), secs(1.0), Some(ResumeCursor::default()));
    assert_eq!(cut.protocol_class(), "COMPLETED");
    assert_eq!(cut.reason_class(), None);
}

#[test]
fn storage_rows_hold_the_record() {
    let mut e = error("timeout", "late");
    e.at_nanos = 7;
    e.cycle = Some(3);
    let o = PhaseOutcome::failed(PhaseIdentity::new("p", "(k=1)"), secs(2.5), vec![e])
        .with_phase_hash("ab".into())
        .with_params_consumed(Some("{}".into()));
    let row = o.to_sqlite_row("s", 4, 100, Some(200));
    assert_eq!(row.session, "s");
    assert_eq!(row.exec_id, 4);
    assert_eq!((row.phase_name.as_str(), row.phase_labels.as_str()), ("p", "(k=1)"));
    assert_eq!(row.status, "failed");
    assert_eq!(f64::from_bits(row.duration_secs.bits), 2.5);
    assert_eq!((row.started_at_nanos, row.ended_at_nanos), (100, 200));
    assert_eq!(row.reason_class.as_deref(), Some("timeout"));
    assert_eq!(row.phase_hash.as_deref(), Some("ab"));
    assert_eq!(row.params_consumed.as_deref(), Some("{}"));
    assert_eq!(row.errors.len(), 1);
    assert_eq!((row.errors[0].at_nanos, row.errors[0].cycle), (7, Some(3)));
    assert_eq!(o.to_sqlite_row("s", 4, 100, None).ended_at_nanos, 100);
}

struct Note;

impl Payload for Note {}

#[test]
fn equality_ignores_the_payload() {
    let plain = Outcome::completed().with_reason("done");
    let carried = Outcome::completed().with_reason("done").with_payload(Arc::new(Note));
    assert!(carried.payload.is_some());
    assert!(plain == carried);
    assert!(plain != Outcome::completed());
}

#[test]
fn running_units_have_a_mark_of_their_own() {
    let o = Outcome::new(Disposition::Running, Validity::Failed);
    assert_eq!((o.glyph(), o.label()), ('⋯', "running"));
}
