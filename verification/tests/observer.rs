use nmbrs_runtime::observer::{
    colorize_log_line, completed_phase_display, display_level, is_explain_held, log, log_tagged,
    op_output, readouts_paused, retain_level, set_completed_phase_display, set_display_level,
    set_retain_level, set_skipped_phase_display, skipped_phase_display, toggle_explain,
    toggle_readout_pause, trace_enabled, Audience, CompletedPhaseDisplay, EventCategory, EventTag,
    EventType, Installed, LogEntry, LogLevel, ObserverState, OutputRoute, Shown,
    SkippedPhaseDisplay, StderrObserver,
};

const SECOND: u64 = 1_000_000_000;

fn nothing() -> Installed {
    Installed { sink: false, observer: false, channel: false, trace_sinks: 0 }
}

#[test]
fn levels_are_ordered_by_severity() {
    let all = [LogLevel::Trace, LogLevel::Debug, LogLevel::Info, LogLevel::Warn, LogLevel::Error];
    for (i, a) in all.iter().enumerate() {
        for (j, b) in all.iter().enumerate() {
            assert_eq!(a >= b, i >= j);
            assert_eq!(a.at_least(*b), i >= j);
        }
    }
}

#[test]
fn completed_phase_display_parses_and_rejects() {
    assert_eq!(CompletedPhaseDisplay::parse("full"), Some(CompletedPhaseDisplay::Full));
    assert_eq!(CompletedPhaseDisplay::parse(" HEADERS "), Some(CompletedPhaseDisplay::Headers));
    assert_eq!(CompletedPhaseDisplay::parse("collapse"), None);
    assert_eq!(CompletedPhaseDisplay::default(), CompletedPhaseDisplay::Full);
}

#[test]
fn skipped_phase_display_parses_and_rejects() {
    assert_eq!(SkippedPhaseDisplay::parse("Elide"), Some(SkippedPhaseDisplay::Elide));
    assert_eq!(SkippedPhaseDisplay::parse("mark\n"), Some(SkippedPhaseDisplay::Mark));
    assert_eq!(SkippedPhaseDisplay::parse("PRUNE"), Some(SkippedPhaseDisplay::Prune));
    assert_eq!(SkippedPhaseDisplay::parse("hide"), None);
    assert_eq!(SkippedPhaseDisplay::default(), SkippedPhaseDisplay::Mark);
}

#[test]
fn display_modes_are_kept() {
    let mut s = ObserverState::default();
    assert_eq!(skipped_phase_display(&s), SkippedPhaseDisplay::Mark);
    assert_eq!(completed_phase_display(&s), CompletedPhaseDisplay::Full);
    set_skipped_phase_display(&mut s, SkippedPhaseDisplay::Prune);
    set_completed_phase_display(&mut s, CompletedPhaseDisplay::Headers);
    assert_eq!(skipped_phase_display(&s), SkippedPhaseDisplay::Prune);
    assert_eq!(completed_phase_display(&s), CompletedPhaseDisplay::Headers);
}

#[test]
fn overlay_toggles_reverts_and_ignores_repeats() {
    let mut s = ObserverState::default();
    let t = 100 * SECOND;
    toggle_explain(&mut s, t);
    assert!(is_explain_held(&s, t));
    // The key repeats while it is held.
    toggle_explain(&mut s, t + 30_000_000);
    assert!(is_explain_held(&s, t + 30_000_000));
    assert!(is_explain_held(&s, t + 10 * SECOND - 1));
    assert!(!is_explain_held(&s, t + 10 * SECOND));
    toggle_explain(&mut s, t + SECOND);
    assert!(!is_explain_held(&s, t + SECOND));
    toggle_explain(&mut s, t + 2 * SECOND);
    assert!(is_explain_held(&s, t + 2 * SECOND));
    // At the end of time the deadline stays there.
    let mut late = ObserverState::default();
    toggle_explain(&mut late, u64::MAX - 1);
    assert!(is_explain_held(&late, u64::MAX - 1));
}

#[test]
fn readout_pause_turns_over() {
    let mut s = ObserverState::default();
    assert!(!readouts_paused(&s));
    assert!(toggle_readout_pause(&mut s));
    assert!(readouts_paused(&s));
    assert!(!toggle_readout_pause(&mut s));
}

#[test]
fn first_level_wins() {
    let mut s = ObserverState::default();
    assert_eq!(retain_level(&s), LogLevel::Debug);
    assert_eq!(display_level(&s), LogLevel::Info);
    set_retain_level(&mut s, LogLevel::Warn);
    set_retain_level(&mut s, LogLevel::Trace);
    set_display_level(&mut s, LogLevel::Error);
    set_display_level(&mut s, LogLevel::Debug);
    assert_eq!(retain_level(&s), LogLevel::Warn);
    assert_eq!(display_level(&s), LogLevel::Error);
}

#[test]
fn events_are_kept_and_shown() {
    let s = ObserverState::default();
    let all = Installed { sink: true, observer: true, ..nothing() };
    let r = log(&s, &all, LogLevel::Info, "\x1b[1mhi\x1b[0m", "12:00", "hi");
    assert_eq!(r.kept.as_deref(), Some("12:00 INF hi\n"));
    assert_eq!(r.audience, Audience::Observer);
    assert_eq!(r.entry.message, "\x1b[1mhi\x1b[0m");
    assert_eq!(r.entry.tag, EventTag::default());
    let r = log(&s, &all, LogLevel::Trace, "t", "12:00", "t");
    assert_eq!(r.kept, None);
    let r = log(&s, &nothing(), LogLevel::Error, "e", "12:00", "e");
    assert_eq!(r.kept, None);
    assert_eq!(r.audience, Audience::Surface);
    let tag = EventTag::at(EventType::PhaseStart, EventCategory::Outcome);
    let entry = LogEntry { level: LogLevel::Warn, tag, message: "m".into() };
    let r = log_tagged(&s, &all, entry, "ts", "m");
    assert_eq!(r.entry.tag.attached, Some(EventType::PhaseStart));
    assert_eq!(r.kept.as_deref(), Some("ts WRN m\n"));
}

#[test]
fn op_output_goes_to_the_channel_or_raw() {
    let mut s = ObserverState::default();
    let channel = Installed { channel: true, sink: true, ..nothing() };
    assert!(matches!(op_output(&s, &channel, "ts", "row"), OutputRoute::Channel));
    let sink = Installed { sink: true, ..nothing() };
    assert!(matches!(op_output(&s, &sink, "ts", "row"), OutputRoute::Raw(Some(l)) if l == "ts INF row\n"));
    set_retain_level(&mut s, LogLevel::Warn);
    assert!(matches!(op_output(&s, &sink, "ts", "row"), OutputRoute::Raw(None)));
}

#[test]
fn lines_are_colored_by_level() {
    assert_eq!(colorize_log_line(LogLevel::Error, "x", false), "x");
    assert_eq!(colorize_log_line(LogLevel::Error, "x", true), "\x1b[1;31mx\x1b[0m");
    assert_eq!(colorize_log_line(LogLevel::Warn, "x", true), "\x1b[33mx\x1b[0m");
    assert_eq!(colorize_log_line(LogLevel::Info, "x", true), "x");
    assert_eq!(colorize_log_line(LogLevel::Debug, "x", true), "\x1b[2mx\x1b[0m");
    assert_eq!(colorize_log_line(LogLevel::Trace, "x", true), "\x1b[2;90mx\x1b[0m");
}

#[test]
fn traces_need_a_sink() {
    assert!(!trace_enabled(&nothing()));
    assert!(trace_enabled(&Installed { trace_sinks: 2, ..nothing() }));
}

#[test]
fn console_observer_filters_and_announces() {
    let o = StderrObserver::default();
    assert_eq!(o.shows(LogLevel::Debug, "x"), Shown::Hidden);
    assert_eq!(o.shows(LogLevel::Info, "x"), Shown::Line);
    assert_eq!(
        o.shows(LogLevel::Warn, "session: graceful shutdown requested (^C)"),
        Shown::LineBelowBlank
    );
    assert_eq!(o.shows(LogLevel::Warn, "session: force-exit"), Shown::LineBelowBlank);
    let all = StderrObserver::with_min_level(LogLevel::Trace);
    assert_eq!(all.shows(LogLevel::Trace, "x"), Shown::Line);
    assert_eq!(
        o.phase_starting("load", 1, 20, 4),
        "phase 'load': 1 op template, 20 cycles, concurrency=4"
    );
    assert_eq!(
        o.phase_starting("read", 2, 1, 1),
        "phase 'read': 2 op templates, 1 cycle, concurrency=1"
    );
    assert_eq!(o.run_finished(), "all phases complete");
}
