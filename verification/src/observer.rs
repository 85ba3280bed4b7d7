//! The observer surface: levels and tags of log events, how completed and
//! skipped phases are shown, and where an event goes.

use vstd::prelude::*;

use crate::text;
use crate::text::{
    ascii_lower_text, cat2, cat3, cat8, starts_with, str_eq, trim_text, u64_text,
};

verus! {

/// The severity of an event.
#[derive(Debug, Clone, Copy, PartialEq, Eq, PartialOrd, Ord, Structural)]
pub enum LogLevel {
    /// Per-cycle tracing.
    Trace,
    Debug,
    Info,
    Warn,
    Error,
}

/// From the least severe upward.
pub open spec fn severity(l: LogLevel) -> int {
    match l {
        LogLevel::Trace => 0,
        LogLevel::Debug => 1,
        LogLevel::Info => 2,
        LogLevel::Warn => 3,
        LogLevel::Error => 4,
    }
}

pub open spec fn level_tag(l: LogLevel) -> Seq<char> {
    match l {
        LogLevel::Trace => "TRC"@,
        LogLevel::Debug => "DBG"@,
        LogLevel::Info => "INF"@,
        LogLevel::Warn => "WRN"@,
        LogLevel::Error => "ERR"@,
    }
}

impl LogLevel {
    fn rank(&self) -> (r: u8)
        ensures
            r == severity(*self),
    {
        match self {
            LogLevel::Trace => 0,
            LogLevel::Debug => 1,
            LogLevel::Info => 2,
            LogLevel::Warn => 3,
            LogLevel::Error => 4,
        }
    }

    /// Whether `self` is at least as severe as `other`.
    pub fn at_least(&self, other: LogLevel) -> (r: bool)
        ensures
            r == (severity(*self) >= severity(other)),
    {
        self.rank() >= other.rank()
    }

    /// The three letters by which a log line shows the level.
    pub fn tag(&self) -> (r: &'static str)
        ensures
            r@ == level_tag(*self),
    {
        match self {
            LogLevel::Trace => "TRC",
            LogLevel::Debug => "DBG",
            LogLevel::Info => "INF",
            LogLevel::Warn => "WRN",
            LogLevel::Error => "ERR",
        }
    }
}

/// A boundary of the execution lifecycle.
#[derive(Debug, Clone, Copy, PartialEq, Eq, Structural)]
pub enum EventType {
    SessionStart,
    SessionEnd,
    ScopeStart,
    ScopeEnd,
    EachStart,
    EachEnd,
    PhaseStart,
    PhaseEnd,
    Update,
}

/// What an event is about, whenever it fires.
#[derive(Debug, Clone, Copy, PartialEq, Eq, Structural)]
pub enum EventCategory {
    /// Ordinary diagnostics.
    General,
    /// An outcome as it is shown.
    Outcome,
    /// Evaluation detail below an outcome.
    Evaluation,
    /// First sightings and samples of retried errors.
    Retry,
    /// Adaptive backpressure.
    Throttle,
    /// Resolution of references.
    Resolution,
    /// Warnings of report blocks.
    Report,
}

impl Default for EventCategory {
    fn default() -> (r: Self)
        ensures
            r == EventCategory::General,
    {
        EventCategory::General
    }
}

/// Where on the lifecycle an event belongs, and what it is about. The two are
/// independent.
#[derive(Debug, Clone, Copy, PartialEq, Eq, Structural)]
pub struct EventTag {
    /// The boundary that the event is attached to; none for one in flight.
    pub attached: Option<EventType>,
    pub category: EventCategory,
}

impl Default for EventTag {
    fn default() -> (r: Self)
        ensures
            r == (EventTag { attached: None, category: EventCategory::General }),
    {
        EventTag { attached: None, category: EventCategory::General }
    }
}

impl EventTag {
    /// An event in flight.
    pub fn in_flight(category: EventCategory) -> (r: Self)
        ensures
            r == (EventTag { attached: None, category }),
    {
        EventTag { attached: None, category }
    }

    /// An event at a boundary.
    pub fn at(moment: EventType, category: EventCategory) -> (r: Self)
        ensures
            r == (EventTag { attached: Some(moment), category }),
    {
        EventTag { attached: Some(moment), category }
    }
}

/// How a phase all of whose cycles were skipped is shown.
#[derive(Debug, Clone, Copy, PartialEq, Eq, Structural)]
pub enum SkippedPhaseDisplay {
    /// Run as normal and left out of what is shown.
    Elide,
    /// Run as normal and marked as skipped.
    Mark,
    /// Not even entered where its gates are all false.
    Prune,
}

impl Default for SkippedPhaseDisplay {
    fn default() -> (r: Self)
        ensures
            r == SkippedPhaseDisplay::Mark,
    {
        SkippedPhaseDisplay::Mark
    }
}

/// A setting without white space around it and in lower case.
pub open spec fn setting(s: Seq<char>) -> Seq<char> {
    text::ascii_lower(text::trimmed(s))
}

fn read_setting(s: &str) -> (r: String)
    ensures
        r@ == setting(s@),
{
    let t = trim_text(s);
    ascii_lower_text(t.as_str())
}

impl SkippedPhaseDisplay {
    pub fn parse(s: &str) -> (r: Option<Self>)
        ensures
            r == (if setting(s@) == "elide"@ {
                Some(SkippedPhaseDisplay::Elide)
            } else if setting(s@) == "mark"@ {
                Some(SkippedPhaseDisplay::Mark)
            } else if setting(s@) == "prune"@ {
                Some(SkippedPhaseDisplay::Prune)
            } else {
                None
            }),
    {
        let t = read_setting(s);
        if str_eq(t.as_str(), "elide") {
            Some(SkippedPhaseDisplay::Elide)
        } else if str_eq(t.as_str(), "mark") {
            Some(SkippedPhaseDisplay::Mark)
        } else if str_eq(t.as_str(), "prune") {
            Some(SkippedPhaseDisplay::Prune)
        } else {
            None
        }
    }
}

/// How much of a completed phase stays in view.
#[derive(Debug, Clone, Copy, PartialEq, Eq, Structural)]
pub enum CompletedPhaseDisplay {
    /// The header with its details.
    Full,
    /// The header alone.
    Headers,
}

impl Default for CompletedPhaseDisplay {
    fn default() -> (r: Self)
        ensures
            r == CompletedPhaseDisplay::Full,
    {
        CompletedPhaseDisplay::Full
    }
}

impl CompletedPhaseDisplay {
    pub fn parse(s: &str) -> (r: Option<Self>)
        ensures
            r == (if setting(s@) == "full"@ {
                Some(CompletedPhaseDisplay::Full)
            } else if setting(s@) == "headers"@ {
                Some(CompletedPhaseDisplay::Headers)
            } else {
                None
            }),
    {
        let t = read_setting(s);
        if str_eq(t.as_str(), "full") {
            Some(CompletedPhaseDisplay::Full)
        } else if str_eq(t.as_str(), "headers") {
            Some(CompletedPhaseDisplay::Headers)
        } else {
            None
        }
    }
}

/// What a run has set on its observer surface.
#[derive(Debug, Clone, Copy, PartialEq, Eq, Structural)]
pub struct ObserverState {
    pub skipped: SkippedPhaseDisplay,
    pub completed: CompletedPhaseDisplay,
    /// When the explaining overlay goes off by itself, in nanoseconds; zero
    /// while it is off.
    pub explain_until: u64,
    /// When the overlay key was last taken, in nanoseconds; zero for never.
    pub last_press: u64,
    pub paused: bool,
    /// The first level that was set for the file.
    pub retain: Option<LogLevel>,
    /// The first level that was set for the console.
    pub display: Option<LogLevel>,
}

impl Default for ObserverState {
    fn default() -> (r: Self)
        ensures
            r == (ObserverState {
                skipped: SkippedPhaseDisplay::Mark,
                completed: CompletedPhaseDisplay::Full,
                explain_until: 0,
                last_press: 0,
                paused: false,
                retain: None,
                display: None,
            }),
    {
        ObserverState {
            skipped: SkippedPhaseDisplay::Mark,
            completed: CompletedPhaseDisplay::Full,
            explain_until: 0,
            last_press: 0,
            paused: false,
            retain: None,
            display: None,
        }
    }
}

pub fn set_skipped_phase_display(state: &mut ObserverState, mode: SkippedPhaseDisplay)
    ensures
        *final(state) == (ObserverState { skipped: mode, ..*old(state) }),
{
    state.skipped = mode;
}

pub fn skipped_phase_display(state: &ObserverState) -> (r: SkippedPhaseDisplay)
    ensures
        r == state.skipped,
{
    state.skipped
}

pub fn set_completed_phase_display(state: &mut ObserverState, mode: CompletedPhaseDisplay)
    ensures
        *final(state) == (ObserverState { completed: mode, ..*old(state) }),
{
    state.completed = mode;
}

pub fn completed_phase_display(state: &ObserverState) -> (r: CompletedPhaseDisplay)
    ensures
        r == state.completed,
{
    state.completed
}

/// How long the overlay stays on, in nanoseconds.
pub const EXPLAIN_REVERT_NANOS: u64 = 10_000_000_000;

/// How long after a press of the overlay key further presses are ignored, in
/// nanoseconds: a held key repeats.
pub const EXPLAIN_DEBOUNCE_NANOS: u64 = 250_000_000;

/// The overlay is on at `now`.
pub open spec fn explaining(s: ObserverState, now: u64) -> bool {
    s.explain_until != 0 && now < s.explain_until
}

/// A press at `now` is a repetition of the one taken before.
pub open spec fn is_repeat(s: ObserverState, now: u64) -> bool {
    s.last_press != 0 && now - s.last_press < EXPLAIN_DEBOUNCE_NANOS
}

/// The deadline of an overlay that goes on at `now`.
pub open spec fn explain_deadline(now: u64) -> u64 {
    if now + EXPLAIN_REVERT_NANOS <= u64::MAX {
        (now + EXPLAIN_REVERT_NANOS) as u64
    } else {
        u64::MAX
    }
}

/// The state after a press at `now`.
pub open spec fn pressed(s: ObserverState, now: u64) -> ObserverState {
    if is_repeat(s, now) {
        s
    } else if explaining(s, now) {
        ObserverState { last_press: now, explain_until: 0, ..s }
    } else {
        ObserverState { last_press: now, explain_until: explain_deadline(now), ..s }
    }
}

/// Takes a press of the overlay key at `now`: the overlay goes on with a
/// deadline, or off if it is on. A repetition changes nothing.
pub fn toggle_explain(state: &mut ObserverState, now: u64)
    ensures
        *final(state) == pressed(*old(state), now),
{
    if state.last_press != 0 && (now < state.last_press || now - state.last_press
        < EXPLAIN_DEBOUNCE_NANOS) {
        return;
    }
    state.last_press = now;
    if state.explain_until != 0 && now < state.explain_until {
        state.explain_until = 0;
    } else if now <= u64::MAX - EXPLAIN_REVERT_NANOS {
        state.explain_until = now + EXPLAIN_REVERT_NANOS;
    } else {
        state.explain_until = u64::MAX;
    }
}

/// Whether the overlay is on at `now`.
pub fn is_explain_held(state: &ObserverState, now: u64) -> (r: bool)
    ensures
        r == explaining(*state, now),
{
    state.explain_until != 0 && now < state.explain_until
}

/// A press that is no repetition turns the overlay over, and it never stays on
/// for longer than its time.
pub proof fn law_press_turns_over(s: ObserverState, now: u64, later: u64)
    requires
        !is_repeat(s, now),
        now < u64::MAX,
    ensures
        explaining(pressed(s, now), now) != explaining(s, now),
        later >= now + EXPLAIN_REVERT_NANOS ==> !explaining(pressed(s, now), later),
{
}

/// Presses that come quicker than the debounce time after one that was taken
/// change nothing.
pub proof fn law_held_key_counts_once(s: ObserverState, now: u64, again: u64)
    requires
        !is_repeat(s, now),
        now != 0,
        again - now < EXPLAIN_DEBOUNCE_NANOS,
    ensures
        pressed(pressed(s, now), again) == pressed(s, now),
{
}

/// Turns the pause of the readouts over and says whether it is now on.
pub fn toggle_readout_pause(state: &mut ObserverState) -> (r: bool)
    ensures
        r == !old(state).paused,
        *final(state) == (ObserverState { paused: r, ..*old(state) }),
{
    state.paused = !state.paused;
    state.paused
}

pub fn readouts_paused(state: &ObserverState) -> (r: bool)
    ensures
        r == state.paused,
{
    state.paused
}

/// Sets the least severity that reaches the file. Only the first call counts.
pub fn set_retain_level(state: &mut ObserverState, level: LogLevel)
    ensures
        *final(state) == (if old(state).retain is Some {
            *old(state)
        } else {
            ObserverState { retain: Some(level), ..*old(state) }
        }),
{
    if state.retain.is_none() {
        state.retain = Some(level);
    }
}

pub open spec fn retained_from(s: ObserverState) -> LogLevel {
    match s.retain {
        Some(l) => l,
        None => LogLevel::Debug,
    }
}

/// The least severity that reaches the file.
pub fn retain_level(state: &ObserverState) -> (r: LogLevel)
    ensures
        r == retained_from(*state),
{
    match state.retain {
        Some(l) => l,
        None => LogLevel::Debug,
    }
}

/// Sets the least severity that reaches the console. Only the first call counts.
pub fn set_display_level(state: &mut ObserverState, level: LogLevel)
    ensures
        *final(state) == (if old(state).display is Some {
            *old(state)
        } else {
            ObserverState { display: Some(level), ..*old(state) }
        }),
{
    if state.display.is_none() {
        state.display = Some(level);
    }
}

/// The least severity that reaches the console.
pub fn display_level(state: &ObserverState) -> (r: LogLevel)
    ensures
        r == (match state.display {
            Some(l) => l,
            None => LogLevel::Info,
        }),
{
    match state.display {
        Some(l) => l,
        None => LogLevel::Info,
    }
}

/// An event to be logged.
#[derive(Debug, Clone, PartialEq)]
pub struct LogEntry {
    pub level: LogLevel,
    pub tag: EventTag,
    pub message: String,
}

/// What is installed to take events.
#[derive(Debug, Clone, Copy, PartialEq, Eq, Structural)]
pub struct Installed {
    /// A file that keeps events.
    pub sink: bool,
    /// An observer of the run.
    pub observer: bool,
    /// A channel for the output of ops.
    pub channel: bool,
    /// Files that take traces.
    pub trace_sinks: usize,
}

/// Who is shown an event.
#[derive(Debug, Clone, Copy, PartialEq, Eq, Structural)]
pub enum Audience {
    /// The observer of the run.
    Observer,
    /// The console itself.
    Surface,
}

/// Where an event goes.
pub struct LogRoute {
    /// The line for the file.
    pub kept: Option<String>,
    pub audience: Audience,
    pub entry: LogEntry,
}

/// The line of an event in the file.
pub open spec fn file_line(timestamp: Seq<char>, level: LogLevel, plain: Seq<char>) -> Seq<char> {
    timestamp + " "@ + level_tag(level) + " "@ + plain + "\n"@
}

fn kept_line(
    state: &ObserverState,
    installed: &Installed,
    level: LogLevel,
    timestamp: &str,
    plain: &str,
) -> (r: Option<String>)
    ensures
        r is Some <==> severity(level) >= severity(retained_from(*state)) && installed.sink,
        r matches Some(line) ==> line@ == file_line(timestamp@, level, plain@),
{
    if level.at_least(retain_level(state)) && installed.sink {
        Some(text::cat6(timestamp, " ", level.tag(), " ", plain, "\n"))
    } else {
        None
    }
}

/// Where an event goes: to the file where it is severe enough and there is one,
/// as plain text, and to the observer, or to the console while there is none.
pub fn log_tagged(
    state: &ObserverState,
    installed: &Installed,
    entry: LogEntry,
    timestamp: &str,
    plain: &str,
) -> (r: LogRoute)
    ensures
        r.kept is Some <==> severity(entry.level) >= severity(retained_from(*state))
            && installed.sink,
        r.kept matches Some(line) ==> line@ == file_line(timestamp@, entry.level, plain@),
        r.audience == (if installed.observer {
            Audience::Observer
        } else {
            Audience::Surface
        }),
        r.entry == entry,
{
    let kept = kept_line(state, installed, entry.level, timestamp, plain);
    let audience = if installed.observer {
        Audience::Observer
    } else {
        Audience::Surface
    };
    LogRoute { kept, audience, entry }
}

/// Where an ordinary event in flight goes.
pub fn log(
    state: &ObserverState,
    installed: &Installed,
    level: LogLevel,
    message: &str,
    timestamp: &str,
    plain: &str,
) -> (r: LogRoute)
    ensures
        r.kept is Some <==> severity(level) >= severity(retained_from(*state)) && installed.sink,
        r.kept matches Some(line) ==> line@ == file_line(timestamp@, level, plain@),
        r.audience == (if installed.observer {
            Audience::Observer
        } else {
            Audience::Surface
        }),
        r.entry.level == level,
        r.entry.tag == (EventTag { attached: None, category: EventCategory::General }),
        r.entry.message@ == message@,
{
    let entry = LogEntry { level, tag: EventTag::default(), message: message.to_owned() };
    log_tagged(state, installed, entry, timestamp, plain)
}

/// Where a line of op output goes.
pub enum OutputRoute {
    /// To the channel, which takes care of it.
    Channel,
    /// Raw to the standard output, and this line to the file.
    Raw(Option<String>),
}

/// Where a line of op output goes: to the channel, or while there is none, raw
/// to the standard output and to the file at the level of information.
pub fn op_output(
    state: &ObserverState,
    installed: &Installed,
    timestamp: &str,
    plain: &str,
) -> (r: OutputRoute)
    ensures
        r is Channel <==> installed.channel,
        r matches OutputRoute::Raw(kept) ==> {
            &&& kept is Some <==> severity(LogLevel::Info) >= severity(retained_from(*state))
                && installed.sink
            &&& kept matches Some(line) ==> line@ == file_line(timestamp@, LogLevel::Info, plain@)
        },
{
    if installed.channel {
        OutputRoute::Channel
    } else {
        OutputRoute::Raw(kept_line(state, installed, LogLevel::Info, timestamp, plain))
    }
}

/// The escape sequence that a level is shown in.
pub open spec fn level_color(l: LogLevel) -> Seq<char> {
    match l {
        LogLevel::Trace => "\x1b[2;90m"@,
        LogLevel::Debug => "\x1b[2m"@,
        LogLevel::Info => Seq::empty(),
        LogLevel::Warn => "\x1b[33m"@,
        LogLevel::Error => "\x1b[1;31m"@,
    }
}

/// A message in the color of its level. Information keeps the color of the
/// terminal.
pub fn colorize_log_line(level: LogLevel, message: &str, use_color: bool) -> (r: String)
    ensures
        r@ == (if use_color && level != LogLevel::Info {
            level_color(level) + message@ + "\x1b[0m"@
        } else {
            message@
        }),
{
    if !use_color {
        return message.to_owned();
    }
    match level {
        LogLevel::Trace => cat3("\x1b[2;90m", message, "\x1b[0m"),
        LogLevel::Debug => cat3("\x1b[2m", message, "\x1b[0m"),
        LogLevel::Info => message.to_owned(),
        LogLevel::Warn => cat3("\x1b[33m", message, "\x1b[0m"),
        LogLevel::Error => cat3("\x1b[1;31m", message, "\x1b[0m"),
    }
}

/// Whether anything takes traces.
pub fn trace_enabled(installed: &Installed) -> (r: bool)
    ensures
        r == (installed.trace_sinks > 0),
{
    installed.trace_sinks > 0
}

/// The observer that writes to the console.
#[derive(Debug, Clone, Copy, PartialEq, Eq, Structural)]
pub struct StderrObserver {
    /// The least severity that is shown.
    pub min_level: LogLevel,
}

impl Default for StderrObserver {
    fn default() -> (r: Self)
        ensures
            r.min_level == LogLevel::Info,
    {
        StderrObserver { min_level: LogLevel::Info }
    }
}

/// A message that follows a key press echoed on the same line.
pub open spec fn follows_echo(message: Seq<char>) -> bool {
    "session: graceful shutdown requested"@.is_prefix_of(message)
        || "session: force-exit"@.is_prefix_of(message)
}

/// What the console shows of a message.
#[derive(Debug, Clone, Copy, PartialEq, Eq, Structural)]
pub enum Shown {
    Hidden,
    Line,
    /// A blank line first.
    LineBelowBlank,
}

impl StderrObserver {
    pub fn with_min_level(min_level: LogLevel) -> (r: Self)
        ensures
            r.min_level == min_level,
    {
        StderrObserver { min_level }
    }

    /// What the console shows of a message: nothing below the least severity,
    /// and a blank line above one that follows an echoed key press.
    pub fn shows(&self, level: LogLevel, message: &str) -> (r: Shown)
        ensures
            r == (if severity(level) < severity(self.min_level) {
                Shown::Hidden
            } else if follows_echo(message@) {
                Shown::LineBelowBlank
            } else {
                Shown::Line
            }),
    {
        if !level.at_least(self.min_level) {
            Shown::Hidden
        } else if starts_with(message, "session: graceful shutdown requested") || starts_with(
            message,
            "session: force-exit",
        ) {
            Shown::LineBelowBlank
        } else {
            Shown::Line
        }
    }

    /// What is said when a phase starts.
    pub fn phase_starting(
        &self,
        name: &str,
        op_templates: usize,
        total_cycles: u64,
        concurrency: usize,
    ) -> (r: String)
        ensures
            r@ == ("phase '"@ + name@ + "': "@ + text::decimal(op_templates as nat) + " "@ + (if op_templates
                == 1 {
                "op template"@
            } else {
                "op templates"@
            }) + ", "@ + text::decimal(total_cycles as nat)) + (" "@ + (if total_cycles == 1 {
                "cycle"@
            } else {
                "cycles"@
            }) + ", concurrency="@ + text::decimal(concurrency as nat)),
    {
        let template_word = if op_templates == 1 {
            "op template"
        } else {
            "op templates"
        };
        let cycle_word = if total_cycles == 1 {
            "cycle"
        } else {
            "cycles"
        };
        let head = cat8(
            "phase '",
            name,
            "': ",
            u64_text(op_templates as u64).as_str(),
            " ",
            template_word,
            ", ",
            u64_text(total_cycles).as_str(),
        );
        let tail = text::cat4(
            " ",
            cycle_word,
            ", concurrency=",
            u64_text(concurrency as u64).as_str(),
        );
        cat2(head.as_str(), tail.as_str())
    }

    /// What is said when the run is over.
    pub fn run_finished(&self) -> (r: &'static str)
        ensures
            r@ == "all phases complete"@,
    {
        "all phases complete"
    }
}

/// A press that counts turns the overlay on for ten seconds, where it was off, and off
/// where it was on; it changes nothing else but when the key was last taken.
pub proof fn law_overlay_lasts_its_time(s: ObserverState, now: u64, later: u64)
    requires
        s.last_press == 0 || now - s.last_press >= 250_000_000,
        now <= later,
        now + 10_000_000_000 <= u64::MAX,
    ensures
        ({
            let on = s.explain_until != 0 && now < s.explain_until;
            let after = pressed(s, now);
            &&& on ==> !explaining(after, later)
            &&& !on ==> (explaining(after, later) <==> later - now < 10_000_000_000)
            &&& after == (ObserverState {
                last_press: now,
                explain_until: after.explain_until,
                ..s
            })
        }),
{
}

/// A press within a quarter of a second of the last one that counted does nothing.
pub proof fn law_quick_press_does_nothing(s: ObserverState, now: u64)
    requires
        s.last_press != 0,
        now - s.last_press < 250_000_000,
    ensures
        pressed(s, now) == s,
{
}

/// Levels are ordered from tracing to errors, and what is kept where nothing is set begins
/// with debugging.
pub proof fn law_levels_grow_in_severity(s: ObserverState)
    ensures
        severity(LogLevel::Trace) < severity(LogLevel::Debug) < severity(LogLevel::Info) < severity(
            LogLevel::Warn,
        ) < severity(LogLevel::Error),
        s.retain is None ==> retained_from(s) == LogLevel::Debug,
        s.retain matches Some(l) ==> retained_from(s) == l,
{
}

/// A setting is read without regard to white space around it and to capital letters.
pub proof fn law_setting_ignores_case_and_space(s: Seq<char>)
    ensures
        setting(text::trimmed(s)) == setting(s),
        setting(s) == text::ascii_lower(text::trimmed(s)),
        text::ascii_lower(setting(s)) == setting(s),
{
    text::law_trimmed_is_stable(s);
    let t = text::trimmed(s);
    assert(text::ascii_lower(text::ascii_lower(t)) =~= text::ascii_lower(t));
}

} // verus!
