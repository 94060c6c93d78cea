//! State-space sketch of the host/agent turn handoff: a small decision table
//! from (state, event) to a decision, deliberately partial. A combination
//! that no rule covers is reported as `Undefined` with an `unhandled/...`
//! rule id and no successor, never mapped onto an existing behaviour.
use vstd::prelude::*;

verus! {

#[derive(Clone, Copy, Debug, PartialEq, Eq, Hash, Structural)]
pub enum Phase {
    Idle,
    Running,
    Stopping,
    Compacting,
    Recovering,
}

/// What the running turn is doing; `NoActivity` renders as `None`.
#[derive(Clone, Copy, Debug, PartialEq, Eq, Hash, Structural)]
pub enum Activity {
    NoActivity,
    Model,
    Tool,
    Question,
}

#[derive(Clone, Copy, Debug, PartialEq, Eq, Hash, Structural)]
pub enum Gate {
    Open,
    Paused,
}

#[derive(Clone, Copy, Debug, PartialEq, Eq, Hash, Structural)]
pub struct State {
    pub phase: Phase,
    pub activity: Activity,
    pub queued: bool,
    pub gate: Gate,
}

impl State {
    pub fn new(phase: Phase, activity: Activity, queued: bool, gate: Gate) -> (r: Self)
        ensures
            r == (State { phase, activity, queued, gate }),
    {
        State { phase, activity, queued, gate }
    }
}

#[derive(Clone, Copy, Debug, PartialEq, Eq, Hash, Structural)]
pub enum Event {
    UserPrompt,
    ToolFinished,
    QuestionAnswered,
    TurnFinished,
    UserStop,
    CompactRequested,
    CompactFinished,
    ProcessRestart,
    RestoreIncompleteTool,
}

#[derive(Clone, Copy, Debug, PartialEq, Eq, Structural)]
pub enum Kind {
    StartTurn,
    Enqueue,
    ContinueTurn,
    FinishTurn,
    StopTurn,
    StartCompaction,
    FinishCompaction,
    Recover,
    PauseUnresolvedTool,
    Reject,
    Undefined,
}

#[derive(Clone, Debug, PartialEq, Eq)]
pub struct Decision {
    pub kind: Kind,
    pub rule_id: String,
    pub next: Option<State>,
}

pub struct DecisionView {
    pub kind: Kind,
    pub rule_id: Seq<char>,
    pub next: Option<State>,
}

impl View for Decision {
    type V = DecisionView;

    open spec fn view(&self) -> DecisionView {
        DecisionView { kind: self.kind, rule_id: self.rule_id@, next: self.next }
    }
}

// ---------------------------------------------------------------------------
// Debug-style rendering
// ---------------------------------------------------------------------------

pub open spec fn phase_text(p: Phase) -> Seq<char> {
    match p {
        Phase::Idle => "Idle"@,
        Phase::Running => "Running"@,
        Phase::Stopping => "Stopping"@,
        Phase::Compacting => "Compacting"@,
        Phase::Recovering => "Recovering"@,
    }
}

pub open spec fn activity_text(a: Activity) -> Seq<char> {
    match a {
        Activity::NoActivity => "None"@,
        Activity::Model => "Model"@,
        Activity::Tool => "Tool"@,
        Activity::Question => "Question"@,
    }
}

pub open spec fn gate_text(g: Gate) -> Seq<char> {
    match g {
        Gate::Open => "Open"@,
        Gate::Paused => "Paused"@,
    }
}

pub open spec fn bool_text(b: bool) -> Seq<char> {
    if b { "true"@ } else { "false"@ }
}

pub open spec fn event_text(e: Event) -> Seq<char> {
    match e {
        Event::UserPrompt => "UserPrompt"@,
        Event::ToolFinished => "ToolFinished"@,
        Event::QuestionAnswered => "QuestionAnswered"@,
        Event::TurnFinished => "TurnFinished"@,
        Event::UserStop => "UserStop"@,
        Event::CompactRequested => "CompactRequested"@,
        Event::CompactFinished => "CompactFinished"@,
        Event::ProcessRestart => "ProcessRestart"@,
        Event::RestoreIncompleteTool => "RestoreIncompleteTool"@,
    }
}

pub open spec fn kind_text(k: Kind) -> Seq<char> {
    match k {
        Kind::StartTurn => "StartTurn"@,
        Kind::Enqueue => "Enqueue"@,
        Kind::ContinueTurn => "ContinueTurn"@,
        Kind::FinishTurn => "FinishTurn"@,
        Kind::StopTurn => "StopTurn"@,
        Kind::StartCompaction => "StartCompaction"@,
        Kind::FinishCompaction => "FinishCompaction"@,
        Kind::Recover => "Recover"@,
        Kind::PauseUnresolvedTool => "PauseUnresolvedTool"@,
        Kind::Reject => "Reject"@,
        Kind::Undefined => "Undefined"@,
    }
}

/// `format!("{state:?}")` of a state.
pub open spec fn state_text(s: State) -> Seq<char> {
    "State { phase: "@ + phase_text(s.phase) + ", activity: "@ + activity_text(s.activity)
        + ", queued: "@ + bool_text(s.queued) + ", gate: "@ + gate_text(s.gate) + " }"@
}

pub fn phase_name(p: Phase) -> (r: &'static str)
    ensures
        r@ == phase_text(p),
{
    match p {
        Phase::Idle => "Idle",
        Phase::Running => "Running",
        Phase::Stopping => "Stopping",
        Phase::Compacting => "Compacting",
        Phase::Recovering => "Recovering",
    }
}

pub fn activity_name(a: Activity) -> (r: &'static str)
    ensures
        r@ == activity_text(a),
{
    match a {
        Activity::NoActivity => "None",
        Activity::Model => "Model",
        Activity::Tool => "Tool",
        Activity::Question => "Question",
    }
}

pub fn gate_name(g: Gate) -> (r: &'static str)
    ensures
        r@ == gate_text(g),
{
    match g {
        Gate::Open => "Open",
        Gate::Paused => "Paused",
    }
}

fn bool_name(b: bool) -> (r: &'static str)
    ensures
        r@ == bool_text(b),
{
    if b { "true" } else { "false" }
}

pub fn event_name(e: Event) -> (r: &'static str)
    ensures
        r@ == event_text(e),
{
    match e {
        Event::UserPrompt => "UserPrompt",
        Event::ToolFinished => "ToolFinished",
        Event::QuestionAnswered => "QuestionAnswered",
        Event::TurnFinished => "TurnFinished",
        Event::UserStop => "UserStop",
        Event::CompactRequested => "CompactRequested",
        Event::CompactFinished => "CompactFinished",
        Event::ProcessRestart => "ProcessRestart",
        Event::RestoreIncompleteTool => "RestoreIncompleteTool",
    }
}

pub fn kind_name(k: Kind) -> (r: &'static str)
    ensures
        r@ == kind_text(k),
{
    match k {
        Kind::StartTurn => "StartTurn",
        Kind::Enqueue => "Enqueue",
        Kind::ContinueTurn => "ContinueTurn",
        Kind::FinishTurn => "FinishTurn",
        Kind::StopTurn => "StopTurn",
        Kind::StartCompaction => "StartCompaction",
        Kind::FinishCompaction => "FinishCompaction",
        Kind::Recover => "Recover",
        Kind::PauseUnresolvedTool => "PauseUnresolvedTool",
        Kind::Reject => "Reject",
        Kind::Undefined => "Undefined",
    }
}

/// The debug rendering of a state, as `State { phase: .., activity: .., queued: .., gate: .. }`.
pub fn state_debug(s: State) -> (r: String)
    ensures
        r@ == state_text(s),
{
    let mut r = String::from_str("State { phase: ");
    r.append(phase_name(s.phase));
    r.append(", activity: ");
    r.append(activity_name(s.activity));
    r.append(", queued: ");
    r.append(bool_name(s.queued));
    r.append(", gate: ");
    r.append(gate_name(s.gate));
    r.append(" }");
    r
}


// ---------------------------------------------------------------------------
// Candidate events and the decision table
// ---------------------------------------------------------------------------

/// The events worth trying from `state`, in the order they are tried.
pub open spec fn candidate_events_spec(state: State) -> Seq<Event> {
    let first = seq![Event::UserPrompt];
    match state.phase {
        Phase::Idle => first.push(Event::CompactRequested),
        Phase::Running => {
            let base = first + seq![Event::TurnFinished, Event::UserStop, Event::CompactRequested, Event::ProcessRestart];
            let with_tool = if state.activity == Activity::Tool { base.push(Event::ToolFinished) } else { base };
            if state.activity == Activity::Question { with_tool.push(Event::QuestionAnswered) } else { with_tool }
        },
        Phase::Stopping => first + seq![Event::TurnFinished, Event::ProcessRestart],
        Phase::Compacting => first + seq![Event::CompactFinished, Event::ProcessRestart],
        Phase::Recovering => first.push(Event::RestoreIncompleteTool),
    }
}

pub fn candidate_events(state: State) -> (r: Vec<Event>)
    ensures
        r@ == candidate_events_spec(state),
{
    let mut events: Vec<Event> = Vec::new();
    events.push(Event::UserPrompt);
    match state.phase {
        Phase::Idle => events.push(Event::CompactRequested),
        Phase::Running => {
            events.push(Event::TurnFinished);
            events.push(Event::UserStop);
            events.push(Event::CompactRequested);
            events.push(Event::ProcessRestart);
            if state.activity == Activity::Tool {
                events.push(Event::ToolFinished);
            }
            if state.activity == Activity::Question {
                events.push(Event::QuestionAnswered);
            }
        },
        Phase::Stopping => {
            events.push(Event::TurnFinished);
            events.push(Event::ProcessRestart);
        },
        Phase::Compacting => {
            events.push(Event::CompactFinished);
            events.push(Event::ProcessRestart);
        },
        Phase::Recovering => events.push(Event::RestoreIncompleteTool),
    }
    proof {
        assert(events@ =~= candidate_events_spec(state));
    }
    events
}

pub open spec fn dv(kind: Kind, rule_id: Seq<char>, next: Option<State>) -> DecisionView {
    DecisionView { kind, rule_id, next }
}

/// The rule id given to a combination no rule covers.
pub open spec fn unhandled_rule(state: State, event: Event) -> Seq<char> {
    "unhandled/"@ + state_text(state) + "/"@ + event_text(event)
}

/// The state a finished turn leaves: the queued prompt starts the next
/// turn, otherwise the host idles behind `idle_gate`.
pub open spec fn drained(state: State, idle_gate: Gate) -> State {
    if state.queued {
        State { phase: Phase::Running, activity: Activity::Model, queued: false, gate: Gate::Open }
    } else {
        State { phase: Phase::Idle, activity: Activity::NoActivity, queued: false, gate: idle_gate }
    }
}

/// The decision table, rules tried in order.
pub open spec fn evaluate_spec(state: State, event: Event) -> DecisionView {
    let (p, a, g) = (state.phase, state.activity, state.gate);
    if p == Phase::Idle && a == Activity::NoActivity && g == Gate::Open && event == Event::UserPrompt {
        dv(Kind::StartTurn, "idle_user_starts_turn"@,
            Some(State { phase: Phase::Running, activity: Activity::Model, queued: false, gate: Gate::Open }))
    } else if p == Phase::Running && event == Event::UserPrompt {
        dv(Kind::Enqueue, "busy_user_joins_next_turn"@, Some(State { queued: true, ..state }))
    } else if p == Phase::Running && a == Activity::Tool && event == Event::ToolFinished {
        dv(Kind::ContinueTurn, "tool_result_keeps_current_turn"@, Some(State { activity: Activity::Model, ..state }))
    } else if p == Phase::Running && a == Activity::Question && event == Event::QuestionAnswered {
        dv(Kind::ContinueTurn, "answer_resumes_current_turn"@, Some(State { activity: Activity::Model, ..state }))
    } else if p == Phase::Running && (a == Activity::Model || a == Activity::NoActivity) && g == Gate::Open
        && event == Event::TurnFinished {
        dv(Kind::FinishTurn, "completed_turn_drains_next_turn"@, Some(drained(state, Gate::Open)))
    } else if p == Phase::Running && event == Event::UserStop {
        dv(Kind::StopTurn, "stop_settles_current_turn"@, Some(State { phase: Phase::Stopping, gate: Gate::Paused, ..state }))
    } else if p == Phase::Stopping && g == Gate::Paused && event == Event::TurnFinished {
        dv(Kind::FinishTurn, "stopped_turn_preserves_queued_user"@, Some(drained(state, Gate::Paused)))
    } else if p == Phase::Idle && a == Activity::NoActivity && g == Gate::Open && event == Event::CompactRequested {
        dv(Kind::StartCompaction, "idle_manual_compaction"@,
            Some(State { phase: Phase::Compacting, activity: Activity::NoActivity, queued: state.queued, gate: Gate::Open }))
    } else if p == Phase::Compacting && a == Activity::NoActivity && event == Event::CompactFinished && !state.queued {
        dv(Kind::FinishCompaction, "idle_compaction_finishes"@,
            Some(State { phase: Phase::Idle, activity: Activity::NoActivity, queued: false, gate: Gate::Open }))
    } else if p == Phase::Running && a == Activity::Tool && event == Event::ProcessRestart {
        dv(Kind::Recover, "restart_enters_incomplete_tool_recovery"@,
            Some(State { phase: Phase::Recovering, activity: Activity::Tool, queued: state.queued, gate: Gate::Paused }))
    } else if p == Phase::Recovering && a == Activity::Tool && g == Gate::Paused && event == Event::RestoreIncompleteTool {
        dv(Kind::PauseUnresolvedTool, "host_restore_pauses_incomplete_tool"@,
            Some(State { phase: Phase::Idle, activity: Activity::NoActivity, queued: state.queued, gate: Gate::Paused }))
    } else if ((p == Phase::Idle && event == Event::TurnFinished) || event == Event::ToolFinished) && a != Activity::Tool {
        dv(Kind::Reject, "event_has_no_matching_active_work"@, None)
    } else if event == Event::QuestionAnswered && a != Activity::Question {
        dv(Kind::Reject, "answer_has_no_pending_question"@, None)
    } else {
        dv(Kind::Undefined, unhandled_rule(state, event), None)
    }
}

pub fn decision(kind: Kind, rule_id: String, next: Option<State>) -> (r: Decision)
    ensures
        r@ == dv(kind, rule_id@, next),
{
    Decision { kind, rule_id, next }
}

fn rule(kind: Kind, rule_id: &str, next: Option<State>) -> (r: Decision)
    ensures
        r@ == dv(kind, rule_id@, next),
{
    decision(kind, String::from_str(rule_id), next)
}

fn drain(state: State, idle_gate: Gate) -> (r: State)
    ensures
        r == drained(state, idle_gate),
{
    if state.queued {
        State::new(Phase::Running, Activity::Model, false, Gate::Open)
    } else {
        State::new(Phase::Idle, Activity::NoActivity, false, idle_gate)
    }
}

/// Evaluate one event against the table. Deliberately partial: an
/// uncovered combination is reported as `Undefined`.
pub fn evaluate(state: State, event: Event) -> (r: Decision)
    ensures
        r@ == evaluate_spec(state, event),
{
    let (p, a, g) = (state.phase, state.activity, state.gate);
    if p == Phase::Idle && a == Activity::NoActivity && g == Gate::Open && event == Event::UserPrompt {
        rule(Kind::StartTurn, "idle_user_starts_turn", Some(State::new(Phase::Running, Activity::Model, false, Gate::Open)))
    } else if p == Phase::Running && event == Event::UserPrompt {
        rule(Kind::Enqueue, "busy_user_joins_next_turn", Some(State { queued: true, ..state }))
    } else if p == Phase::Running && a == Activity::Tool && event == Event::ToolFinished {
        rule(Kind::ContinueTurn, "tool_result_keeps_current_turn", Some(State { activity: Activity::Model, ..state }))
    } else if p == Phase::Running && a == Activity::Question && event == Event::QuestionAnswered {
        rule(Kind::ContinueTurn, "answer_resumes_current_turn", Some(State { activity: Activity::Model, ..state }))
    } else if p == Phase::Running && (a == Activity::Model || a == Activity::NoActivity) && g == Gate::Open
        && event == Event::TurnFinished {
        rule(Kind::FinishTurn, "completed_turn_drains_next_turn", Some(drain(state, Gate::Open)))
    } else if p == Phase::Running && event == Event::UserStop {
        rule(Kind::StopTurn, "stop_settles_current_turn", Some(State { phase: Phase::Stopping, gate: Gate::Paused, ..state }))
    } else if p == Phase::Stopping && g == Gate::Paused && event == Event::TurnFinished {
        rule(Kind::FinishTurn, "stopped_turn_preserves_queued_user", Some(drain(state, Gate::Paused)))
    } else if p == Phase::Idle && a == Activity::NoActivity && g == Gate::Open && event == Event::CompactRequested {
        rule(Kind::StartCompaction, "idle_manual_compaction",
            Some(State::new(Phase::Compacting, Activity::NoActivity, state.queued, Gate::Open)))
    } else if p == Phase::Compacting && a == Activity::NoActivity && event == Event::CompactFinished && !state.queued {
        rule(Kind::FinishCompaction, "idle_compaction_finishes",
            Some(State::new(Phase::Idle, Activity::NoActivity, false, Gate::Open)))
    } else if p == Phase::Running && a == Activity::Tool && event == Event::ProcessRestart {
        rule(Kind::Recover, "restart_enters_incomplete_tool_recovery",
            Some(State::new(Phase::Recovering, Activity::Tool, state.queued, Gate::Paused)))
    } else if p == Phase::Recovering && a == Activity::Tool && g == Gate::Paused && event == Event::RestoreIncompleteTool {
        rule(Kind::PauseUnresolvedTool, "host_restore_pauses_incomplete_tool",
            Some(State::new(Phase::Idle, Activity::NoActivity, state.queued, Gate::Paused)))
    } else if ((p == Phase::Idle && event == Event::TurnFinished) || event == Event::ToolFinished) && a != Activity::Tool {
        rule(Kind::Reject, "event_has_no_matching_active_work", None)
    } else if event == Event::QuestionAnswered && a != Activity::Question {
        rule(Kind::Reject, "answer_has_no_pending_question", None)
    } else {
        let mut id = String::from_str("unhandled/");
        let st = state_debug(state);
        id.append(st.as_str());
        id.append("/");
        id.append(event_name(event));
        decision(Kind::Undefined, id, None)
    }
}


// ---------------------------------------------------------------------------
// Named profiles
// ---------------------------------------------------------------------------

/// A named, reviewed scenario: from `state`, `event` must be decided as
/// `expected` by the rule `rule_id`.
#[derive(Clone, Copy, Debug)]
pub struct Profile {
    pub name: &'static str,
    pub state: State,
    pub event: Event,
    pub expected: Kind,
    pub rule_id: &'static str,
}

pub open spec fn st(phase: Phase, activity: Activity, queued: bool, gate: Gate) -> State {
    State { phase, activity, queued, gate }
}

/// The registered profiles, in order.
pub open spec fn profile_table() -> Seq<Profile> {
    seq![
        Profile { name: "idle prompt", state: st(Phase::Idle, Activity::NoActivity, false, Gate::Open),
            event: Event::UserPrompt, expected: Kind::StartTurn, rule_id: "idle_user_starts_turn" },
        Profile { name: "running model prompt", state: st(Phase::Running, Activity::Model, false, Gate::Open),
            event: Event::UserPrompt, expected: Kind::Enqueue, rule_id: "busy_user_joins_next_turn" },
        Profile { name: "running tool prompt", state: st(Phase::Running, Activity::Tool, false, Gate::Open),
            event: Event::UserPrompt, expected: Kind::Enqueue, rule_id: "busy_user_joins_next_turn" },
        Profile { name: "running tool settles", state: st(Phase::Running, Activity::Tool, true, Gate::Open),
            event: Event::ToolFinished, expected: Kind::ContinueTurn, rule_id: "tool_result_keeps_current_turn" },
        Profile { name: "question answered", state: st(Phase::Running, Activity::Question, false, Gate::Open),
            event: Event::QuestionAnswered, expected: Kind::ContinueTurn, rule_id: "answer_resumes_current_turn" },
        Profile { name: "stopped queued turn", state: st(Phase::Stopping, Activity::Model, true, Gate::Paused),
            event: Event::TurnFinished, expected: Kind::FinishTurn, rule_id: "stopped_turn_preserves_queued_user" },
        Profile { name: "completed turn drains queue", state: st(Phase::Running, Activity::Model, true, Gate::Open),
            event: Event::TurnFinished, expected: Kind::FinishTurn, rule_id: "completed_turn_drains_next_turn" },
        Profile { name: "crashed tool restored", state: st(Phase::Recovering, Activity::Tool, false, Gate::Paused),
            event: Event::RestoreIncompleteTool, expected: Kind::PauseUnresolvedTool,
            rule_id: "host_restore_pauses_incomplete_tool" },
    ]
}

fn profile(name: &'static str, state: State, event: Event, expected: Kind, rule_id: &'static str) -> (r: Profile)
    ensures
        r == (Profile { name, state, event, expected, rule_id }),
{
    Profile { name, state, event, expected, rule_id }
}

/// The registered profiles.
pub fn profiles() -> (r: Vec<Profile>)
    ensures
        r@ == profile_table(),
{
    let mut v: Vec<Profile> = Vec::new();
    v.push(profile("idle prompt", State::new(Phase::Idle, Activity::NoActivity, false, Gate::Open),
        Event::UserPrompt, Kind::StartTurn, "idle_user_starts_turn"));
    v.push(profile("running model prompt", State::new(Phase::Running, Activity::Model, false, Gate::Open),
        Event::UserPrompt, Kind::Enqueue, "busy_user_joins_next_turn"));
    v.push(profile("running tool prompt", State::new(Phase::Running, Activity::Tool, false, Gate::Open),
        Event::UserPrompt, Kind::Enqueue, "busy_user_joins_next_turn"));
    v.push(profile("running tool settles", State::new(Phase::Running, Activity::Tool, true, Gate::Open),
        Event::ToolFinished, Kind::ContinueTurn, "tool_result_keeps_current_turn"));
    v.push(profile("question answered", State::new(Phase::Running, Activity::Question, false, Gate::Open),
        Event::QuestionAnswered, Kind::ContinueTurn, "answer_resumes_current_turn"));
    v.push(profile("stopped queued turn", State::new(Phase::Stopping, Activity::Model, true, Gate::Paused),
        Event::TurnFinished, Kind::FinishTurn, "stopped_turn_preserves_queued_user"));
    v.push(profile("completed turn drains queue", State::new(Phase::Running, Activity::Model, true, Gate::Open),
        Event::TurnFinished, Kind::FinishTurn, "completed_turn_drains_next_turn"));
    v.push(profile("crashed tool restored", State::new(Phase::Recovering, Activity::Tool, false, Gate::Paused),
        Event::RestoreIncompleteTool, Kind::PauseUnresolvedTool, "host_restore_pauses_incomplete_tool"));
    proof {
        assert(v@ =~= profile_table());
    }
    v
}

/// Why a named profile does not hold.
#[derive(Clone, Copy, Debug, PartialEq, Eq, Structural)]
pub enum ProfileMismatch {
    NotRegistered,
    KindDiffers,
    RuleDiffers,
    NoSuccessor,
}

/// The first profile in `ps` named `name`.
pub open spec fn find_profile(ps: Seq<Profile>, name: Seq<char>) -> Option<Profile>
    decreases ps.len(),
{
    if ps.len() == 0 {
        None
    } else if ps[0].name@ == name {
        Some(ps[0])
    } else {
        find_profile(ps.drop_first(), name)
    }
}

/// Whether the table decides the profile's scenario as it expects.
pub open spec fn profile_check(p: Profile) -> Result<(), ProfileMismatch> {
    let d = evaluate_spec(p.state, p.event);
    if d.kind != p.expected {
        Err(ProfileMismatch::KindDiffers)
    } else if d.rule_id != p.rule_id@ {
        Err(ProfileMismatch::RuleDiffers)
    } else if d.next is None {
        Err(ProfileMismatch::NoSuccessor)
    } else {
        Ok(())
    }
}

pub open spec fn assert_profile_spec(name: Seq<char>) -> Result<(), ProfileMismatch> {
    match find_profile(profile_table(), name) {
        None => Err(ProfileMismatch::NotRegistered),
        Some(p) => profile_check(p),
    }
}

/// Check the registered profile called `name` against the table.
pub fn assert_profile(name: &str) -> (r: Result<(), ProfileMismatch>)
    ensures
        r == assert_profile_spec(name@),
{
    let ps = profiles();
    let mut i: usize = 0;
    assert(ps@.skip(0) =~= ps@);
    while i < ps.len()
        invariant
            ps@ == profile_table(),
            i <= ps@.len(),
            find_profile(profile_table(), name@) == find_profile(ps@.skip(i as int), name@),
        decreases ps.len() - i,
    {
        let p = ps[i];
        assert(ps@.skip(i as int).drop_first() =~= ps@.skip(i + 1));
        if crate::text::str_eq(p.name, name) {
            let d = evaluate(p.state, p.event);
            if d.kind != p.expected {
                return Err(ProfileMismatch::KindDiffers);
            }
            if !crate::text::str_eq(d.rule_id.as_str(), p.rule_id) {
                return Err(ProfileMismatch::RuleDiffers);
            }
            if d.next.is_none() {
                return Err(ProfileMismatch::NoSuccessor);
            }
            return Ok(());
        }
        i = i + 1;
    }
    Err(ProfileMismatch::NotRegistered)
}

pub open spec fn table_header() -> Seq<char> {
    "| Profile | Event | Rule ID | Decision |\n| --- | --- | --- | --- |\n"@
}

/// One markdown row: name, event, rule id in backticks, decision.
pub open spec fn profile_row(p: Profile) -> Seq<char> {
    "| "@ + p.name@ + " | "@ + event_text(p.event) + " | `"@ + p.rule_id@ + "` | "@ + kind_text(p.expected) + " |\n"@
}

pub open spec fn profile_rows(ps: Seq<Profile>) -> Seq<char>
    decreases ps.len(),
{
    if ps.len() == 0 {
        Seq::empty()
    } else {
        profile_rows(ps.drop_last()) + profile_row(ps.last())
    }
}

/// The markdown decision table of the registered profiles.
pub fn render_profile_table() -> (r: String)
    ensures
        r@ == table_header() + profile_rows(profile_table()),
{
    let mut table = String::from_str("| Profile | Event | Rule ID | Decision |\n| --- | --- | --- | --- |\n");
    let ps = profiles();
    let mut i: usize = 0;
    while i < ps.len()
        invariant
            i <= ps@.len(),
            table@ == table_header() + profile_rows(ps@.take(i as int)),
        decreases ps.len() - i,
    {
        let p = ps[i];
        table.append("| ");
        table.append(p.name);
        table.append(" | ");
        table.append(event_name(p.event));
        table.append(" | `");
        table.append(p.rule_id);
        table.append("` | ");
        table.append(kind_name(p.expected));
        table.append(" |\n");
        proof {
            assert(ps@.take(i + 1).drop_last() =~= ps@.take(i as int));
            assert(ps@.take(i + 1).last() == p);
        }
        i = i + 1;
    }
    assert(ps@.take(ps@.len() as int) =~= ps@);
    table
}

// ---------------------------------------------------------------------------
// Laws
// ---------------------------------------------------------------------------

/// Every registered profile is decided by the table as it expects: the
/// expected kind, by the expected rule, with a successor state.
pub proof fn law_named_profiles_have_reviewable_rules(i: int)
    requires
        0 <= i < profile_table().len(),
    ensures
        profile_check(profile_table()[i]) == Ok::<(), ProfileMismatch>(()),
{
}

/// The table is deliberately partial: every decision carries a rule id; a
/// successor exists exactly for the accepting kinds; an uncovered
/// combination is `Undefined`, named `unhandled/<state>/<event>`.
pub proof fn law_undefined_is_reported_not_guessed(state: State, event: Event)
    ensures
        evaluate_spec(state, event).rule_id.len() > 0,
        (evaluate_spec(state, event).next is None) <==> (evaluate_spec(state, event).kind == Kind::Reject
            || evaluate_spec(state, event).kind == Kind::Undefined),
        evaluate_spec(state, event).kind == Kind::Undefined ==> evaluate_spec(state, event).rule_id
            == unhandled_rule(state, event),
        evaluate_spec(state, event).kind == Kind::Undefined ==> evaluate_spec(state, event).rule_id.take(10)
            == "unhandled/"@,
{
    reveal_strlit("idle_user_starts_turn");
    reveal_strlit("busy_user_joins_next_turn");
    reveal_strlit("tool_result_keeps_current_turn");
    reveal_strlit("answer_resumes_current_turn");
    reveal_strlit("completed_turn_drains_next_turn");
    reveal_strlit("stop_settles_current_turn");
    reveal_strlit("stopped_turn_preserves_queued_user");
    reveal_strlit("idle_manual_compaction");
    reveal_strlit("idle_compaction_finishes");
    reveal_strlit("restart_enters_incomplete_tool_recovery");
    reveal_strlit("host_restore_pauses_incomplete_tool");
    reveal_strlit("event_has_no_matching_active_work");
    reveal_strlit("answer_has_no_pending_question");
    reveal_strlit("unhandled/");
    let d = evaluate_spec(state, event);
    if d.kind == Kind::Undefined {
        let u = unhandled_rule(state, event);
        assert(u.take(10) =~= "unhandled/"@);
    }
}

/// A prompt admitted while a tool runs only queues: the tool stays in
/// flight, a turn-finished event cannot end it, and only its result hands
/// the turn back to the model.
pub proof fn law_in_flight_tool_is_not_finished_by_queue_admission(state: State)
    requires
        state.phase == Phase::Running,
        state.activity == Activity::Tool,
    ensures
        evaluate_spec(state, Event::UserPrompt).next == Some(State { queued: true, ..state }),
        evaluate_spec(state, Event::TurnFinished).kind == Kind::Undefined,
        evaluate_spec(state, Event::TurnFinished).next is None,
        evaluate_spec(state, Event::ToolFinished).next == Some(State { activity: Activity::Model, ..state }),
{
}

/// Stopping a running turn changes only its phase and gate: the turn is
/// stopping behind a paused gate, and whatever was queued, and whatever the
/// turn was doing, stays as it was. When the stopped turn then finishes, a
/// queued prompt starts the next turn; without one the host idles paused.
pub proof fn law_stop_keeps_the_queued_prompt(state: State)
    requires
        state.phase == Phase::Running,
    ensures
        evaluate_spec(state, Event::UserStop).kind == Kind::StopTurn,
        evaluate_spec(state, Event::UserStop).next matches Some(n) && n.phase == Phase::Stopping && n.gate == Gate::Paused
            && n.queued == state.queued && n.activity == state.activity,
        ({
            let n = evaluate_spec(state, Event::UserStop).next->0;
            let f = evaluate_spec(n, Event::TurnFinished);
            &&& f.kind == Kind::FinishTurn
            &&& state.queued ==> f.next == Some(State { phase: Phase::Running, activity: Activity::Model, queued: false, gate: Gate::Open })
            &&& !state.queued ==> f.next == Some(State { phase: Phase::Idle, activity: Activity::NoActivity, queued: false, gate: Gate::Paused })
        }),
{
}

} // verus!
