use std::collections::{HashSet, VecDeque};

use xharness::statecheck::{
    assert_profile, candidate_events, evaluate, profiles, render_profile_table, state_debug,
    Activity, Event, Gate, Kind, Phase, ProfileMismatch, State,
};

/// The reviewed decision table, in the markdown page it is published in.
const PUBLISHED_TABLE: &str = "# Turn handoff statecheck

<!-- statecheck:begin -->
| Profile | Event | Rule ID | Decision |
| --- | --- | --- | --- |
| idle prompt | UserPrompt | `idle_user_starts_turn` | StartTurn |
| running model prompt | UserPrompt | `busy_user_joins_next_turn` | Enqueue |
| running tool prompt | UserPrompt | `busy_user_joins_next_turn` | Enqueue |
| running tool settles | ToolFinished | `tool_result_keeps_current_turn` | ContinueTurn |
| question answered | QuestionAnswered | `answer_resumes_current_turn` | ContinueTurn |
| stopped queued turn | TurnFinished | `stopped_turn_preserves_queued_user` | FinishTurn |
| completed turn drains queue | TurnFinished | `completed_turn_drains_next_turn` | FinishTurn |
| crashed tool restored | RestoreIncompleteTool | `host_restore_pauses_incomplete_tool` | PauseUnresolvedTool |
<!-- statecheck:end -->
";

#[test]
fn decision_table_in_spec_matches_the_executable_profiles() {
    let page = PUBLISHED_TABLE;
    let table = page
        .split_once("<!-- statecheck:begin -->")
        .expect("page must contain table start")
        .1
        .split_once("<!-- statecheck:end -->")
        .expect("page must contain table end")
        .0;
    assert_eq!(table.trim(), render_profile_table().trim());
}

#[test]
fn named_profiles_have_reviewable_rules() {
    for profile in profiles() {
        assert_eq!(assert_profile(profile.name), Ok(()), "{}", profile.name);
    }
}

#[test]
fn unknown_profile_is_reported() {
    assert_eq!(assert_profile("no such profile"), Err(ProfileMismatch::NotRegistered));
}

#[test]
fn bounded_reachable_enumeration_reports_undefined_instead_of_guessing() {
    let mut seen = HashSet::new();
    let mut frontier = VecDeque::new();
    let table = profiles();
    for profile in &table {
        frontier.push_back((profile.state, 0_u8));
    }
    let mut rows = 0_usize;
    let mut undefined = Vec::new();
    while let Some((state, depth)) = frontier.pop_front() {
        if !seen.insert(state) {
            continue;
        }
        for event in candidate_events(state) {
            let decision = evaluate(state, event);
            rows += 1;
            assert!(!decision.rule_id.is_empty());
            if decision.kind == Kind::Undefined {
                assert!(decision.rule_id.starts_with("unhandled/"));
                undefined.push(decision.rule_id.clone());
            }
            if depth < 3 {
                if let Some(next) = decision.next {
                    frontier.push_back((next, depth + 1));
                }
            }
        }
    }
    assert!(rows >= table.len() * 2);
    assert!(rows < 2_000, "state space should remain reviewable");
    assert!(!undefined.is_empty(), "unreviewed combinations must remain visible");
    undefined.sort();
    undefined.dedup();
    println!(
        "statecheck: reachable_states={} decisions={} undefined={}",
        seen.len(),
        rows,
        undefined.len()
    );
}

#[test]
fn an_in_flight_tool_cannot_be_finished_by_ordinary_queue_admission() {
    let running = State::new(Phase::Running, Activity::Tool, false, Gate::Open);
    let queued = evaluate(running, Event::UserPrompt).next.unwrap();
    assert_eq!(queued.phase, Phase::Running);
    assert_eq!(queued.activity, Activity::Tool);
    assert!(queued.queued);
    assert_eq!(evaluate(queued, Event::TurnFinished).kind, Kind::Undefined);
    let settled = evaluate(queued, Event::ToolFinished).next.unwrap();
    assert_eq!(settled.phase, Phase::Running);
    assert_eq!(settled.activity, Activity::Model);
    assert_eq!(
        evaluate(settled, Event::TurnFinished).next.unwrap().phase,
        Phase::Running
    );
}

#[test]
fn undefined_rule_ids_name_the_state_and_event() {
    let state = State::new(Phase::Compacting, Activity::NoActivity, true, Gate::Open);
    let decision = evaluate(state, Event::CompactFinished);
    assert_eq!(decision.kind, Kind::Undefined);
    assert_eq!(
        decision.rule_id,
        "unhandled/State { phase: Compacting, activity: None, queued: true, gate: Open }/CompactFinished"
    );
    assert!(decision.next.is_none());
    assert_eq!(
        state_debug(State::new(Phase::Idle, Activity::Question, false, Gate::Paused)),
        "State { phase: Idle, activity: Question, queued: false, gate: Paused }"
    );
}

#[test]
fn rejections_and_stop_paths() {
    let idle = State::new(Phase::Idle, Activity::NoActivity, false, Gate::Open);
    let d = evaluate(idle, Event::TurnFinished);
    assert_eq!(d.kind, Kind::Reject);
    assert_eq!(d.rule_id, "event_has_no_matching_active_work");
    let d = evaluate(idle, Event::QuestionAnswered);
    assert_eq!(d.kind, Kind::Reject);
    assert_eq!(d.rule_id, "answer_has_no_pending_question");

    let running = State::new(Phase::Running, Activity::Model, false, Gate::Open);
    let stopped = evaluate(running, Event::UserStop);
    assert_eq!(stopped.kind, Kind::StopTurn);
    let stopping = stopped.next.unwrap();
    assert_eq!(stopping.phase, Phase::Stopping);
    assert_eq!(stopping.gate, Gate::Paused);
    let finished = evaluate(stopping, Event::TurnFinished).next.unwrap();
    assert_eq!(finished, State::new(Phase::Idle, Activity::NoActivity, false, Gate::Paused));

    let compacting = evaluate(idle, Event::CompactRequested).next.unwrap();
    assert_eq!(compacting.phase, Phase::Compacting);
    let back = evaluate(compacting, Event::CompactFinished);
    assert_eq!(back.kind, Kind::FinishCompaction);
    assert_eq!(back.next.unwrap(), idle);

    let tool = State::new(Phase::Running, Activity::Tool, true, Gate::Open);
    let recovering = evaluate(tool, Event::ProcessRestart).next.unwrap();
    assert_eq!(recovering, State::new(Phase::Recovering, Activity::Tool, true, Gate::Paused));
    let paused = evaluate(recovering, Event::RestoreIncompleteTool).next.unwrap();
    assert_eq!(paused, State::new(Phase::Idle, Activity::NoActivity, true, Gate::Paused));
}

#[test]
fn candidate_events_follow_the_phase() {
    let s = |p, a| State::new(p, a, false, Gate::Open);
    assert_eq!(candidate_events(s(Phase::Idle, Activity::NoActivity)), vec![Event::UserPrompt, Event::CompactRequested]);
    assert_eq!(
        candidate_events(s(Phase::Running, Activity::Tool)),
        vec![Event::UserPrompt, Event::TurnFinished, Event::UserStop, Event::CompactRequested, Event::ProcessRestart, Event::ToolFinished]
    );
    assert_eq!(
        candidate_events(s(Phase::Running, Activity::Question)),
        vec![Event::UserPrompt, Event::TurnFinished, Event::UserStop, Event::CompactRequested, Event::ProcessRestart, Event::QuestionAnswered]
    );
    assert_eq!(candidate_events(s(Phase::Stopping, Activity::Model)), vec![Event::UserPrompt, Event::TurnFinished, Event::ProcessRestart]);
    assert_eq!(candidate_events(s(Phase::Compacting, Activity::NoActivity)), vec![Event::UserPrompt, Event::CompactFinished, Event::ProcessRestart]);
    assert_eq!(candidate_events(s(Phase::Recovering, Activity::Tool)), vec![Event::UserPrompt, Event::RestoreIncompleteTool]);
}
