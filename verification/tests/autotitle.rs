use xharness::autotitle::{
    plan_generation, plan_result, plan_title, title_sample, GenerationPlan, ResultPlan,
    TitleCommit, TitleEvent, TitleEventKind, TitleFailure, TitlePhase, TitlePlan,
};
use xharness::models::ModelRoute;

fn user(seq: u64, text: &str) -> TitleEvent {
    TitleEvent { seq, kind: TitleEventKind::UserMessage { content: text.to_owned(), replaces_surface: false } }
}

fn assistant(seq: u64, text: &str) -> TitleEvent {
    TitleEvent { seq, kind: TitleEventKind::AssistantMessage { content: text.to_owned() } }
}

fn ev(seq: u64, kind: TitleEventKind) -> TitleEvent {
    TitleEvent { seq, kind }
}

#[test]
fn excerpts_skip_trivial_followup() {
    let events = vec![
        ev(0, TitleEventKind::Other),
        user(1, "编写任务管理系统"),
        assistant(2, "好的，我来实现。"),
        ev(3, TitleEventKind::TurnClosed),
        user(4, "好的"),
    ];
    let sample = title_sample(&events).unwrap();
    assert!(sample.meaningful);
    assert_eq!(sample.fallback, "编写任务管理系统");
    assert!(!sample.input.contains("user: 好的"));
    assert_eq!(sample.input, "user: 编写任务管理系统\nassistant: 好的，我来实现。");
    assert_eq!(sample.seqs, vec![1, 2]);
}

#[test]
fn sample_uses_first_and_last_meaningful_users_and_latest_assistant() {
    let events = vec![
        user(1, "hi"),
        user(2, "  fix   the\nlogin  page "),
        assistant(3, "first answer"),
        user(4, "also add tests"),
        assistant(5, "  "),
        assistant(6, "second answer"),
        TitleEvent { seq: 7, kind: TitleEventKind::UserMessage { content: "replacement".into(), replaces_surface: true } },
    ];
    let sample = title_sample(&events).unwrap();
    assert_eq!(sample.input, "user: fix the login page\nuser: also add tests\nassistant: second answer");
    assert_eq!(sample.fallback, "fix the login page");
    assert_eq!(sample.seqs, vec![2, 4, 6]);
    assert!(sample.meaningful);
}

#[test]
fn greetings_only_make_a_fallback_without_generation() {
    let events = vec![user(1, "hello"), assistant(2, "Hi! How can I help?")];
    let sample = title_sample(&events).unwrap();
    assert!(!sample.meaningful);
    assert_eq!(sample.fallback, "hello");
    assert_eq!(sample.seqs, vec![1, 2]);
    assert!(title_sample(&vec![assistant(1, "alone")]).is_none());
    assert!(title_sample(&vec![user(1, "   ")]).is_none());
}

#[test]
fn fallback_is_cut_to_forty_eight_characters() {
    let long = "x".repeat(60);
    let sample = title_sample(&vec![user(1, &long)]).unwrap();
    assert_eq!(sample.fallback, "x".repeat(48));
}

#[test]
fn plan_title_commits_a_fallback_once_and_respects_owned_titles() {
    let events = vec![user(1, "build a parser"), ev(2, TitleEventKind::TurnClosed)];
    match plan_title(Some(false), false, Some(&events)) {
        TitlePlan::Fallback { commit: TitleCommit::Title { title, message_seqs, provider }, sample } => {
            assert_eq!(title, "build a parser");
            assert_eq!(message_seqs, vec![1]);
            assert!(provider.is_none());
            assert!(sample.meaningful);
        }
        other => panic!("unexpected {other:?}"),
    }
    let mut titled = events.clone();
    titled.push(ev(3, TitleEventKind::SessionTitle { fallback: true }));
    assert!(matches!(plan_title(Some(false), true, Some(&titled)), TitlePlan::Sample(_)));
    let mut owned = titled.clone();
    owned.push(ev(4, TitleEventKind::SessionTitle { fallback: false }));
    assert!(matches!(plan_title(Some(false), true, Some(&owned)), TitlePlan::Stop));
    // An inherited title without a title event is kept.
    assert!(matches!(plan_title(Some(false), true, Some(&events)), TitlePlan::Stop));
    assert!(matches!(plan_title(None, false, Some(&events)), TitlePlan::Stop));
    assert!(matches!(plan_title(Some(true), true, Some(&events)), TitlePlan::Wait(2000)));
    assert!(matches!(plan_title(Some(false), false, None), TitlePlan::Stop));
}

#[test]
fn generation_waits_for_the_first_turn_and_bounds_attempts() {
    let open = vec![user(1, "build a parser"), ev(2, TitleEventKind::SessionTitle { fallback: true })];
    assert_eq!(plan_generation(true, false, &open, 1000, true), GenerationPlan::Stop);
    let mut closed = open.clone();
    closed.push(ev(3, TitleEventKind::TurnClosed));
    assert_eq!(
        plan_generation(true, false, &closed, 1000, true),
        GenerationPlan::Request { attempt: 1, retry_at_ms: 36000, expected_title: Some(2) }
    );
    assert_eq!(plan_generation(false, false, &closed, 1000, true), GenerationPlan::Stop);
    assert_eq!(plan_generation(true, true, &closed, 1000, true), GenerationPlan::Wait(2000));
    assert_eq!(plan_generation(true, false, &closed, 1000, false), GenerationPlan::Stop);

    let mut pending = closed.clone();
    pending.push(ev(4, TitleEventKind::TitleGeneration { attempt: 1, phase: TitlePhase::Pending, retry_at_ms: 5000 }));
    assert_eq!(plan_generation(true, false, &pending, 1000, true), GenerationPlan::Wait(4000));
    assert_eq!(
        plan_generation(true, false, &pending, 5000, true),
        GenerationPlan::Request { attempt: 2, retry_at_ms: 40000, expected_title: Some(2) }
    );
    let mut far = closed.clone();
    far.push(ev(4, TitleEventKind::TitleGeneration { attempt: 1, phase: TitlePhase::Retry, retry_at_ms: 1_000_000 }));
    assert_eq!(plan_generation(true, false, &far, 0, true), GenerationPlan::Wait(60000));

    let mut exhausted = closed.clone();
    exhausted.push(ev(4, TitleEventKind::TitleGeneration { attempt: 3, phase: TitlePhase::Retry, retry_at_ms: 0 }));
    assert_eq!(plan_generation(true, false, &exhausted, 10, true), GenerationPlan::Stop);
    let mut done = closed.clone();
    done.push(ev(4, TitleEventKind::TitleGeneration { attempt: 1, phase: TitlePhase::Completed, retry_at_ms: 0 }));
    assert_eq!(plan_generation(true, false, &done, 10, true), GenerationPlan::Stop);
}

fn reserved() -> Vec<TitleEvent> {
    vec![
        user(1, "build a parser"),
        ev(2, TitleEventKind::SessionTitle { fallback: true }),
        ev(3, TitleEventKind::TurnClosed),
        ev(4, TitleEventKind::TitleGeneration { attempt: 1, phase: TitlePhase::Pending, retry_at_ms: 36000 }),
    ]
}

#[test]
fn accepted_answer_commits_title_and_completion() {
    let route = ModelRoute::new("p", "m");
    let events = reserved();
    match plan_result(Some(&route), &route, Some(&events), Some(2), 1, Ok("Parser".to_owned()), vec![1], 50) {
        ResultPlan::Commit { events, again_after_ms } => {
            assert_eq!(again_after_ms, None);
            assert_eq!(events.len(), 2);
            match &events[0] {
                TitleCommit::Title { title, message_seqs, provider } => {
                    assert_eq!(title, "Parser");
                    assert_eq!(message_seqs, &vec![1]);
                    assert_eq!(provider.as_ref().unwrap(), &route);
                }
                other => panic!("unexpected {other:?}"),
            }
            assert!(matches!(events[1], TitleCommit::Progress { attempt: 1, phase: TitlePhase::Completed, retry_at_ms: 0 }));
        }
        other => panic!("unexpected {other:?}"),
    }
}

#[test]
fn failures_back_off_and_exhaust() {
    let route = ModelRoute::new("p", "m");
    let events = reserved();
    let retryable = TitleFailure { retryable: true, retry_after_ms: 0 };
    match plan_result(Some(&route), &route, Some(&events), Some(2), 1, Err(retryable), vec![1], 100) {
        ResultPlan::Commit { events, again_after_ms } => {
            assert_eq!(again_after_ms, Some(5000));
            assert!(matches!(events[0], TitleCommit::Progress { attempt: 1, phase: TitlePhase::Retry, retry_at_ms: 5100 }));
        }
        other => panic!("unexpected {other:?}"),
    }
    let hinted = TitleFailure { retryable: true, retry_after_ms: 999_999_999 };
    match plan_result(Some(&route), &route, Some(&events), Some(2), 1, Err(hinted), vec![1], 0) {
        ResultPlan::Commit { again_after_ms, .. } => assert_eq!(again_after_ms, Some(86_400_000)),
        other => panic!("unexpected {other:?}"),
    }
    let fatal = TitleFailure { retryable: false, retry_after_ms: 0 };
    match plan_result(Some(&route), &route, Some(&events), Some(2), 1, Err(fatal), vec![1], 0) {
        ResultPlan::Commit { events, again_after_ms } => {
            assert_eq!(again_after_ms, None);
            assert!(matches!(events[0], TitleCommit::Progress { attempt: 1, phase: TitlePhase::Exhausted, retry_at_ms: 0 }));
        }
        other => panic!("unexpected {other:?}"),
    }
}

#[test]
fn route_change_or_deletion_discards_inflight_title() {
    let route = ModelRoute::new("p", "m");
    let other = ModelRoute::new("p", "other");
    let events = reserved();
    match plan_result(Some(&other), &route, Some(&events), Some(2), 1, Ok("Parser".to_owned()), vec![1], 7) {
        ResultPlan::Commit { events, again_after_ms } => {
            assert_eq!(again_after_ms, Some(100));
            assert_eq!(events.len(), 1);
            assert!(matches!(events[0], TitleCommit::Progress { attempt: 1, phase: TitlePhase::Retry, retry_at_ms: 7 }));
        }
        other => panic!("unexpected {other:?}"),
    }
    assert!(matches!(
        plan_result(None, &route, Some(&events), Some(2), 1, Ok("Parser".to_owned()), vec![1], 7),
        ResultPlan::Discard
    ));
    assert!(matches!(
        plan_result(Some(&route), &route, None, Some(2), 1, Ok("Parser".to_owned()), vec![1], 7),
        ResultPlan::Discard
    ));
}

#[test]
fn manual_title_wins_during_request() {
    let route = ModelRoute::new("p", "m");
    let mut events = reserved();
    events.push(ev(5, TitleEventKind::SessionTitle { fallback: false }));
    assert!(matches!(
        plan_result(Some(&route), &route, Some(&events), Some(2), 1, Ok("Parser".to_owned()), vec![1], 7),
        ResultPlan::Discard
    ));
    // A newer attempt took over.
    let mut newer = reserved();
    newer.push(ev(5, TitleEventKind::TitleGeneration { attempt: 2, phase: TitlePhase::Pending, retry_at_ms: 9 }));
    assert!(matches!(
        plan_result(Some(&route), &route, Some(&newer), Some(2), 1, Ok("Parser".to_owned()), vec![1], 7),
        ResultPlan::Discard
    ));
}
