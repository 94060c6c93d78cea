use xharness::guard::{guard_step, GuardDecision};

fn denied(d: &GuardDecision) -> bool {
    matches!(d, GuardDecision::Deny { reason } if reason.starts_with("An unanswered question has deferred this turn."))
}

#[test]
fn guard_is_open_until_a_question_is_deferred() {
    assert_eq!(guard_step(false, false, false, "bash", None, None), (false, GuardDecision::Allow));
    assert_eq!(guard_step(false, true, false, "bash", None, None), (false, GuardDecision::Allow));
}

#[test]
fn deferral_latches_the_turn_read_only() {
    let (latched, decision) = guard_step(false, true, true, "bash", None, None);
    assert!(latched);
    assert!(denied(&decision));
    for tool in ["read", "glob", "grep", "read_image"] {
        assert_eq!(guard_step(true, true, false, tool, None, None), (true, GuardDecision::Allow));
    }
    assert_eq!(guard_step(true, false, false, "goal", Some("get"), None), (true, GuardDecision::Allow));
    assert_eq!(guard_step(true, false, false, "goal", Some("report"), Some("progress")), (true, GuardDecision::Allow));
    assert_eq!(guard_step(true, false, false, "goal", Some("report"), Some("blocked")), (true, GuardDecision::Allow));
    assert!(denied(&guard_step(true, false, false, "goal", Some("report"), Some("done")).1));
    assert!(denied(&guard_step(true, false, false, "goal", Some("set"), None).1));
    assert!(denied(&guard_step(true, false, false, "write", None, None).1));
}

#[test]
fn the_latch_never_resets_within_a_turn() {
    let mut restricted = false;
    for (any, pending) in [(true, true), (false, false), (true, false)] {
        restricted = guard_step(restricted, any, pending, "bash", None, None).0;
        assert!(restricted);
    }
}
