use xharness::selection::{plan_model_selection, ModelUnavailable, PlannedSelection, RouteCaps};

fn caps(effort: Option<&str>, max: Option<u64>) -> Option<RouteCaps> {
    Some(RouteCaps { default_effort: effort.map(str::to_owned), max_context_window: max })
}

#[test]
fn selection_defaults_effort_and_window_from_the_route() {
    let r = plan_model_selection("p", "old", None, "p".into(), "new".into(), None, None, caps(Some("medium"), Some(200_000)));
    assert_eq!(
        r,
        Ok(PlannedSelection {
            provider: "p".into(),
            model: "new".into(),
            reasoning_effort: Some("medium".into()),
            context_window_tokens: Some(200_000),
        })
    );
}

#[test]
fn same_route_keeps_its_window_and_requests_win() {
    let r = plan_model_selection("p", "m", Some(64_000), "p".into(), "m".into(), Some("high".into()), None, caps(Some("low"), Some(200_000)));
    assert_eq!(r.as_ref().map(|s| (s.reasoning_effort.clone(), s.context_window_tokens)), Ok((Some("high".into()), Some(64_000))));
    let r = plan_model_selection("p", "m", Some(64_000), "p".into(), "m".into(), None, Some(100_000), caps(None, Some(200_000)));
    assert_eq!(r.unwrap().context_window_tokens, Some(100_000));
}

#[test]
fn windows_must_be_positive_and_advertised() {
    let over = plan_model_selection("p", "m", None, "p".into(), "m".into(), None, Some(300_000), caps(None, Some(200_000)));
    assert_eq!(
        over,
        Err(ModelUnavailable {
            provider: "p".into(),
            model: "m".into(),
            requested_context_window_tokens: 300_000,
            maximum_context_window_tokens: Some(200_000),
        })
    );
    assert!(plan_model_selection("p", "m", None, "p".into(), "m".into(), None, Some(0), caps(None, Some(200_000))).is_err());
    assert!(plan_model_selection("p", "m", None, "p".into(), "m".into(), None, Some(10), None).is_err());
    let none = plan_model_selection("p", "m", None, "q".into(), "n".into(), None, None, None).unwrap();
    assert_eq!((none.reasoning_effort, none.context_window_tokens), (None, None));
}
