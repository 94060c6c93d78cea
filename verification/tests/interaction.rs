use xharness::interaction::{
    AnswerDestination, AskUserQuestionRequest, QuestionAnswer, QuestionInteraction,
    QuestionInvocation, QuestionOption, QuestionSpec, QuestionStateError, QuestionTerminalState,
    QuestionValidationError, ResolutionStatus, ResolveAction,
};

fn question(id: &str, destination: AnswerDestination) -> QuestionSpec {
    QuestionSpec {
        id: id.to_owned(),
        header: "目标".to_owned(),
        question: "选择部署目标".to_owned(),
        options: vec![
            QuestionOption {
                id: "tokyo".to_owned(),
                label: "东京".to_owned(),
                description: None,
                recommended: true,
            },
            QuestionOption {
                id: "local".to_owned(),
                label: "本机".to_owned(),
                description: None,
                recommended: false,
            },
        ],
        allow_custom: true,
        destination,
    }
}

fn invocation(questions: Vec<QuestionSpec>) -> QuestionInvocation {
    QuestionInvocation::new("exec-1".to_owned(), AskUserQuestionRequest { questions })
}

fn answer(id: &str, option: &str) -> QuestionAnswer {
    QuestionAnswer {
        question_id: id.to_owned(),
        selected_option_id: Some(option.to_owned()),
        custom_text: None,
    }
}

#[test]
fn request_limits_questions_options_and_recommended_choice() {
    let mut questions = vec![question("one", AnswerDestination::Context); 4];
    for (index, item) in questions.iter_mut().enumerate() {
        item.id = format!("q{index}");
    }
    assert!(matches!(
        AskUserQuestionRequest { questions }.validate(),
        Err(QuestionValidationError::QuestionCount { actual: 4 })
    ));

    let mut invalid = question("one", AnswerDestination::Context);
    invalid.options.push(QuestionOption {
        id: "third".to_owned(),
        label: "第三个".to_owned(),
        description: None,
        recommended: false,
    });
    invalid.options.push(QuestionOption {
        id: "fourth".to_owned(),
        label: "第四个".to_owned(),
        description: None,
        recommended: false,
    });
    assert!(matches!(
        AskUserQuestionRequest {
            questions: vec![invalid]
        }
        .validate(),
        Err(QuestionValidationError::OptionCount { actual: 4, .. })
    ));
}

#[test]
fn finite_choice_can_include_qualifying_custom_text() {
    let mut interaction = QuestionInteraction::new(invocation(vec![question(
        "target",
        AnswerDestination::Context,
    )]))
    .unwrap();
    let resolution = interaction
        .resolve(
            ResolveAction::Submit,
            vec![QuestionAnswer {
                question_id: "target".to_owned(),
                selected_option_id: Some("tokyo".to_owned()),
                custom_text: Some("使用 8443 端口".to_owned()),
            }],
        )
        .unwrap();
    assert_eq!(resolution.status, ResolutionStatus::Answered);
    assert_eq!(resolution.answers[0].selected_label.as_deref(), Some("东京"));
    assert_eq!(
        resolution.answers[0].custom_text.as_deref(),
        Some("使用 8443 端口")
    );
}

#[test]
fn half_answered_draft_survives_dismiss_and_can_continue() {
    let mut interaction = QuestionInteraction::new(invocation(vec![
        question("target", AnswerDestination::Context),
        question("auth", AnswerDestination::Context),
    ]))
    .unwrap();
    interaction
        .update_draft(vec![answer("target", "tokyo")])
        .unwrap();
    assert_eq!(interaction.dismiss().unwrap().len(), 1);

    let resolution = interaction
        .resolve(ResolveAction::Continue, Vec::new())
        .unwrap();
    assert_eq!(resolution.status, ResolutionStatus::PartiallyAnswered);
    assert_eq!(resolution.unanswered_question_ids, vec!["auth"]);
}

#[test]
fn continue_without_any_answer_is_a_successful_skip() {
    let mut interaction = QuestionInteraction::new(invocation(vec![question(
        "target",
        AnswerDestination::Context,
    )]))
    .unwrap();
    let resolution = interaction
        .resolve(ResolveAction::Continue, Vec::new())
        .unwrap();
    assert_eq!(resolution.status, ResolutionStatus::Skipped);
    assert!(resolution.answers.is_empty());
    assert_eq!(resolution.unanswered_question_ids, vec!["target"]);
}

#[test]
fn pure_custom_answer_is_supported_and_unknown_choice_is_rejected() {
    let mut free_text = question("details", AnswerDestination::Context);
    free_text.options.clear();
    let mut interaction = QuestionInteraction::new(invocation(vec![free_text])).unwrap();
    let resolution = interaction
        .resolve(
            ResolveAction::Submit,
            vec![QuestionAnswer {
                question_id: "details".to_owned(),
                selected_option_id: None,
                custom_text: Some("只部署 API，不部署网页".to_owned()),
            }],
        )
        .unwrap();
    assert_eq!(resolution.status, ResolutionStatus::Answered);

    let mut invalid = QuestionInteraction::new(invocation(vec![question(
        "target",
        AnswerDestination::Context,
    )]))
    .unwrap();
    assert!(matches!(
        invalid.resolve(ResolveAction::Submit, vec![answer("target", "missing")]),
        Err(QuestionStateError::UnknownOption { .. })
    ));
}

#[test]
fn cancellation_is_idempotent_and_prevents_late_answers() {
    let mut interaction = QuestionInteraction::new(invocation(vec![question(
        "target",
        AnswerDestination::Context,
    )]))
    .unwrap();
    interaction.cancel("turn cancelled".to_owned()).unwrap();
    interaction.cancel("turn cancelled".to_owned()).unwrap();
    assert_eq!(
        interaction.resolve(ResolveAction::Submit, vec![answer("target", "tokyo")]),
        Err(QuestionStateError::Cancelled)
    );
    assert_eq!(
        interaction.cancel("different reason".to_owned()),
        Err(QuestionStateError::Cancelled)
    );
}

#[test]
fn one_submission_cannot_answer_the_same_question_twice() {
    let mut interaction = QuestionInteraction::new(invocation(vec![question(
        "target",
        AnswerDestination::Context,
    )]))
    .unwrap();
    assert_eq!(
        interaction.resolve(
            ResolveAction::Submit,
            vec![answer("target", "tokyo"), answer("target", "local")],
        ),
        Err(QuestionStateError::DuplicateAnswer("target".to_owned()))
    );
}

#[test]
fn submit_requires_all_answers_and_resolution_is_idempotent() {
    let mut interaction = QuestionInteraction::new(invocation(vec![question(
        "target",
        AnswerDestination::Context,
    )]))
    .unwrap();
    assert!(matches!(
        interaction.resolve(ResolveAction::Submit, Vec::new()),
        Err(QuestionStateError::MissingAnswers(_))
    ));
    let expected = interaction
        .resolve(ResolveAction::Submit, vec![answer("target", "tokyo")])
        .unwrap();
    assert_eq!(
        interaction
            .resolve(ResolveAction::Submit, vec![answer("target", "tokyo")])
            .unwrap(),
        expected
    );
    assert_eq!(
        interaction.resolve(ResolveAction::Submit, vec![answer("target", "local")]),
        Err(QuestionStateError::AlreadyResolved)
    );
}

#[test]
fn agent_markdown_is_a_managed_destination_not_a_model_path() {
    let mut interaction = QuestionInteraction::new(invocation(vec![question(
        "goal",
        AnswerDestination::AgentMarkdown,
    )]))
    .unwrap();
    let resolution = interaction
        .resolve(ResolveAction::Submit, vec![answer("goal", "tokyo")])
        .unwrap();
    assert!(resolution.requests_agent_markdown());
    // The request names a destination kind, never a file path.
    let encoded = format!("{:?}", interaction.invocation().request);
    assert!(!encoded.contains("path"));
}

#[test]
fn agent_markdown_destination_is_reported_by_the_resolution() {
    let mut interaction = QuestionInteraction::new(invocation(vec![question(
        "goal",
        AnswerDestination::AgentMarkdown,
    )]))
    .unwrap();
    let resolution = interaction
        .resolve(ResolveAction::Submit, vec![answer("goal", "tokyo")])
        .unwrap();
    assert!(resolution.requests_agent_markdown());
    let mut context = QuestionInteraction::new(invocation(vec![question(
        "goal",
        AnswerDestination::Context,
    )]))
    .unwrap();
    let plain = context
        .resolve(ResolveAction::Submit, vec![answer("goal", "local")])
        .unwrap();
    assert!(!plain.requests_agent_markdown());
    assert_eq!(plain.answers[0].selected_label.as_deref(), Some("本机"));
}

#[test]
fn validation_reports_field_paths_and_duplicates() {
    let mut bad_header = question("target", AnswerDestination::Context);
    bad_header.header = "   ".to_owned();
    assert_eq!(
        AskUserQuestionRequest { questions: vec![bad_header] }.validate(),
        Err(QuestionValidationError::InvalidText {
            field: "questions[0].header".to_owned(),
            max: 40
        })
    );
    let mut bad_option = question("target", AnswerDestination::Context);
    bad_option.options[1].id = "no spaces".to_owned();
    assert_eq!(
        AskUserQuestionRequest {
            questions: vec![question("first", AnswerDestination::Context), bad_option]
        }
        .validate(),
        Err(QuestionValidationError::InvalidIdentifier {
            field: "questions[1].options[1].id".to_owned()
        })
    );
    let mut same_label = question("target", AnswerDestination::Context);
    same_label.options[1].label = " 东京 ".to_owned();
    assert_eq!(
        AskUserQuestionRequest { questions: vec![same_label] }.validate(),
        Err(QuestionValidationError::DuplicateOptionLabel {
            question_id: "target".to_owned(),
            label: " 东京 ".to_owned()
        })
    );
    assert_eq!(
        AskUserQuestionRequest {
            questions: vec![
                question("dup", AnswerDestination::Context),
                question("dup", AnswerDestination::Context)
            ]
        }
        .validate(),
        Err(QuestionValidationError::DuplicateQuestionId("dup".to_owned()))
    );
    let mut two_recommended = question("target", AnswerDestination::Context);
    two_recommended.options[1].recommended = true;
    assert_eq!(
        AskUserQuestionRequest { questions: vec![two_recommended] }.validate(),
        Err(QuestionValidationError::MultipleRecommended("target".to_owned()))
    );
    let mut no_mode = question("target", AnswerDestination::Context);
    no_mode.options.clear();
    no_mode.allow_custom = false;
    assert_eq!(
        AskUserQuestionRequest { questions: vec![no_mode] }.validate(),
        Err(QuestionValidationError::NoAnswerMode("target".to_owned()))
    );
    assert_eq!(
        AskUserQuestionRequest { questions: vec![] }.validate(),
        Err(QuestionValidationError::QuestionCount { actual: 0 })
    );
}

#[test]
fn draft_rejections_and_terminal_views() {
    let mut interaction = QuestionInteraction::new(invocation(vec![question(
        "target",
        AnswerDestination::Context,
    )]))
    .unwrap();
    assert_eq!(interaction.invocation().interaction_id, "question:exec-1");
    assert_eq!(
        interaction.update_draft(vec![answer("nope", "tokyo")]),
        Err(QuestionStateError::UnknownQuestion("nope".to_owned()))
    );
    let mut strict = question("strict", AnswerDestination::Context);
    strict.allow_custom = false;
    let mut strict_interaction = QuestionInteraction::new(invocation(vec![strict])).unwrap();
    assert_eq!(
        strict_interaction.update_draft(vec![QuestionAnswer {
            question_id: "strict".to_owned(),
            selected_option_id: None,
            custom_text: Some("free".to_owned()),
        }]),
        Err(QuestionStateError::CustomNotAllowed("strict".to_owned()))
    );
    assert_eq!(
        interaction.update_draft(vec![QuestionAnswer {
            question_id: "target".to_owned(),
            selected_option_id: None,
            custom_text: Some("x".repeat(8193)),
        }]),
        Err(QuestionStateError::CustomTooLong("target".to_owned()))
    );
    // A blank answer clears the slot instead of storing it.
    interaction.update_draft(vec![answer("target", "local")]).unwrap();
    let cleared = interaction
        .update_draft(vec![QuestionAnswer {
            question_id: "target".to_owned(),
            selected_option_id: None,
            custom_text: Some("  ".to_owned()),
        }])
        .unwrap();
    assert!(cleared.is_empty());
    assert_eq!(interaction.terminal_state(), QuestionTerminalState::Pending);
    interaction.cancel("stop".to_owned()).unwrap();
    assert_eq!(
        interaction.terminal_state(),
        QuestionTerminalState::Cancelled("stop".to_owned())
    );
    assert_eq!(interaction.dismiss(), Err(QuestionStateError::Cancelled));
}
