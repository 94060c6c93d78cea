use xharness::lifecycle::{
    create_outcome, create_target, list_created, CreateError, CreateOutcome, SessionConflict,
};
use xharness::state::WorkspaceRecord;

fn workspace(id: &str, sessions: &[&str]) -> WorkspaceRecord {
    WorkspaceRecord {
        workspace_id: id.to_owned(),
        path: format!("/srv/{id}"),
        title: id.to_owned(),
        session_ids: sessions.iter().map(|s| (*s).to_owned()).collect(),
        created_at: "1".to_owned(),
        updated_at: "1".to_owned(),
    }
}

#[test]
fn create_picks_the_workspace_path_the_directory_or_the_default() {
    let presets = vec!["coding".to_owned()];
    let ws = vec![workspace("w1", &[])];
    assert_eq!(create_target(false, None, &presets, Some("w1"), &ws, None, "/home"), Ok("/srv/w1".to_owned()));
    assert_eq!(create_target(false, Some("coding"), &presets, None, &ws, Some("/tmp/x"), "/home"), Ok("/tmp/x".to_owned()));
    assert_eq!(create_target(false, None, &presets, None, &ws, None, "/home"), Ok("/home".to_owned()));
}

#[test]
fn create_refuses_bad_targets_in_order() {
    let presets = vec!["coding".to_owned()];
    let ws = vec![workspace("w1", &[])];
    assert_eq!(
        create_target(true, Some("nope"), &presets, Some("w9"), &ws, Some("/x"), "/home"),
        Err(CreateError::BothTargets)
    );
    assert_eq!(
        create_target(false, Some("nope"), &presets, Some("w9"), &ws, None, "/home"),
        Err(CreateError::PresetNotFound { preset: "nope".to_owned() })
    );
    assert_eq!(
        create_target(false, None, &presets, Some("w9"), &ws, None, "/home"),
        Err(CreateError::WorkspaceNotFound { workspace_id: "w9".to_owned() })
    );
}

#[test]
fn repeated_create_is_answered_and_a_moved_one_conflicts() {
    assert_eq!(
        create_outcome("s1".into(), "/a".into(), Some(("/a".into(), Some("coding".into()))), None, "coding".into()),
        Ok(CreateOutcome::Existing { agent_preset: Some("coding".into()) })
    );
    assert_eq!(
        create_outcome("s1".into(), "/a".into(), Some(("/b".into(), None)), None, "coding".into()),
        Err(SessionConflict { session_id: "s1".into(), requested_cwd: "/a".into(), existing_cwd: "/b".into() })
    );
    assert_eq!(
        create_outcome("s2".into(), "/a".into(), None, Some("review".into()), "coding".into()),
        Ok(CreateOutcome::New { agent_preset: "review".into() })
    );
    assert_eq!(
        create_outcome("s2".into(), "/a".into(), None, None, "coding".into()),
        Ok(CreateOutcome::New { agent_preset: "coding".into() })
    );
}

#[test]
fn new_sessions_are_listed_first_once() {
    let mut ws = vec![workspace("w1", &["s1"]), workspace("w2", &[])];
    assert_eq!(list_created(&mut ws, "w1", "s2", "9".into()), Some(0));
    assert_eq!(ws[0].session_ids, vec!["s2".to_owned(), "s1".to_owned()]);
    assert_eq!(ws[0].updated_at, "9");
    assert_eq!(list_created(&mut ws, "w1", "s1", "10".into()), Some(0));
    assert_eq!(ws[0].session_ids, vec!["s2".to_owned(), "s1".to_owned()]);
    assert_eq!(ws[0].updated_at, "9");
    assert_eq!(list_created(&mut ws, "w7", "s3", "11".into()), None);
}
