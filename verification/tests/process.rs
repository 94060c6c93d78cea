use xharness::process::{
    capture_result, io_error, is_secret_env_name, scrub_secret_env, utf8_safe_lossy, Capture, EnvMap,
    CapturedOutput, ProcessError, ProcessRuntime, TerminationReason, DEFAULT_CAPTURE_LIMIT,
};

fn env_of(items: &[(&str, &str)]) -> EnvMap {
    let mut env = EnvMap::new();
    for (k, v) in items {
        env.insert((*k).to_owned(), (*v).to_owned());
    }
    env
}

fn names(env: &EnvMap) -> Vec<String> {
    env.entries().iter().map(|(k, _)| k.clone()).collect()
}

#[test]
fn secret_environment_scrubber_is_case_insensitive_and_not_overbroad() {
    let mut env = env_of(&[
        ("PATH", "/usr/bin"),
        ("HOME", "/tmp/home"),
        ("MONKEY", "banana"),
        ("OPENAI_API_KEY", "secret"),
        ("github_token", "secret"),
        ("AWS_SECRET_ACCESS_KEY", "secret"),
        ("SSH_AUTH_SOCK", "/tmp/sock"),
    ]);
    let removed = scrub_secret_env(&mut env);

    assert_eq!(env.get("PATH"), Some("/usr/bin"));
    assert_eq!(env.get("MONKEY"), Some("banana"));
    assert!(env.get("OPENAI_API_KEY").is_none());
    assert!(env.get("github_token").is_none());
    assert!(env.get("AWS_SECRET_ACCESS_KEY").is_none());
    assert!(env.get("SSH_AUTH_SOCK").is_none());
    assert_eq!(removed.len(), 4);
    assert!(is_secret_env_name("My-Password"));
    assert!(!is_secret_env_name("KEYBOARD_LAYOUT"));
}

#[test]
fn scrubber_reports_removed_names_in_ascending_order_and_keeps_the_rest() {
    let mut env = env_of(&[
        ("db_password", "p"),
        ("MY_PRIVATE_KEY", "k"),
        ("A", "1"),
        ("TOKENIZER", "x"),
        ("API_KEY", "k"),
    ]);
    let removed = scrub_secret_env(&mut env);
    assert_eq!(removed, vec!["API_KEY", "MY_PRIVATE_KEY", "db_password"]);
    assert_eq!(names(&env), vec!["A", "TOKENIZER"]);
    assert_eq!(env.get("TOKENIZER"), Some("x"));
}

#[test]
fn environment_names_stay_ascending_and_unique() {
    let mut env = env_of(&[("b", "1"), ("a", "2"), ("c", "3"), ("a", "4")]);
    assert_eq!(names(&env), vec!["a", "b", "c"]);
    assert_eq!(env.get("a"), Some("4"));
    env.insert("B".to_owned(), "5".to_owned());
    assert_eq!(names(&env), vec!["B", "a", "b", "c"]);
    assert!(env.get("d").is_none());
}

#[test]
fn secret_names_cover_exact_suffix_and_word_rules() {
    for name in [
        "authorization",
        "Cookie",
        "GIT_ASKPASS",
        "ssh_askpass",
        "private_key",
        "X_API_KEY",
        "token",
        "A.SECRET.B",
        "user-passwd",
        "CREDENTIALS_FILE",
        "my_credential",
    ] {
        assert!(is_secret_env_name(name), "{name}");
    }
    for name in ["MONKEY", "TOKENS", "SECRETARY", "PASSWORDLESS", "APIKEY", "KEY", ""] {
        assert!(!is_secret_env_name(name), "{name}");
    }
}

#[test]
fn capture_is_bounded_and_never_splits_valid_unicode() {
    let mut capture = Capture::new(5);
    capture.feed("ééé".as_bytes());
    let out = capture.finish();
    assert_eq!(out.bytes_read, 6);
    assert_eq!(out.text, "éé");
    assert!(out.truncated);
    assert!(!out.text.contains('\u{fffd}'));
    assert!(out.text.len() <= 5);

    // Invalid 0xff, then `é` (0xc3 0xa9) cut after its lead byte.
    let mut mixed = Capture::new(2);
    mixed.feed(&[0xff, 0xc3, 0xa9]);
    let out = mixed.finish();
    assert_eq!(out.bytes_read, 3);
    assert_eq!(out.text, "\u{fffd}");
    assert!(out.truncated);
}

#[test]
fn capture_counts_every_chunk_and_keeps_only_the_prefix() {
    let mut capture = Capture::new(4);
    capture.feed(b"ab");
    capture.feed(b"");
    capture.feed(b"cdef");
    capture.feed(b"gh");
    let out = capture.finish();
    assert_eq!(out.text, "abcd");
    assert_eq!(out.bytes_read, 8);
    assert!(out.truncated);

    let mut exact = Capture::new(3);
    exact.feed(b"xyz");
    let out = exact.finish();
    assert_eq!(out.text, "xyz");
    assert!(!out.truncated);

    let mut empty = Capture::new(0);
    empty.feed(b"abc");
    let out = empty.finish();
    assert_eq!(out.text, "");
    assert_eq!(out.bytes_read, 3);
    assert!(out.truncated);
}

#[test]
fn safe_lossy_drops_only_a_possible_prefix_at_the_end() {
    assert_eq!(utf8_safe_lossy(b"abc".to_vec()), ("abc".to_owned(), false));
    // A complete scalar at the end is kept.
    assert_eq!(utf8_safe_lossy("aé".as_bytes().to_vec()), ("aé".to_owned(), false));
    // A cut three-byte scalar is dropped.
    assert_eq!(utf8_safe_lossy(vec![b'a', 0xe2, 0x82]), ("a".to_owned(), true));
    // 0xe0 0x80 can never start a scalar: it is replaced, not dropped.
    let (text, cut) = utf8_safe_lossy(vec![b'a', 0xe0, 0x80]);
    assert!(!cut);
    assert!(text.starts_with('a'));
    assert!(text.contains('\u{fffd}'));
    // A lone continuation byte is invalid, not a prefix.
    let (text, cut) = utf8_safe_lossy(vec![0x80]);
    assert_eq!(text, "\u{fffd}");
    assert!(!cut);
}

#[test]
fn capture_worker_outcomes_map_to_process_errors() {
    let ok = CapturedOutput { text: "hi".to_owned(), truncated: false, bytes_read: 2 };
    assert_eq!(capture_result("stdout", Ok(Ok(ok.clone()))).unwrap(), ok);
    match capture_result("stdout", Ok(Err(std::io::Error::other("boom")))) {
        Err(ProcessError::Io { operation, .. }) => assert_eq!(operation, "reading process output"),
        other => panic!("unexpected {other:?}"),
    }
    match capture_result("stderr", Err("panicked".to_owned())) {
        Err(ProcessError::CaptureWorker { stream, message }) => {
            assert_eq!(stream, "stderr");
            assert_eq!(message, "panicked");
        }
        other => panic!("unexpected {other:?}"),
    }
    match io_error("waiting for process", std::io::Error::other("x")) {
        ProcessError::Io { operation, .. } => assert_eq!(operation, "waiting for process"),
        other => panic!("unexpected {other:?}"),
    }
}

#[test]
fn runtime_and_defaults_are_plain_values() {
    let _runtime = ProcessRuntime::new();
    assert_eq!(DEFAULT_CAPTURE_LIMIT, 256 * 1024);
    assert_ne!(TerminationReason::Exited, TerminationReason::TimedOut);
}
