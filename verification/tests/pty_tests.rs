use ptyman::pty::{
    exit_event_name, output_event_name, poll_relay, relay_event_for, PtyError, PtyManager,
    ReadOutcome, RelayEvent,
};

const SHELL: &str = "/bin/sh";

fn not_found_message(err: &PtyError) -> Option<String> {
    match err {
        PtyError::NotFound(_) => Some(err.message()),
        PtyError::Backend(_) => None,
    }
}

#[test]
fn event_names_carry_the_session_id() {
    assert_eq!(output_event_name("t1"), "pty-output-t1");
    assert_eq!(exit_event_name("t1"), "pty-exit-t1");
}

#[test]
fn relay_decision_decodes_bytes_and_names_events() {
    let ev = relay_event_for("t1", ReadOutcome::Data(b"hi there".to_vec()));
    match ev {
        RelayEvent::Output(name, payload) => {
            assert_eq!(name, "pty-output-t1");
            assert_eq!(payload, "hi there");
        }
        RelayEvent::Closed(_) => panic!("data must become an output event"),
    }
    let ev = relay_event_for("t1", ReadOutcome::Data(vec![0xff, b'o', b'k']));
    match ev {
        RelayEvent::Output(_, payload) => assert_eq!(payload, "\u{fffd}ok"),
        RelayEvent::Closed(_) => panic!("data must become an output event"),
    }
    match relay_event_for("t2", ReadOutcome::Eof) {
        RelayEvent::Closed(name) => assert_eq!(name, "pty-exit-t2"),
        RelayEvent::Output(..) => panic!("eof must close the relay"),
    }
    match relay_event_for("t2", ReadOutcome::Failed) {
        RelayEvent::Closed(name) => assert_eq!(name, "pty-exit-t2"),
        RelayEvent::Output(..) => panic!("a failed read must close the relay"),
    }
}

#[test]
fn operations_on_unknown_ids_fail_with_not_found() {
    let mut mgr = PtyManager::new();
    let err = mgr.write("nope", b"x").expect_err("write must fail");
    assert_eq!(not_found_message(&err).unwrap(), "Terminal nope not found");
    let err = mgr.resize("nope", 30, 90).expect_err("resize must fail");
    assert_eq!(not_found_message(&err).unwrap(), "Terminal nope not found");
    let err = mgr.kill("nope").expect_err("kill must fail");
    assert_eq!(not_found_message(&err).unwrap(), "Terminal nope not found");
    assert!(!mgr.has_session("nope"));
}

#[test]
fn spawn_then_immediate_write_and_resize_succeed() {
    let mut mgr = PtyManager::new();
    let tasks = mgr
        .spawn("s1".to_string(), "/tmp".to_string(), vec!["cat".to_string()], SHELL)
        .expect("spawn must succeed");
    assert!(mgr.has_session("s1"));
    mgr.write("s1", b"ping\n").expect("write right after spawn must succeed");
    mgr.resize("s1", 40, 120).expect("resize right after spawn must succeed");
    mgr.kill("s1").expect("kill must succeed");
    drop(tasks);
}

#[test]
fn output_preserves_marker_order() {
    let mut mgr = PtyManager::new();
    let mut tasks = mgr
        .spawn("s2".to_string(), "/tmp".to_string(), vec!["cat".to_string()], SHELL)
        .expect("spawn must succeed");
    mgr.write("s2", b"MARKER-ONE\n").expect("first write");
    mgr.write("s2", b"MARKER-TWO\n").expect("second write");
    let mut seen = String::new();
    for _ in 0..64 {
        match poll_relay("s2", &mut tasks.reader) {
            RelayEvent::Output(name, payload) => {
                assert_eq!(name, "pty-output-s2");
                seen.push_str(&payload);
            }
            RelayEvent::Closed(_) => break,
        }
        let one = seen.find("MARKER-ONE");
        let two = seen.find("MARKER-TWO");
        if let (Some(a), Some(b)) = (one, two) {
            assert!(a < b, "markers must come back in write order: {seen:?}");
            mgr.kill("s2").expect("kill must succeed");
            return;
        }
    }
    panic!("markers never arrived in the relayed output: {seen:?}");
}

#[test]
fn echo_session_emits_output_then_exit_and_stays_until_killed() {
    let mut mgr = PtyManager::new();
    let mut tasks = mgr
        .spawn(
            "t1".to_string(),
            "/tmp".to_string(),
            vec!["echo".to_string(), "hi".to_string()],
            SHELL,
        )
        .expect("spawn must succeed");

    let mut seen = String::new();
    for _ in 0..64 {
        if seen.contains("hi") {
            break;
        }
        match poll_relay("t1", &mut tasks.reader) {
            RelayEvent::Output(name, payload) => {
                assert_eq!(name, "pty-output-t1");
                seen.push_str(&payload);
            }
            RelayEvent::Closed(name) => {
                assert_eq!(name, "pty-exit-t1");
                break;
            }
        }
    }
    assert!(seen.contains("hi"), "expected the echoed text, got {seen:?}");

    // The exit watcher observes the child's termination and emits the exit
    // event; it may fire in addition to the relay's own exit event.
    assert!(tasks.child.wait_exit());
    let exit_event = exit_event_name("t1");
    assert_eq!(exit_event, "pty-exit-t1");

    // The entry stays in the table after the child exited on its own: a
    // write still finds the session (it is not a not-found failure).
    assert!(mgr.has_session("t1"));
    if let Err(e) = mgr.write("t1", b"late\n") {
        assert!(
            not_found_message(&e).is_none(),
            "a live entry must not report not-found"
        );
    }

    // Only an explicit kill removes it; afterwards writes are not-found.
    mgr.kill("t1").expect("kill must succeed");
    assert!(!mgr.has_session("t1"));
    let err = mgr.write("t1", b"x").expect_err("write after kill must fail");
    assert_eq!(not_found_message(&err).unwrap(), "Terminal t1 not found");
    let err = mgr.kill("t1").expect_err("second kill must fail");
    assert_eq!(not_found_message(&err).unwrap(), "Terminal t1 not found");
}

#[test]
fn kill_releases_the_pty_so_the_relay_sees_end_of_stream() {
    let mut mgr = PtyManager::new();
    let mut tasks = mgr
        .spawn("t9".to_string(), "/tmp".to_string(), vec!["cat".to_string()], SHELL)
        .expect("spawn must succeed");
    mgr.kill("t9").expect("kill must succeed");
    assert!(tasks.child.wait_exit());
    // With the table entry dropped the pair's descriptors are closed, so
    // the relay reaches end of stream and reports the exit event at least
    // once.
    let mut closed = false;
    for _ in 0..64 {
        match poll_relay("t9", &mut tasks.reader) {
            RelayEvent::Output(_, _) => continue,
            RelayEvent::Closed(name) => {
                assert_eq!(name, "pty-exit-t9");
                closed = true;
                break;
            }
        }
    }
    assert!(closed, "the relay must observe end of stream after kill");
}

#[test]
fn spawning_an_existing_id_replaces_the_session() {
    let mut mgr = PtyManager::new();
    let _t1 = mgr
        .spawn("dup".to_string(), "/tmp".to_string(), vec!["cat".to_string()], SHELL)
        .expect("first spawn");
    let _t2 = mgr
        .spawn("dup".to_string(), "/tmp".to_string(), vec!["cat".to_string()], SHELL)
        .expect("second spawn");
    assert!(mgr.has_session("dup"));
    mgr.kill("dup").expect("one kill removes the single entry");
    let err = mgr.kill("dup").expect_err("nothing is left after that");
    assert_eq!(not_found_message(&err).unwrap(), "Terminal dup not found");
}

#[test]
fn spawn_failure_registers_nothing() {
    let mut mgr = PtyManager::new();
    match mgr.spawn(
        "bad".to_string(),
        "/tmp".to_string(),
        vec!["cat".to_string()],
        "/no/such/shell/binary",
    ) {
        Ok(_) => panic!("spawning an impossible shell must fail"),
        Err(PtyError::Backend(detail)) => assert!(!detail.is_empty()),
        Err(PtyError::NotFound(_)) => panic!("a spawn failure is not a lookup failure"),
    }
    assert!(!mgr.has_session("bad"));
}
