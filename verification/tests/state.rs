//! State files: the log, the registry's directory, locks and the socket.
use spindle::{
    after_contention, ensure_private_existing_dir, ensure_private_parent,
    ensure_private_state_parent, may_remove_lock, read_lock, remove_recoverable_lock,
    select_events, sidecar_lock_path, socket_directory, CapabilityList, CapabilityPolicy, Event,
    EventFilter, EventLog, ExtensionRegistry, IoKind, LockFileIdentity, LockRead, LockRecovery,
    LockStep, ParentStep, SidecarLock, SpindleError, TailEvents, DEFAULT_TIMEOUT_MS,
    MALFORMED_STALE_AFTER_MS,
};

const FOUND: LockFileIdentity = LockFileIdentity { dev: 1, ino: 10 };
const REPLACED: LockFileIdentity = LockFileIdentity { dev: 1, ino: 11 };

fn event(kind: &str, source: &str, subject: Option<String>, index: u64) -> Event {
    Event::builder(String::from(kind), String::from(source))
        .subject(subject)
        .build_with(format!("event-{index}"), index)
        .unwrap()
}

#[test]
fn lock_sidecar_lock_recovers_stale_lock_file() {
    let lock = read_lock(Some("pid=999999999\ntoken=stale\n"), Some(0), FOUND);

    let decision = remove_recoverable_lock(&lock, false);

    assert_eq!(decision, LockRecovery::Remove { identity: FOUND });
    assert!(may_remove_lock(FOUND, Some(FOUND)));
    let path = sidecar_lock_path("/var/spindle/events.jsonl");
    assert_eq!(path, "/var/spindle/events.jsonl.lock");
    let wanted = SidecarLock::acquire("/var/spindle/events.jsonl", 42, 0);
    assert_eq!(wanted.acquire_with_timeout(&lock, false, Some(FOUND), 0, 0), LockStep::Remove);
    assert_eq!(after_contention(&path, &lock, true, 0, 0), LockStep::Retry);
}

#[test]
fn malformed_stale_lock_is_recovered() {
    let age = MALFORMED_STALE_AFTER_MS + 50;
    let lock = read_lock(Some("not a spindle lock\n"), Some(age), FOUND);

    assert_eq!(
        remove_recoverable_lock(&lock, false),
        LockRecovery::Remove { identity: FOUND }
    );
    let wanted = SidecarLock::acquire("/var/spindle/events.jsonl", 42, 0);
    assert_eq!(wanted.acquire_with_timeout(&lock, false, Some(FOUND), 0, 0), LockStep::Remove);
}

#[test]
fn malformed_stale_recovery_does_not_remove_replaced_lock() {
    let age = MALFORMED_STALE_AFTER_MS + 50;
    let stale_read = read_lock(Some("not a spindle lock\n"), Some(age), FOUND);

    let LockRecovery::Remove { identity } = remove_recoverable_lock(&stale_read, false) else {
        panic!("expected the lock to be abandoned");
    };

    assert!(!may_remove_lock(identity, Some(REPLACED)));
    assert!(!may_remove_lock(identity, None));
    let wanted = SidecarLock::acquire("/var/spindle/events.jsonl", 42, 0);
    assert_eq!(
        wanted.acquire_with_timeout(&stale_read, false, Some(REPLACED), 0, 20),
        LockStep::Wait { millis: 10 }
    );
}

#[test]
fn malformed_fresh_lock_is_not_immediately_removed() {
    let lock = read_lock(Some("not a spindle lock\n"), Some(20), FOUND);

    assert_eq!(remove_recoverable_lock(&lock, false), LockRecovery::Keep);
    assert_eq!(
        after_contention("events.jsonl.lock", &lock, false, 19, 20),
        LockStep::Wait { millis: 10 }
    );
    assert!(matches!(
        after_contention("events.jsonl.lock", &lock, false, 20, 20),
        LockStep::Fail { .. }
    ));
}

#[test]
fn malformed_lock_timeout_reports_parse_state() {
    let lock_path = "/var/spindle/events.jsonl.lock";
    let lock = read_lock(Some("not a spindle lock\n"), Some(20), FOUND);

    let LockStep::Fail { error } = after_contention(lock_path, &lock, false, 20, 20) else {
        panic!("expected a timeout");
    };
    let message = error.message();

    assert!(message.contains("malformed"));
    assert!(message.contains(lock_path));
    assert!(matches!(error, SpindleError::Io { class, .. } if class == IoKind::TimedOut));
}

#[test]
fn lock_sidecar_lock_does_not_remove_live_lock() {
    let first = SidecarLock::acquire("/var/spindle/events.jsonl", 42, 0);
    let lock = read_lock(Some(&first.contents(42)), Some(5_000), FOUND);

    assert_eq!(remove_recoverable_lock(&lock, true), LockRecovery::Keep);
    let second = SidecarLock::acquire("/var/spindle/events.jsonl", 43, 0);
    let timeout = u128::from(DEFAULT_TIMEOUT_MS);
    for elapsed in [0, 10, timeout - 1] {
        assert_eq!(
            second.acquire_with_timeout(&lock, true, Some(FOUND), elapsed, timeout),
            LockStep::Wait { millis: 10 }
        );
    }
    let LockStep::Fail { error } =
        second.acquire_with_timeout(&lock, true, Some(FOUND), timeout, timeout)
    else {
        panic!("expected a timeout");
    };
    assert_eq!(
        error,
        SpindleError::Io {
            class: IoKind::TimedOut,
            message: String::from(
                "timed out waiting for sidecar lock /var/spindle/events.jsonl.lock (owned)"
            ),
        }
    );
    assert!(!second.owns(lock));
}

#[test]
fn a_lock_that_is_gone_is_tried_for_at_once() {
    let wanted = SidecarLock::acquire("/var/spindle/events.jsonl", 42, 0);
    assert_eq!(
        wanted.acquire_with_timeout(&LockRead::Missing, false, None, 5_000, 5_000),
        LockStep::Retry
    );
}

#[test]
fn lock_sidecar_lock_drop_removes_only_owned_lock() {
    let lock = SidecarLock::acquire("/var/spindle/events.jsonl", 42, 0);

    assert!(lock.owns(read_lock(Some(&lock.contents(42)), None, FOUND)));
    assert!(!lock.owns(read_lock(Some("pid=42\ntoken=other-owner\n"), None, FOUND)));
    assert_eq!(lock.token, "42-0");
    assert_eq!(lock.contents(42), "pid=42\ntoken=42-0\n");
}

#[test]
fn lock_lines_are_read_as_they_stand() {
    let owner = |contents: &str| {
        spindle::read_lock_owner(read_lock(Some(contents), None, FOUND))
            .map(|owner| (owner.pid, owner.token))
    };

    assert_eq!(owner("pid=7\r\ntoken=a\r\n"), Some((7, String::from("a"))));
    assert_eq!(owner("token=a\npid=+7\n"), Some((7, String::from("a"))));
    assert_eq!(owner("pid=7"), Some((7, String::new())));
    assert_eq!(owner("pid=1\npid=2\n"), Some((2, String::new())));
    assert_eq!(owner("pid=1\npid=x\n"), None);
    assert_eq!(owner("pid=4294967295\n"), Some((u32::MAX, String::new())));
    assert_eq!(owner("pid=4294967296\n"), None);
    assert_eq!(owner("pid=\n"), None);
    assert_eq!(owner(""), None);
}

#[test]
fn store_event_log_appends_and_filters_events() {
    let first = event("agent.status.changed", "codex", None, 1);
    let second = event("agent.status.changed", "pi", None, 2);

    let events = select_events(
        &[first, second.clone()],
        &EventFilter {
            kind: Some(String::from("agent.status.changed")),
            source: Some(String::from("pi")),
            limit: None,
        },
    );

    assert_eq!(events, vec![second]);
}

#[test]
fn store_event_log_limit_keeps_tail_of_matched_events() {
    let log: Vec<Event> = (0..5)
        .map(|index| {
            let source = if index % 2 == 0 { "codex" } else { "pi" };
            event("agent.status.changed", source, Some(index.to_string()), index)
        })
        .collect();

    let events = select_events(
        &log,
        &EventFilter {
            kind: Some(String::from("agent.status.changed")),
            source: Some(String::from("codex")),
            limit: Some(2),
        },
    );
    let subjects = events.iter().map(|event| event.subject.clone()).collect::<Vec<_>>();

    assert_eq!(subjects, vec![Some(String::from("2")), Some(String::from("4"))]);
    assert_eq!(
        select_events(&log, &EventFilter { kind: None, source: None, limit: Some(0) }),
        Vec::new()
    );
}

#[test]
fn a_tail_keeps_the_last_events() {
    let mut tail = TailEvents::new(Some(2));
    for index in 0..4 {
        tail.push(event("a.changed", "a", None, index));
    }
    let times: Vec<u64> = tail.into_vec().iter().map(|event| event.time_unix_ms).collect();
    assert_eq!(times, vec![2, 3]);

    let mut all = TailEvents::new(None);
    all.push(event("a.changed", "a", None, 9));
    assert_eq!(all.into_vec().len(), 1);
}

#[test]
fn event_log_rejects_public_existing_state_dir() {
    let log = EventLog::in_dir("/tmp/state");
    assert_eq!(
        ensure_private_parent(log.path(), true),
        ParentStep::Inspect { directory: String::from("/tmp/state") }
    );
    assert!(matches!(
        ensure_private_state_parent(true, 0o755),
        Err(SpindleError::InvalidField { field: "state_dir", .. })
    ));
}

#[test]
fn event_log_rejects_parent_path_that_is_not_directory() {
    assert_eq!(
        ensure_private_state_parent(false, 0o644),
        Err(SpindleError::InvalidField {
            field: "state_dir",
            reason: "parent path must be a directory",
        })
    );
}

#[test]
fn registry_rejects_public_existing_state_dir() {
    let registry = ExtensionRegistry::in_dir("/tmp/state");
    assert_eq!(
        ensure_private_parent(registry.path(), true),
        ParentStep::Inspect { directory: String::from("/tmp/state") }
    );
    assert!(matches!(
        ensure_private_state_parent(true, 0o755),
        Err(SpindleError::InvalidField { field: "state_dir", .. })
    ));
}

#[test]
fn registry_rejects_parent_path_that_is_not_directory() {
    let registry = ExtensionRegistry::in_dir("/tmp/not-a-directory");
    assert_eq!(
        ensure_private_parent(registry.path(), true),
        ParentStep::Inspect { directory: String::from("/tmp/not-a-directory") }
    );
    assert!(ensure_private_state_parent(false, 0o644).is_err());
}

#[test]
fn registry_does_not_chmod_existing_private_state_dir() {
    let registry = ExtensionRegistry::in_dir("/tmp/state");
    assert!(matches!(
        ensure_private_parent(registry.path(), true),
        ParentStep::Inspect { .. }
    ));
    assert_eq!(ensure_private_state_parent(true, 0o700), Ok(()));
}

#[test]
fn prepare_socket_does_not_chmod_existing_parent_directory() {
    let reason = "socket parent directory must be private";
    assert_eq!(ensure_private_existing_dir(true, 0o500, "socket", reason), Ok(()));
}

#[test]
fn prepare_socket_rejects_public_existing_parent_directory() {
    let reason = "socket parent directory must be private";
    assert_eq!(
        ensure_private_existing_dir(true, 0o755, "socket", reason),
        Err(SpindleError::InvalidField { field: "socket", reason })
    );
}

#[test]
fn prepare_socket_rejects_parent_path_that_is_not_directory() {
    assert_eq!(
        ensure_private_existing_dir(false, 0o700, "socket", "reason"),
        Err(SpindleError::InvalidField {
            field: "socket",
            reason: "parent path must be a directory",
        })
    );
}

#[test]
fn prepare_socket_creates_missing_parent_private() {
    assert_eq!(
        ensure_private_parent("/tmp/root/state/spindle.sock", false),
        ParentStep::Create { directory: String::from("/tmp/root/state") }
    );
    assert_eq!(
        ensure_private_existing_dir(true, 0o700, "socket", "reason"),
        Ok(())
    );
}

#[test]
fn a_socket_needs_a_directory() {
    assert_eq!(socket_directory("/run/spindle.sock"), Ok(String::from("/run")));
    for path in ["spindle.sock", "/", ""] {
        assert_eq!(
            socket_directory(path),
            Err(SpindleError::InvalidField {
                field: "socket",
                reason: "socket path must have a parent directory",
            })
        );
    }
}

#[test]
fn user_policy_file_replaces_default_policy() {
    let mut found = CapabilityPolicy::default();
    found.routes.insert(
        String::from("workspace-indicator"),
        CapabilityList { names: vec![String::from("aerospace.state.read")] },
    );

    let policy = CapabilityPolicy::load(Some(found)).unwrap();
    let granted = policy.ensure_route_capabilities(
        "workspace-indicator",
        &[String::from("aerospace.state.read")],
    );
    let result = policy
        .ensure_route_capabilities("workspace-indicator", &[String::from("sketchybar.ui.write")]);

    assert_eq!(granted, Ok(()));
    assert!(matches!(result, Err(SpindleError::CapabilityGrantDenied { .. })));
    assert_eq!(CapabilityPolicy::load(None), Ok(CapabilityPolicy::default()));
}

#[test]
fn an_invalid_policy_file_is_refused() {
    let mut found = CapabilityPolicy::default();
    found.routes.insert(
        String::from("workspace-indicator"),
        CapabilityList { names: vec![String::from("a.read"), String::from("a.read")] },
    );

    assert_eq!(
        CapabilityPolicy::load(Some(found)),
        Err(SpindleError::InvalidField {
            field: "routes",
            reason: "must not contain duplicate capabilities",
        })
    );
}
