//! Command lines, the test host, locks, and the event log.
use spindle::{
    after_contention, config_candidates, config_path_for_executable, ensure_private_existing_dir,
    ensure_private_parent, ensure_private_state_parent, extension_packages,
    handle_register_request, line_kind, lock_token_matches, may_remove_lock, now_unix_ms,
    object_from, parse_json_object, prepare_socket, read_lock, remove_recoverable_lock,
    resolve_install_manifest, resolve_socket_path, resolve_state_dir, run_cli, same_json,
    select_events, sidecar_lock_path, socket_directory, text_holds, timeout_millis,
    unexpected_request, ActionOutput, CliCommand, CliPlan, CountEventTemplate, EffectAnswer,
    Event, EventFilter, EventLog, ExtensionRegistration, FailResponse, FailStep, HostResponse,
    HostState, HubRequest, InvokeEffect, InvokeRule, Json, JsonNumber, LineKind,
    LockFileIdentity, LockRead, LockRecovery, LockStep, NameMap, PackagePlace, ParentStep,
    RegisterResponse, RegisterStep, ResponseTemplate, SidecarLock, SocketFacts, SpindleError,
    StartupAction, TestHostConfig, DEFAULT_OVERSIZED_BYTES,
};

fn object(members: Vec<(&str, Json)>) -> Json {
    let mut map = NameMap::new();
    for (name, value) in members {
        map.insert(name.to_owned(), value);
    }
    Json::Object(map)
}

fn text(value: &str) -> Json {
    Json::Text(value.to_owned())
}

fn texts(values: &[&str]) -> Vec<String> {
    values.iter().map(|value| String::from(*value)).collect()
}

fn member<'a>(json: &'a Json, name: &str) -> Option<&'a Json> {
    match json {
        Json::Object(members) => members.get(name),
        _ => None,
    }
}

#[test]
fn cli_explicit_state_dir_wins() {
    assert_eq!(
        resolve_state_dir(
            Some(String::from("/tmp/spindle-explicit")),
            Some(String::from("/tmp/spindle-environment")),
            None,
        ),
        Ok(String::from("/tmp/spindle-explicit"))
    );
}

#[test]
fn the_state_dir_falls_back_to_the_environment() {
    assert_eq!(
        resolve_state_dir(None, Some(String::from("/tmp/spindle")), None),
        Ok(String::from("/tmp/spindle"))
    );
    assert_eq!(
        resolve_state_dir(None, None, Some(String::from("/home/user"))),
        Ok(String::from("/home/user/.local/state/spindle"))
    );
    assert_eq!(resolve_state_dir(None, None, None), Err(SpindleError::MissingHome));
    assert_eq!(resolve_socket_path("/tmp/spindle", None), "/tmp/spindle/spindle.sock");
    assert_eq!(
        resolve_socket_path("/tmp/spindle", Some(String::from("/run/other.sock"))),
        "/run/other.sock"
    );
}

#[test]
fn parse_json_object_accepts_objects() {
    let value = parse_json_object("data", r#"{"state":"testing"}"#).unwrap();
    assert_eq!(member(&value, "state"), Some(&text("testing")));
}

#[test]
fn parse_json_object_rejects_arrays() {
    let result = parse_json_object("data", r#"["testing"]"#);
    assert!(result.is_err());
}

#[test]
fn parse_json_accepts_objects() {
    let value = parse_json_object("data", r#"{"state":"testing"}"#).unwrap();
    assert_eq!(member(&value, "state"), Some(&text("testing")));
}

#[test]
fn json_values_are_read_whole() {
    let value = parse_json_object(
        "data",
        r#"{"b":[1,-2,0.5,true,null],"a":{"y":"é","x":18446744073709551615}}"#,
    )
    .unwrap();

    let expected = object(vec![
        (
            "a",
            object(vec![
                ("x", Json::Number(JsonNumber::Unsigned(u64::MAX))),
                ("y", text("é")),
            ]),
        ),
        (
            "b",
            Json::Array(vec![
                Json::Number(JsonNumber::Unsigned(1)),
                Json::Number(JsonNumber::Negative(-2)),
                Json::Number(JsonNumber::Float(0.5f64.to_bits())),
                Json::Bool(true),
                Json::Null,
            ]),
        ),
    ]);
    assert_eq!(value, expected);
    assert!(same_json(&value, &expected));
}

#[test]
fn zeros_are_equal_and_keep_their_sign() {
    let zero = Json::Array(vec![Json::Number(JsonNumber::Float(0.0f64.to_bits()))]);
    let negative = Json::Array(vec![Json::Number(JsonNumber::Float((-0.0f64).to_bits()))]);
    assert!(same_json(&zero, &negative));
    assert_eq!(zero, negative);
    let Json::Array(copies) = negative.clone() else {
        panic!("expected an array");
    };
    assert!(matches!(copies[0], Json::Number(JsonNumber::Float(0x8000_0000_0000_0000))));
}

#[test]
fn malformed_json_is_reported() {
    assert!(matches!(parse_json_object("data", "{"), Err(SpindleError::Json { .. })));
    assert_eq!(
        object_from("args", Ok(Json::Null)),
        Err(SpindleError::InvalidField { field: "args", reason: "must be a JSON object" })
    );
    assert_eq!(
        object_from("args", Err(String::from("expected value"))),
        Err(SpindleError::Json { message: String::from("expected value") })
    );
}

#[test]
fn emit_rejects_non_object_data_from_cli() {
    let result = run_cli(
        "/tmp/spindle",
        CliCommand::Emit {
            kind: String::from("test.changed"),
            source: String::from("test"),
            subject: None,
            data: String::from("[]"),
        },
    );

    assert!(result.is_err());
}

#[test]
fn invoke_rejects_non_object_args_from_cli() {
    let result = run_cli(
        "/tmp/spindle",
        CliCommand::Invoke {
            action: String::from("test.render"),
            source: String::from("test"),
            args: String::from("[]"),
        },
    );

    assert!(result.is_err());
}

#[test]
fn commands_become_requests() {
    assert_eq!(
        run_cli(
            "/tmp/spindle",
            CliCommand::Emit {
                kind: String::from("test.changed"),
                source: String::from("test"),
                subject: None,
                data: String::from(r#"{"state":"testing"}"#),
            },
        ),
        Ok(CliPlan::Execute {
            request: HubRequest::Emit {
                kind: String::from("test.changed"),
                source: String::from("test"),
                subject: None,
                data: object(vec![("state", text("testing"))]),
            },
        })
    );
    assert_eq!(
        run_cli("/tmp/spindle", CliCommand::Serve { socket: None }),
        Ok(CliPlan::Serve { socket: String::from("/tmp/spindle/spindle.sock") })
    );
    assert_eq!(
        run_cli(
            "/tmp/spindle",
            CliCommand::Bootstrap {
                trust_runtime: true,
                extension_dir: texts(&["/packages"]),
                socket: None,
            },
        ),
        Ok(CliPlan::Bootstrap {
            probe: String::from("/tmp/spindle/.bootstrap"),
            legacy_policy: String::from("/tmp/spindle/capabilities.json"),
            extension_dir: texts(&["/packages"]),
            trust_runtime: true,
            socket: String::from("/tmp/spindle/spindle.sock"),
        })
    );
}

#[test]
fn surface_needs_trust() {
    let command = |trust_runtime| CliCommand::SurfaceExtension {
        trust_runtime,
        manifest: String::from("/p/extension.json"),
    };
    assert_eq!(
        run_cli("/tmp/spindle", command(false)),
        Err(SpindleError::RuntimeTrustRequired { extension: String::from("/p/extension.json") })
    );
    assert_eq!(
        run_cli("/tmp/spindle", command(true)),
        Ok(CliPlan::Surface { manifest: String::from("/p/extension.json") })
    );
}

#[test]
fn install_name_resolves_to_builtin_extension_manifest() {
    assert_eq!(
        resolve_install_manifest("aerospace", false, false),
        "extensions/aerospace/extension.json"
    );
}

#[test]
fn install_paths_resolve_to_what_is_there() {
    assert_eq!(resolve_install_manifest("/p", true, true), "/p/extension.json");
    assert_eq!(resolve_install_manifest("/p/other.json", false, true), "/p/other.json");
}

fn place(path: &str, is_package: bool, is_dir: bool, packages: &[&str]) -> PackagePlace {
    PackagePlace { path: String::from(path), is_package, is_dir, packages: texts(packages) }
}

#[test]
fn packages_are_collected_in_order() {
    assert_eq!(
        extension_packages(&[
            place("/packages", false, true, &["/packages/b", "/packages/a", "/packages/a-b"]),
            place("/single", true, true, &[]),
        ]),
        Ok(texts(&["/packages/a", "/packages/a-b", "/packages/b", "/single"]))
    );
    assert!(matches!(
        extension_packages(&[place("/single", true, true, &[]), place("/file", false, false, &[])]),
        Err(SpindleError::InvalidField { field: "extension-dir", .. })
    ));
}

#[test]
fn times_and_timeouts_fit_or_are_refused() {
    assert_eq!(now_unix_ms(Some(1_700_000_000_000)), Ok(1_700_000_000_000));
    assert_eq!(now_unix_ms(None), Err(SpindleError::Clock));
    assert!(matches!(
        now_unix_ms(Some(u128::from(u64::MAX) + 1)),
        Err(SpindleError::InvalidField { field: "time_unix_ms", .. })
    ));
    assert_eq!(timeout_millis(5_000), 5_000);
    assert_eq!(timeout_millis(u128::MAX), u64::MAX);
}

#[test]
fn private_directories_are_told_from_public_ones() {
    assert!(matches!(
        ensure_private_state_parent(true, 0o755),
        Err(SpindleError::InvalidField { field: "state_dir", .. })
    ));
    assert_eq!(ensure_private_state_parent(true, 0o700), Ok(()));
    assert!(ensure_private_existing_dir(false, 0o700, "socket", "reason").is_err());
    assert!(matches!(ensure_private_parent("/tmp/state/events.jsonl", true), ParentStep::Inspect { .. }));
    assert!(matches!(ensure_private_parent("/tmp/state/events.jsonl", false), ParentStep::Create { .. }));
}

#[test]
fn sockets_are_prepared() {
    assert_eq!(socket_directory("/run/spindle/spindle.sock"), Ok(String::from("/run/spindle")));
    let facts = |exists, is_socket, is_live| SocketFacts { exists, is_socket, is_live };
    assert_eq!(prepare_socket("/run/s.sock", facts(false, false, false)), Ok(false));
    assert_eq!(prepare_socket("/run/s.sock", facts(true, true, false)), Ok(true));
    assert_eq!(
        prepare_socket("/run/s.sock", facts(true, true, true)),
        Err(SpindleError::SocketInUse { path: String::from("/run/s.sock") })
    );
    assert!(prepare_socket("/run/s.sock", facts(true, false, false)).is_err());
}

fn logged(kind: &str, source: &str, index: u64) -> Event {
    Event::builder(String::from(kind), String::from(source))
        .build_with(format!("event-{index}"), index)
        .unwrap()
}

#[test]
fn the_log_is_filtered_and_cut_to_its_tail() {
    let events = vec![
        logged("a.changed", "one", 1),
        logged("b.changed", "one", 2),
        logged("a.changed", "two", 3),
        logged("a.changed", "one", 4),
    ];
    let times = |filter: &EventFilter| {
        select_events(&events, filter).iter().map(|event| event.time_unix_ms).collect::<Vec<_>>()
    };

    assert_eq!(times(&EventFilter::default()), vec![1, 2, 3, 4]);
    let filter =
        EventFilter { kind: Some(String::from("a.changed")), source: None, limit: Some(2) };
    assert_eq!(times(&filter), vec![3, 4]);
    let filter = EventFilter { kind: None, source: Some(String::from("one")), limit: None };
    assert_eq!(times(&filter), vec![1, 2, 4]);
    let filter = EventFilter { kind: None, source: None, limit: Some(0) };
    assert!(times(&filter).is_empty());

    let log = EventLog::in_dir("/var/spindle");
    assert_eq!(log.path(), "/var/spindle/events.jsonl");
    assert_eq!(log.state_dir(), "/var/spindle");
    assert_eq!(spindle::registry_for_log(&log).path(), "/var/spindle/extensions.json");
}

const HERE: LockFileIdentity = LockFileIdentity { dev: 1, ino: 2 };

#[test]
fn a_lock_file_is_read_back() {
    let lock = SidecarLock::acquire("/var/spindle/events.jsonl", 42, 7);
    assert_eq!(lock.path, sidecar_lock_path("/var/spindle/events.jsonl"));
    let written = lock.contents(42);

    let read = read_lock(Some(&written), Some(0), HERE);

    match &read {
        LockRead::Owner { owner, .. } => {
            assert_eq!(owner.pid, 42);
            assert_eq!(owner.token, lock.token);
        }
        other => panic!("unexpected lock: {other:?}"),
    }
    assert!(matches!(
        remove_recoverable_lock(&read, false),
        LockRecovery::Remove { identity } if identity == HERE
    ));
    assert!(!matches!(remove_recoverable_lock(&read, true), LockRecovery::Remove { .. }));
    assert!(lock.owns(read));
}

#[test]
fn only_an_owned_lock_is_removed() {
    let lock = SidecarLock::acquire("/var/spindle/events.jsonl", 42, 7);
    let other = SidecarLock::acquire("/var/spindle/events.jsonl", 42, 8);
    let read = read_lock(Some(&other.contents(42)), Some(0), HERE);
    assert!(!lock.owns(read));
    let read = read_lock(Some(&other.contents(42)), Some(0), HERE);
    assert!(lock_token_matches(read, &other.token));
    assert!(may_remove_lock(HERE, Some(HERE)));
    assert!(!may_remove_lock(HERE, Some(LockFileIdentity { dev: 1, ino: 3 })));
}

#[test]
fn a_malformed_lock_is_recovered_once_it_is_old() {
    let fresh = read_lock(Some("garbage"), Some(10), HERE);
    assert!(!matches!(remove_recoverable_lock(&fresh, false), LockRecovery::Remove { .. }));
    let stale = read_lock(Some("garbage"), Some(60_000), HERE);
    assert!(matches!(remove_recoverable_lock(&stale, false), LockRecovery::Remove { .. }));
    assert_eq!(remove_recoverable_lock(&LockRead::Missing, false), LockRecovery::Gone);
    assert!(matches!(read_lock(None, None, HERE), LockRead::Malformed { age_ms: None, .. }));
    match after_contention("/var/spindle/events.jsonl.lock", &fresh, false, 5_000, 5_000) {
        LockStep::Fail { error } => {
            assert!(matches!(error, SpindleError::Io { .. }));
        }
        other => panic!("unexpected step: {other:?}"),
    }
    assert!(matches!(
        after_contention("/var/spindle/events.jsonl.lock", &fresh, true, 0, 5_000),
        LockStep::Retry
    ));
}

fn effect(response: ResponseTemplate) -> InvokeEffect {
    InvokeEffect { response, ..InvokeEffect::default() }
}

fn rule(contains: Option<&str>, invoke: Option<u64>, session: Option<u64>, marker: &str) -> InvokeRule {
    InvokeRule {
        when_contains: contains.map(String::from),
        when_invoke_index: invoke,
        when_session_index: session,
        effect: InvokeEffect { marker: Some(String::from(marker)), ..InvokeEffect::default() },
    }
}

#[test]
fn the_first_matching_rule_wins() {
    let mut config = TestHostConfig::with_marker_invoke(ExtensionRegistration::new(), "default");
    config.invoke_rules = vec![
        rule(Some("\"action\":\"a\""), Some(2), None, "second a"),
        rule(Some("\"action\":\"a\""), None, None, "any a"),
        rule(None, None, Some(2), "restarted"),
    ];
    let mut state = HostState::new("/tmp/host.json", &config.startup);
    assert_eq!(state.session_marker, "/tmp/host.session");
    let mut marker = |line: &str, marked: bool| {
        state.handle_invoke_request(&config, line, marked).marker.clone().unwrap()
    };

    assert_eq!(marker("{\"action\":\"a\"}", false), "any a");
    assert_eq!(marker("{\"action\":\"a\"}", false), "second a");
    assert_eq!(marker("{\"action\":\"b\"}", false), "default");
    assert_eq!(marker("{\"action\":\"b\"}", true), "restarted");
}

#[test]
fn counting_answers_count() {
    let config = TestHostConfig::with_counting_invoke(ExtensionRegistration::new(), "test.counted");
    let mut state = HostState::new("/tmp/host.json", &StartupAction::default());
    let mut data = || match state.apply_invoke_effect(&config.invoke_default, false).answer {
        EffectAnswer::Respond { response: HostResponse::ActionOutput { output }, mark_session } => {
            assert!(!mark_session);
            assert_eq!(output.emitted_events()[0].kind, "test.counted");
            output.emitted_events()[0].data.clone()
        }
        other => panic!("unexpected answer: {other:?}"),
    };

    assert_eq!(data(), object(vec![("count", Json::Number(JsonNumber::Unsigned(1)))]));
    assert_eq!(data(), object(vec![("count", Json::Number(JsonNumber::Unsigned(2)))]));
}

#[test]
fn effects_are_planned() {
    let mut state = HostState::new("/tmp/host.json", &StartupAction::default());
    let touching = InvokeEffect {
        touch: Some(String::from("/tmp/first")),
        touch_else: Some(String::from("/tmp/second")),
        sleep_ms: 5,
        remove_file: Some(String::from("/tmp/gone")),
        ..InvokeEffect::default()
    };
    let plan = state.apply_invoke_effect(&touching, false);
    assert_eq!(plan.touch, Some(String::from("/tmp/first")));
    assert_eq!(plan.sleep_ms, 5);
    assert_eq!(plan.remove_file, Some(String::from("/tmp/gone")));
    assert_eq!(
        plan.answer,
        EffectAnswer::Respond {
            response: HostResponse::ActionOutput { output: ActionOutput::empty() },
            mark_session: false,
        }
    );
    assert_eq!(
        state.apply_invoke_effect(&touching, true).touch,
        Some(String::from("/tmp/second"))
    );

    let error = effect(ResponseTemplate::Error { error: String::from("no") });
    assert_eq!(
        state.apply_invoke_effect(&error, false).answer,
        EffectAnswer::Respond {
            response: HostResponse::Error { error: String::from("no") },
            mark_session: false,
        }
    );
    let surface = effect(ResponseTemplate::RegistrationSurface {
        registration: ExtensionRegistration::new(),
    });
    assert!(matches!(
        state.apply_invoke_effect(&surface, false).answer,
        EffectAnswer::Respond { mark_session: true, .. }
    ));
    let output = effect(ResponseTemplate::Output { output: object(vec![]) });
    assert_eq!(
        state.apply_invoke_effect(&output, false).answer,
        EffectAnswer::Decode { output: object(vec![]) }
    );
    let failing = effect(ResponseTemplate::Failure {
        failure: FailResponse::Oversized { bytes: 0 },
    });
    assert_eq!(
        state.apply_invoke_effect(&failing, false).answer,
        EffectAnswer::Fail {
            step: FailStep::OversizedThenHang { bytes: DEFAULT_OVERSIZED_BYTES },
        }
    );
    assert_eq!(
        spindle::apply_failure(&FailResponse::Sleep { ms: 9 }),
        FailStep::SleepThenRespond {
            ms: 9,
            response: HostResponse::Error { error: String::from("invoke sleep") },
        }
    );
    assert_eq!(
        spindle::apply_failure(&FailResponse::Exit { code: 3 }),
        FailStep::Exit { code: 3 }
    );
}

#[test]
fn register_requests_are_planned() {
    let registration = ExtensionRegistration::new().produce("test.rendered");
    let mut config = TestHostConfig::with_registration(registration.clone());
    config.startup.mutate_on_register = true;
    assert_eq!(
        handle_register_request(&config),
        RegisterStep::Respond {
            response: HostResponse::Registration { registration },
            mutate: true,
        }
    );
    config.register_response = RegisterResponse::Oversized { bytes: 12 };
    assert_eq!(handle_register_request(&config), RegisterStep::OversizedThenHang { bytes: 12 });
    config.register_response = RegisterResponse::Sleep { ms: 4 };
    assert_eq!(handle_register_request(&config), RegisterStep::Sleep { ms: 4 });
}

#[test]
fn request_lines_are_told_apart() {
    assert_eq!(line_kind("\n"), LineKind::Blank);
    assert_eq!(line_kind("{\"type\":\"register\"}\n"), LineKind::Register);
    assert_eq!(line_kind("{\"type\":\"invoke\"}\n"), LineKind::Invoke);
    assert_eq!(line_kind("{\"type\":\"shutdown\"}\n"), LineKind::Shutdown);
    assert_eq!(line_kind("{\"type\": \"register\"}\n"), LineKind::Unexpected);
    assert_eq!(
        unexpected_request(),
        HostResponse::Error { error: String::from("unexpected request") }
    );
    assert!(text_holds("abc", ""));
    assert!(text_holds("", ""));
    assert!(text_holds("xabcab", "cab"));
    assert!(!text_holds("ab", "abc"));
}

#[test]
fn host_configs_are_looked_for_in_order() {
    assert_eq!(
        config_candidates(
            Some(String::from("/etc/host.json")),
            "/tmp/link/host",
            Some(String::from("/opt/host")),
        ),
        texts(&["/etc/host.json", "/tmp/link/host.json", "/opt/host.json"])
    );
    assert_eq!(
        config_candidates(None, "/opt/host", Some(String::from("/opt/host"))),
        texts(&["/opt/host.json"])
    );
    assert_eq!(config_path_for_executable("/tmp/link/host", Some("/opt/host")), "/opt/host.json");
    assert_eq!(config_path_for_executable("/tmp/link/host", None), "/tmp/link/host.json");
    assert_eq!(
        spindle::missing_config_message("/opt/host"),
        "missing test host config for executable /opt/host"
    );
    assert_eq!(
        spindle::invalid_config_message("/opt/host.json", "expected value"),
        "invalid test host config at /opt/host.json: expected value"
    );
    let template = CountEventTemplate {
        event_type: String::from("test.counted"),
        field: String::from("n"),
    };
    assert_eq!(
        spindle::counting_output(&template, 3).emitted_events()[0].data,
        object(vec![("n", Json::Number(JsonNumber::Unsigned(3)))])
    );
}
