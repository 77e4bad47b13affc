//! Paths, framing, and the sessions of extension hosts.
use spindle::{
    action_response, decode_jsonl_line, host_result, line_read_cap, normalize_path,
    read_limited_jsonl_line, registration_response, resolve_manifest_path, sha256_file,
    shutdown_response, stream_step, trusted_entrypoint, wait_for_child_exit_or_kill,
    ActionOutput, ActionOutputEvent, ExitStep, ExtensionManifest, ExtensionRegistration,
    ExtensionRuntime, ExtensionRuntimeHost, HostReply, HostResponse, HubResponse, InvokeStep,
    IoKind, Json, NameMap, RegisteredExtension, RegisteredRuntimeTrust, SpindleError,
    StdioSessionKey, StreamStep, DEFAULT_JSONL_MESSAGE_LIMIT,
};

fn registered_stdio_extension(id: &str, host: &[u8]) -> RegisteredExtension {
    let package_root = format!("/tmp/spindle/{id}");
    let entrypoint_path = format!("{package_root}/bin/{id}");
    RegisteredExtension {
        id: String::from(id),
        version: String::from("0.1.0"),
        package_root,
        runtime: ExtensionRuntime::StdioJsonl,
        capabilities: Vec::new(),
        emits: Vec::new(),
        produces: Vec::new(),
        actions: NameMap::new(),
        routes: Vec::new(),
        runtime_trust: Some(RegisteredRuntimeTrust {
            entrypoint_path,
            entrypoint_sha256: sha256_file(host),
            registered_at_unix_ms: 0,
        }),
    }
}

fn spawn(
    runtime: &mut ExtensionRuntimeHost,
    extension: &RegisteredExtension,
    host: &[u8],
    session: u64,
) -> StdioSessionKey {
    match runtime.invoke_action(extension, &sha256_file(host)) {
        Ok(InvokeStep::Spawn { key, epoch }) => {
            assert_eq!(runtime.adopt_session(&key, session, epoch), Ok(()));
            key
        }
        other => panic!("expected a session to be started: {other:?}"),
    }
}

fn recovered() -> Json {
    let mut members = NameMap::new();
    members.insert(String::from("recovered"), Json::Bool(true));
    Json::Object(members)
}

#[test]
fn relative_manifest_path_resolves_from_manifest_directory() {
    assert_eq!(
        resolve_manifest_path(
            "/tmp/spindle/extensions/sketchybar/extension.json",
            "../../target/release/spindle-sketchybar",
        ),
        "/tmp/spindle/target/release/spindle-sketchybar"
    );
}

#[test]
fn relative_entrypoint_preserves_leading_parent_segments() {
    assert_eq!(
        resolve_manifest_path("extension.json", "../bin/spindle-test"),
        "../bin/spindle-test"
    );
}

#[test]
fn normal_paths_stay_as_they_are() {
    for path in ["/a/./b/../c", "a//b/", "../../x/..", "/..", ""] {
        let normal = normalize_path(path);
        assert_eq!(normalize_path(&normal), normal);
    }
    assert_eq!(normalize_path("/a/./b/../c"), "/a/c");
    assert_eq!(resolve_manifest_path("/tmp/extension.json", "/opt/bin/host"), "/opt/bin/host");
}

#[derive(Debug, Clone, Copy)]
enum RecoveryScenario {
    ProtocolInvalid,
    Timeout,
    HostClosed,
    Oversized,
    NonUtf8,
}

impl RecoveryScenario {
    fn id(self) -> &'static str {
        match self {
            Self::ProtocolInvalid => "invalid",
            Self::Timeout => "timeout",
            Self::HostClosed => "closed",
            Self::Oversized => "oversized",
            Self::NonUtf8 => "non-utf8",
        }
    }

    fn first_reply(self) -> HostReply {
        match self {
            Self::ProtocolInvalid => {
                HostReply::Malformed { detail: String::from("key must be a string") }
            }
            Self::Timeout => HostReply::TimedOut,
            Self::HostClosed => HostReply::Ended,
            Self::Oversized => {
                let line = vec![b'a'; 1_048_577];
                match read_limited_jsonl_line(&line, DEFAULT_JSONL_MESSAGE_LIMIT).0 {
                    Err(error) => HostReply::Failed { error },
                    other => panic!("unexpected line: {other:?}"),
                }
            }
            Self::NonUtf8 => {
                match read_limited_jsonl_line(&[0xff, b'\n'], DEFAULT_JSONL_MESSAGE_LIMIT).0 {
                    Err(error) => HostReply::Failed { error },
                    other => panic!("unexpected line: {other:?}"),
                }
            }
        }
    }

    fn expected_error(self, result: &Result<ActionOutput, SpindleError>) -> bool {
        match self {
            Self::ProtocolInvalid => {
                matches!(result, Err(SpindleError::ExtensionHostProtocolInvalid { .. }))
            }
            Self::Timeout => matches!(result, Err(SpindleError::ExtensionHostTimedOut { .. })),
            Self::HostClosed => matches!(result, Err(SpindleError::ExtensionHostClosed { .. })),
            Self::Oversized => matches!(result, Err(SpindleError::MessageTooLarge { .. })),
            Self::NonUtf8 => matches!(
                result,
                Err(SpindleError::Io { class, .. }) if *class == IoKind::InvalidData
            ),
        }
    }

    fn runtime(self) -> ExtensionRuntimeHost {
        match self {
            Self::Timeout => ExtensionRuntimeHost::with_timeout(3_000),
            Self::ProtocolInvalid | Self::HostClosed | Self::Oversized | Self::NonUtf8 => {
                ExtensionRuntimeHost::new()
            }
        }
    }

    fn assert_recovers(self) {
        let host = b"#!/bin/sh\n";
        let mut runtime = self.runtime();
        let timeout_ms = u128::from(runtime.host_request_timeout_ms);
        let extension = registered_stdio_extension(self.id(), host);

        let key = spawn(&mut runtime, &extension, host, 1);
        let reply = host_result(self.id(), self.first_reply(), timeout_ms);
        let first = runtime.finish_invoke(&key, 1, "test.render", reply, "");
        assert!(self.expected_error(&first.result), "unexpected result: {:?}", first.result);
        assert!(first.terminate);

        let key = spawn(&mut runtime, &extension, host, 2);
        let reply = host_result(
            self.id(),
            HostReply::Answered {
                response: HostResponse::ActionOutput { output: ActionOutput::empty() },
            },
            timeout_ms,
        );
        let second = runtime.finish_invoke(&key, 2, "test.render", reply, "");
        assert!(!second.terminate);
        assert!(second.result.unwrap().emitted_events().is_empty());
        assert_eq!(runtime.shutdown(), vec![2]);
    }
}

#[test]
fn broken_stdio_sessions_are_removed_terminated_and_recovered() {
    for scenario in [
        RecoveryScenario::ProtocolInvalid,
        RecoveryScenario::HostClosed,
        RecoveryScenario::Oversized,
        RecoveryScenario::NonUtf8,
    ] {
        scenario.assert_recovers();
    }
}

#[test]
fn timed_out_session_is_removed_and_terminated() {
    RecoveryScenario::Timeout.assert_recovers();
}

#[test]
fn timeouts_say_how_long_was_waited() {
    let error = host_result("slow", HostReply::TimedOut, 3_000).unwrap_err();
    assert_eq!(error.message(), "extension slow host timed out after 3000ms");
}

#[test]
fn a_session_is_used_again() {
    let host = b"host";
    let extension = registered_stdio_extension("steady", host);
    let mut runtime = ExtensionRuntimeHost::new();
    let key = spawn(&mut runtime, &extension, host, 7);

    assert_eq!(
        runtime.invoke_action(&extension, &sha256_file(host)),
        Ok(InvokeStep::Use { key, session: 7 })
    );
}

#[test]
fn recipes_run_nothing() {
    let mut extension = registered_stdio_extension("recipe", b"");
    extension.runtime = ExtensionRuntime::Recipe;

    assert_eq!(trusted_entrypoint(&extension), None);
    assert_eq!(
        ExtensionRuntimeHost::new().invoke_action(&extension, ""),
        Ok(InvokeStep::Answer { output: ActionOutput::empty() })
    );
}

#[test]
fn a_changed_entrypoint_is_not_started() {
    let extension = registered_stdio_extension("trusted", b"before");
    assert_eq!(
        trusted_entrypoint(&extension),
        Some(String::from("/tmp/spindle/trusted/bin/trusted"))
    );
    assert!(matches!(
        ExtensionRuntimeHost::new().invoke_action(&extension, &sha256_file(b"after")),
        Err(SpindleError::ExtensionTrustChanged { .. })
    ));
}

#[test]
fn runtime_trust_registry_replacement_invalidates_live_stdio_session() {
    let first = registered_stdio_extension("replace-me", b"v1");
    let second = registered_stdio_extension("replace-me", b"v2");
    let mut runtime = ExtensionRuntimeHost::new();
    spawn(&mut runtime, &first, b"v1", 1);

    assert_eq!(runtime.invalidate_extension("replace-me"), vec![1]);

    spawn(&mut runtime, &second, b"v2", 2);
}

#[test]
fn runtime_trust_runtime_respawns_stdio_session_when_registered_metadata_changes() {
    let first = registered_stdio_extension("replace-me", b"v1");
    let mut second = registered_stdio_extension("replace-me", b"v2");
    second.version = String::from("0.2.0");
    let mut runtime = ExtensionRuntimeHost::new();

    spawn(&mut runtime, &first, b"v1", 1);
    spawn(&mut runtime, &second, b"v2", 2);

    assert_eq!(runtime.shutdown(), vec![1, 2]);
}

#[test]
fn a_session_started_before_a_shutdown_is_refused() {
    let host = b"host";
    let extension = registered_stdio_extension("slow-start", host);
    let mut runtime = ExtensionRuntimeHost::new();
    let Ok(InvokeStep::Spawn { key, epoch }) =
        runtime.invoke_action(&extension, &sha256_file(host))
    else {
        panic!("expected a session to be started");
    };

    assert!(runtime.shutdown().is_empty());

    assert_eq!(
        runtime.adopt_session(&key, 1, epoch),
        Err(SpindleError::ExtensionHostClosed { extension: String::from("slow-start") })
    );
    assert_eq!(runtime.lookup_session(&key), None);
    spawn(&mut runtime, &extension, host, 2);
}

#[test]
fn a_stale_session_does_not_evict_its_replacement() {
    let host = b"host";
    let extension = registered_stdio_extension("stale", host);
    let mut runtime = ExtensionRuntimeHost::new();
    let key = spawn(&mut runtime, &extension, host, 1);
    runtime.invalidate_extension("stale");
    spawn(&mut runtime, &extension, host, 2);

    let reply = host_result("stale", HostReply::Ended, 5_000);
    let outcome = runtime.finish_invoke(&key, 1, "test.render", reply, "");

    assert!(!outcome.terminate);
    assert_eq!(runtime.lookup_session(&key), Some(2));
}

#[test]
fn invalidating_one_extension_leaves_others_alone() {
    let first = registered_stdio_extension("first", b"a");
    let second = registered_stdio_extension("second", b"b");
    let mut runtime = ExtensionRuntimeHost::new();
    spawn(&mut runtime, &second, b"b", 2);
    let key = spawn(&mut runtime, &first, b"a", 1);

    assert_eq!(runtime.invalidate_extension("second"), vec![2]);
    assert_eq!(runtime.lookup_session(&key), Some(1));
    assert_eq!(runtime.shutdown(), vec![1]);
}

#[test]
fn unexpected_registration_response_evicts_stdio_session() {
    let host = b"host";
    let extension = registered_stdio_extension("unexpected-response", host);
    let mut runtime = ExtensionRuntimeHost::new();
    let key = spawn(&mut runtime, &extension, host, 1);

    let response = HostResponse::Registration { registration: ExtensionRegistration::new() };
    let rendered = format!("{response:?}");
    let outcome = runtime.finish_invoke(&key, 1, "test.render", Ok(response), &rendered);

    assert!(outcome.terminate);
    match outcome.result {
        Err(SpindleError::ExtensionHostError { extension, message }) => {
            assert_eq!(extension, "unexpected-response");
            assert!(message.starts_with("unexpected host response: Registration"));
        }
        other => panic!("unexpected result: {other:?}"),
    }

    let key = spawn(&mut runtime, &extension, host, 2);
    let output =
        ActionOutput::event(ActionOutputEvent::new("test.rendered").with_data(recovered()));
    let second = runtime.finish_invoke(
        &key,
        2,
        "test.render",
        Ok(HostResponse::ActionOutput { output }),
        "",
    );
    assert_eq!(second.result.unwrap().emitted_events()[0].data, recovered());
}

#[test]
fn action_error_response_does_not_evict_stdio_session() {
    let host = b"host";
    let extension = registered_stdio_extension("action-error", host);
    let mut runtime = ExtensionRuntimeHost::new();
    let key = spawn(&mut runtime, &extension, host, 1);

    let response = HostResponse::Error { error: String::from("action failed") };
    let outcome = runtime.finish_invoke(&key, 1, "test.render", Ok(response), "");

    assert!(!outcome.terminate);
    assert_eq!(
        outcome.result,
        Err(SpindleError::ExtensionActionFailed {
            extension: String::from("action-error"),
            action: String::from("test.render"),
            status: None,
            stderr: String::from("action failed"),
        })
    );
    assert_eq!(runtime.lookup_session(&key), Some(1));
}

#[test]
fn responses_are_taken_for_what_was_asked() {
    let registration = ExtensionRegistration::new().produce("test.rendered");
    assert_eq!(
        registration_response(
            "test",
            HostResponse::Registration { registration: registration.clone() },
            "",
        ),
        Ok(registration)
    );
    assert_eq!(
        registration_response("test", HostResponse::Error { error: String::from("no") }, ""),
        Err(SpindleError::ExtensionRegistrationFailed {
            extension: String::from("test"),
            status: None,
            stderr: String::from("no"),
        })
    );
    assert!(matches!(
        registration_response("test", HostResponse::Shutdown, "Shutdown"),
        Err(SpindleError::ExtensionHostError { .. })
    ));
    let output = ActionOutput::event(ActionOutputEvent::new("test.rendered"));
    assert_eq!(
        action_response("test", "test.render", HostResponse::ActionOutput { output }, ""),
        Ok(ActionOutput::event(ActionOutputEvent::new("test.rendered")))
    );
    assert_eq!(shutdown_response("test", &HostResponse::Shutdown, "Shutdown"), Ok(()));
    assert!(shutdown_response(
        "test",
        &HostResponse::Error { error: String::new() },
        "Error"
    )
    .is_err());
}

#[test]
fn registration_is_asked_of_the_package_binary() {
    let manifest = ExtensionManifest {
        id: String::from("host"),
        version: String::from("0.1.0"),
        runtime: ExtensionRuntime::StdioJsonl,
        emits: Vec::new(),
        produces: Vec::new(),
        capabilities: Vec::new(),
        actions: NameMap::new(),
        routes: Vec::new(),
    };
    let runtime = ExtensionRuntimeHost::new();
    assert_eq!(
        runtime.load_registration(&manifest, "/packages/host"),
        Some(String::from("/packages/host/bin/host"))
    );
    let recipe = ExtensionManifest { runtime: ExtensionRuntime::Recipe, ..manifest };
    assert_eq!(runtime.load_registration(&recipe, "/packages/host"), None);
}

#[test]
fn a_host_that_does_not_exit_is_killed() {
    assert_eq!(wait_for_child_exit_or_kill(true, 0, 5_000), ExitStep::Done);
    assert_eq!(wait_for_child_exit_or_kill(false, 100, 5_000), ExitStep::Wait { ms: 10 });
    assert_eq!(wait_for_child_exit_or_kill(false, 5_000, 5_000), ExitStep::Kill);
}

#[test]
fn limited_line_reads_normal_framed_message() {
    let (line, read) = read_limited_jsonl_line(b"{}\nnext", 8);
    let line = line.unwrap().unwrap();

    assert_eq!(line, "{}\n");
    assert_eq!(read, 3);
}

#[test]
fn limited_line_rejects_newline_less_message_at_limit() {
    let (result, read) = read_limited_jsonl_line(b"12345", 5);

    assert!(matches!(
        result,
        Err(SpindleError::Io { class, .. }) if class == IoKind::UnexpectedEof
    ));
    assert_eq!(read, 5);
}

#[test]
fn limited_line_rejects_oversized_message() {
    let (result, read) = read_limited_jsonl_line(b"123456", 5);

    assert!(matches!(result, Err(SpindleError::MessageTooLarge { limit: 5 })));
    assert_eq!(read, 6);
}

#[test]
fn limited_line_rejects_non_utf8_input() {
    let (result, read) = read_limited_jsonl_line(&[0xff, b'\n'], 8);

    assert!(matches!(
        result,
        Err(SpindleError::Io { class, .. }) if class == IoKind::InvalidData
    ));
    assert_eq!(read, 2);
}

#[test]
fn limited_line_reports_empty_eof() {
    let (result, read) = read_limited_jsonl_line(&[], 8);

    assert!(result.unwrap().is_none());
    assert_eq!(read, 0);
}

#[test]
fn lines_are_read_one_after_another() {
    let input = b"{}\n\xff\n12345678\n[]\n".as_slice();
    let mut at = 0;
    let mut reads = Vec::new();
    while at < input.len() {
        let (result, read) = read_limited_jsonl_line(&input[at..], 6);
        reads.push((result.is_ok(), read));
        at += read;
    }
    assert_eq!(reads, vec![(true, 3), (false, 2), (false, 7), (true, 2), (true, 3)]);
}

#[test]
fn a_line_may_be_read_to_a_byte_over_the_limit() {
    assert_eq!(line_read_cap(8), 9);
    assert_eq!(line_read_cap(usize::MAX), usize::MAX);
}

#[test]
fn what_was_framed_is_read_back() {
    let message = "{\"text\":\"größe\"}\n";
    let bytes = message.as_bytes().to_vec();
    assert_eq!(decode_jsonl_line(bytes.clone(), bytes.len()), Ok(Some(String::from(message))));
}

#[test]
fn a_stream_goes_on_after_blank_lines_and_ends_after_protocol_errors() {
    assert_eq!(stream_step(Ok(None)), StreamStep::Close);
    assert_eq!(stream_step(Ok(Some(String::from("\n")))), StreamStep::Skip);
    assert_eq!(
        stream_step(Ok(Some(String::from("{}\n")))),
        StreamStep::Execute { line: String::from("{}\n") }
    );
    match stream_step(Err(SpindleError::MessageTooLarge { limit: 5 })) {
        StreamStep::RefuseAndClose { response: HubResponse::Error { error } } => {
            assert!(error.contains('5'));
        }
        other => panic!("unexpected step: {other:?}"),
    }
}
