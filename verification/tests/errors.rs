//! Messages of errors, and the rules for names.
use spindle::{
    decimal_text, validate_disjoint_values, validate_name, validate_path_string,
    validate_subject, validate_token, validate_unique_values, IoKind, SpindleError,
};

fn text(value: &str) -> String {
    String::from(value)
}

#[test]
fn errors_say_what_happened() {
    let extension = || text("ext");
    let action = || text("act");
    let cases = [
        (SpindleError::InvalidField { field: "id", reason: "must not be empty" },
            "invalid id: must not be empty"),
        (SpindleError::MissingActionCapability { action: action(), capability: text("cap") },
            "action act requires capability cap"),
        (SpindleError::SurfaceConflict {
            surface: "event",
            name: text("a.changed"),
            existing_extension: text("old"),
            new_extension: text("new"),
        }, "event a.changed is already owned by extension old, cannot register extension new"),
        (SpindleError::CapabilityGrantDenied {
            grant_kind: "direct client",
            grantor: text("raycast"),
            capability: text("cap"),
        }, "direct client raycast is not allowed to grant capability cap"),
        (SpindleError::EventEmitDenied { event_source: text("pi"), kind: text("a.changed") },
            "source pi is not allowed to emit event a.changed"),
        (SpindleError::UnknownRouteEvent { extension: extension(), event: text("a.changed") },
            "extension ext route references unknown event a.changed"),
        (SpindleError::UnknownRouteSource { extension: extension(), route_source: text("src") },
            "extension ext route references unknown source src"),
        (SpindleError::UnknownRouteAction { extension: extension(), action: action() },
            "extension ext route references unknown action act"),
        (SpindleError::UnknownPolicyGrantor { grantor: extension() },
            "capabilities.json routes grantor ext is not an installed extension"),
        (SpindleError::UnknownPolicyGrantSource { grantor: extension(), grant_source: text("src") },
            "capabilities.json routes[ext] references unknown source extension src"),
        (SpindleError::UnknownPolicyGrantEvent { grantor: extension(), event: text("a.changed") },
            "capabilities.json routes[ext] references unknown event a.changed"),
        (SpindleError::OrphanPolicyGrant {
            grantor: extension(),
            grant_source: text("src"),
            event: text("a.changed"),
        }, "capabilities.json routes[ext] has no matching route for source src and event a.changed"),
        (SpindleError::LegacyRouteGrantPolicy { grantor: extension() },
            "capabilities.json routes[ext] must be an array of objects with source, event, and capabilities fields; legacy capability string lists are not supported"),
        (SpindleError::RegistryValidationFailed { messages: vec![text("a: x"), text("b: y")] },
            "registry validation failed:\na: x\nb: y"),
        (SpindleError::UndeclaredProducedEvent {
            extension: extension(),
            action: action(),
            kind: text("a.changed"),
        }, "extension ext action act produced undeclared event a.changed"),
        (SpindleError::RuntimeTrustRequired { extension: extension() },
            "extension ext requires --trust-runtime to execute its entrypoint for registration"),
        (SpindleError::MessageTooLarge { limit: 1_048_576 },
            "protocol message exceeded 1048576 bytes"),
        (SpindleError::ExtensionTrustChanged { extension: extension(), entrypoint: text("/bin/x") },
            "extension ext trusted entrypoint changed: /bin/x"),
        (SpindleError::MissingHome, "HOME is not set and SPINDLE_STATE_DIR was not provided"),
        (SpindleError::SocketInUse { path: text("/run/s.sock") },
            "socket is already in use: /run/s.sock"),
        (SpindleError::ActionNotInstalled { action: action() },
            "no installed extension exposes action act"),
        (SpindleError::MissingExtensionEntrypoint { extension: extension() },
            "extension ext has no entrypoint"),
        (SpindleError::ExtensionActionFailed {
            extension: extension(),
            action: action(),
            status: Some(1),
            stderr: text("boom"),
        }, "extension ext action act failed: boom"),
        (SpindleError::ExtensionRegistrationFailed {
            extension: extension(),
            status: None,
            stderr: text("boom"),
        }, "extension ext registration failed: boom"),
        (SpindleError::ExtensionRegistrationInvalid { extension: extension(), detail: text("eof") },
            "extension ext returned invalid registration: eof"),
        (SpindleError::ExtensionHostProtocolInvalid { extension: extension(), detail: text("eof") },
            "extension ext returned invalid host protocol: eof"),
        (SpindleError::ExtensionHostClosed { extension: extension() },
            "extension ext host closed unexpectedly"),
        (SpindleError::ExtensionHostError { extension: extension(), message: text("odd") },
            "extension ext host failed: odd"),
        (SpindleError::ExtensionHostTimedOut { extension: extension(), timeout_ms: 5000 },
            "extension ext host timed out after 5000ms"),
        (SpindleError::ExtensionContract { detail: text("failed to parse json: eof") },
            "failed to parse json: eof"),
        (SpindleError::ExtensionOutputInvalid {
            extension: extension(),
            action: action(),
            detail: text("eof"),
        }, "extension ext action act returned invalid output: eof"),
        (SpindleError::ContinuationInvalid, "continuation handle is invalid"),
        (SpindleError::ContinuationExpired, "continuation handle is expired"),
        (SpindleError::DispatchDepthExceeded, "extension dispatch exceeded maximum depth"),
        (SpindleError::Clock, "system clock is before the Unix epoch"),
        (SpindleError::Io { class: IoKind::Other, message: text("broken pipe") }, "broken pipe"),
        (SpindleError::Json { message: text("expected value") }, "expected value"),
    ];
    for (error, message) in cases {
        assert_eq!(error.message(), message);
    }
}

#[test]
fn numbers_are_written_in_decimal() {
    assert_eq!(decimal_text(0), "0");
    assert_eq!(decimal_text(907), "907");
    assert_eq!(decimal_text(u64::MAX), "18446744073709551615");
}

#[test]
fn names_are_checked() {
    for name in ["a", "7", "agent.status.changed", "A_b:c-9"] {
        assert_eq!(validate_name("id", name), Ok(()));
    }
    let refused = |name: &str| match validate_name("id", name) {
        Err(SpindleError::InvalidField { field: "id", reason }) => reason,
        other => panic!("unexpected result: {other:?}"),
    };
    assert_eq!(refused(""), "must not be empty");
    assert_eq!(refused(" \u{3000}"), "must not be empty");
    assert_eq!(refused("\u{1}"), "must not contain control characters");
    assert_eq!(refused("a\u{85}"), "must not contain control characters");
    assert_eq!(refused("\u{85}"), "must not be empty");
    assert_eq!(refused(".a"), "must start with an ASCII letter or number");
    assert_eq!(
        refused("a b"),
        "must contain only ASCII letters, numbers, '.', '_', ':', or '-'"
    );
    assert_eq!(
        refused("aé"),
        "must contain only ASCII letters, numbers, '.', '_', ':', or '-'"
    );
}

#[test]
fn free_text_is_checked() {
    assert_eq!(validate_subject("subject", "item 1: größe"), Ok(()));
    assert!(validate_subject("subject", "\n").is_err());
    assert_eq!(validate_token("direct", "*"), Ok(()));
    assert!(validate_token("direct", "a\nb").is_err());
    assert_eq!(validate_path_string("entrypoint", "../bin/host"), Ok(()));
    assert_eq!(
        validate_path_string("entrypoint", "a\0b"),
        Err(SpindleError::InvalidField {
            field: "entrypoint",
            reason: "must not contain control characters",
        })
    );
}

#[test]
fn lists_are_checked() {
    let list = |values: &[&str]| values.iter().map(|value| text(value)).collect::<Vec<_>>();
    assert_eq!(validate_unique_values("emits", &list(&["a", "b"])), Ok(()));
    assert_eq!(
        validate_unique_values("emits", &list(&["a", "b", "a"])),
        Err(SpindleError::InvalidField {
            field: "emits",
            reason: "must not contain duplicate values",
        })
    );
    assert_eq!(validate_disjoint_values(&list(&["a"]), "produces", &list(&["b"])), Ok(()));
    assert_eq!(
        validate_disjoint_values(&list(&["a", "b"]), "produces", &list(&["c", "b"])),
        Err(SpindleError::InvalidField {
            field: "produces",
            reason: "must not overlap with emits",
        })
    );
}
