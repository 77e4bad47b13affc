//! Manifests, and what installing them records.
use sha2::Digest;
use spindle::{
    ensure_entrypoint_ready, ensure_static_surface, install_manifest,
    install_manifest_with_runtime, plan_staging, resolve_source_package, sha256_file,
    validate_installed_registry, verify_runtime_trust, CapabilityPolicy, ExtensionAction,
    ExtensionManifest, ExtensionRegistration, ExtensionRegistry, ExtensionRoute,
    ExtensionRuntime, Installation, Json, JsonNumber, NameMap, RegisteredExtension,
    RegistrationAction, RegistrationRoute, RuntimeTrustSnapshot, SourceFacts, SpindleError,
    StagedPackage, TestHostConfig,
};

fn object(members: Vec<(&str, Json)>) -> Json {
    let mut map = NameMap::new();
    for (name, value) in members {
        map.insert(name.to_owned(), value);
    }
    Json::Object(map)
}

fn number(value: u64) -> Json {
    Json::Number(JsonNumber::Unsigned(value))
}

fn texts(values: &[&str]) -> Vec<String> {
    values.iter().map(|value| String::from(*value)).collect()
}

fn actions(entries: &[(&str, &[&str])]) -> NameMap<ExtensionAction> {
    let mut map = NameMap::new();
    for (name, capabilities) in entries {
        map.insert(String::from(*name), ExtensionAction { capabilities: texts(capabilities) });
    }
    map
}

fn manifest(id: &str, runtime: ExtensionRuntime) -> ExtensionManifest {
    ExtensionManifest {
        id: String::from(id),
        version: String::from("0.1.0"),
        runtime,
        emits: Vec::new(),
        produces: Vec::new(),
        capabilities: Vec::new(),
        actions: NameMap::new(),
        routes: Vec::new(),
    }
}

fn static_manifest(
    id: &str,
    action_names: &[&str],
    emits: &[&str],
    produces: &[&str],
    capabilities: &[&str],
) -> ExtensionManifest {
    let runtime = if action_names.is_empty() {
        ExtensionRuntime::Recipe
    } else {
        ExtensionRuntime::StdioJsonl
    };
    let none: &[&str] = &[];
    let entries: Vec<(&str, &[&str])> = action_names.iter().map(|name| (*name, none)).collect();
    ExtensionManifest {
        emits: texts(emits),
        produces: texts(produces),
        capabilities: texts(capabilities),
        actions: actions(&entries),
        ..manifest(id, runtime)
    }
}

fn route(event: &str, source: Option<&str>, action: &str, capabilities: &[&str]) -> ExtensionRoute {
    ExtensionRoute {
        event: String::from(event),
        source: source.map(String::from),
        action: String::from(action),
        capabilities: texts(capabilities),
        args: object(vec![]),
    }
}

const STATE_DIR: &str = "/var/spindle";
const HOST: &[u8] = b"#!/bin/sh\nexit 0\n";

fn install(
    entries: Vec<RegisteredExtension>,
    manifest: ExtensionManifest,
) -> Result<Installation, SpindleError> {
    manifest.validate()?;
    ensure_static_surface(&manifest)?;
    let plan = plan_staging(STATE_DIR, "/packages/source", &manifest);
    let staged = StagedPackage { package_root: plan.package_root };
    let snapshot = RuntimeTrustSnapshot::entrypoint(&staged.package_root, &manifest)
        .map(|path| RuntimeTrustSnapshot::capture(path, HOST));
    install_manifest(entries, &staged, manifest, snapshot, 1)
}

fn install_trusting(
    entries: Vec<RegisteredExtension>,
    manifest: ExtensionManifest,
    registration: ExtensionRegistration,
    host_after: &[u8],
) -> Result<Installation, SpindleError> {
    manifest.validate()?;
    let plan = plan_staging(STATE_DIR, "/packages/source", &manifest);
    let staged = StagedPackage { package_root: plan.package_root };
    let snapshot = RuntimeTrustSnapshot::entrypoint(&staged.package_root, &manifest)
        .map(|path| RuntimeTrustSnapshot::capture(path, HOST));
    let current = sha256_file(host_after);
    install_manifest_with_runtime(
        entries,
        &staged,
        manifest,
        Some(registration),
        snapshot,
        &current,
        1,
    )
}

#[test]
fn manifest_allows_action_capabilities_without_providing_them() {
    let manifest = ExtensionManifest {
        actions: actions(&[("sketchybar.render", &["sketchybar.ui.write"])]),
        ..manifest("sketchybar-agent-status", ExtensionRuntime::StdioJsonl)
    };

    assert_eq!(manifest.validate(), Ok(()));
}

#[test]
fn manifest_rejects_duplicate_action_capabilities() {
    let manifest = ExtensionManifest {
        capabilities: texts(&["test.write"]),
        actions: actions(&[("test.render", &["test.write", "test.write"])]),
        ..manifest("duplicate-action-capability", ExtensionRuntime::StdioJsonl)
    };

    assert!(matches!(
        manifest.validate(),
        Err(SpindleError::InvalidField { field: "action.capabilities", .. })
    ));
}

#[test]
fn manifest_rejects_recipe_actions() {
    let manifest = ExtensionManifest {
        actions: actions(&[("workflow.render", &[])]),
        ..manifest("recipe-with-actions", ExtensionRuntime::Recipe)
    };

    assert!(matches!(
        manifest.validate(),
        Err(SpindleError::InvalidField {
            field: "actions",
            reason: "recipe extensions cannot declare actions",
        })
    ));
}

#[test]
fn manifest_rejects_duplicate_route_capabilities() {
    let manifest = ExtensionManifest {
        routes: vec![route(
            "test.changed",
            Some("test"),
            "test.render",
            &["test.write", "test.write"],
        )],
        ..manifest("duplicate-route-capability", ExtensionRuntime::Recipe)
    };

    assert!(matches!(
        manifest.validate(),
        Err(SpindleError::InvalidField { field: "route.capabilities", .. })
    ));
}

#[test]
fn manifest_rejects_emit_produce_overlap() {
    let manifest = ExtensionManifest {
        emits: texts(&["shared.event"]),
        produces: texts(&["shared.event"]),
        ..manifest("overlap", ExtensionRuntime::Recipe)
    };

    assert!(matches!(
        manifest.validate(),
        Err(SpindleError::InvalidField { field: "produces", .. })
    ));
}

#[test]
fn manifest_rejects_capabilities_of_a_route_without_source() {
    let manifest = ExtensionManifest {
        routes: vec![route("test.changed", None, "test.render", &["test.write"])],
        ..manifest("sourceless", ExtensionRuntime::Recipe)
    };

    assert!(matches!(
        manifest.validate(),
        Err(SpindleError::InvalidField { field: "route.source", .. })
    ));
}

#[test]
fn manifest_rejects_bad_names() {
    let bad = manifest("-leading", ExtensionRuntime::Recipe);
    assert!(matches!(bad.validate(), Err(SpindleError::InvalidField { field: "id", .. })));

    let bad = ExtensionManifest {
        emits: texts(&["one two"]),
        ..manifest("spaces", ExtensionRuntime::Recipe)
    };
    assert!(bad.validate().is_err());
}

#[test]
fn runtime_trust_recipe_manifest_can_contribute_routes_without_entrypoint() {
    let manifest = ExtensionManifest {
        routes: vec![ExtensionRoute {
            event: String::from("aerospace.workspace.changed"),
            source: None,
            action: String::from("aerospace.workspace.snapshot"),
            capabilities: Vec::new(),
            args: object(vec![("settle_ms", number(50))]),
        }],
        ..manifest("workspace-indicator", ExtensionRuntime::Recipe)
    };

    assert_eq!(manifest.validate(), Ok(()));
}

#[test]
fn tests_recipe_manifest_can_contribute_routes_without_entrypoint() {
    let manifest = ExtensionManifest {
        id: String::from("workspace-indicator"),
        version: String::from("0.1.0"),
        runtime: ExtensionRuntime::Recipe,
        emits: Vec::new(),
        produces: Vec::new(),
        capabilities: Vec::new(),
        actions: NameMap::new(),
        routes: vec![ExtensionRoute {
            event: String::from("aerospace.workspace.changed"),
            source: None,
            action: String::from("aerospace.workspace.snapshot"),
            capabilities: Vec::new(),
            args: object(vec![("settle_ms", number(50))]),
        }],
    };

    assert_eq!(manifest.validate(), Ok(()));
}

#[test]
fn sdk_registration_surface_matches_core_manifest_shape() {
    let sdk_route = RegistrationRoute::new("provider.changed", "provider.snapshot")
        .source("provider")
        .capability("provider.read")
        .with_args(object(vec![("settle_ms", number(50))]));
    let sdk_action = RegistrationAction::new().capability("provider.read");

    let core_route = ExtensionRoute::from(sdk_route);
    let core_action = ExtensionAction::from(sdk_action);

    assert_eq!(
        core_route,
        ExtensionRoute {
            event: String::from("provider.changed"),
            source: Some(String::from("provider")),
            action: String::from("provider.snapshot"),
            capabilities: texts(&["provider.read"]),
            args: object(vec![("settle_ms", number(50))]),
        }
    );
    assert_eq!(core_action, ExtensionAction { capabilities: texts(&["provider.read"]) });
}

#[test]
fn registration_is_merged_without_repeats() {
    let mut base = static_manifest("host", &["host.render"], &["host.changed"], &[], &[]);
    let registration = ExtensionRegistration::new()
        .emit("host.changed")
        .produce("host.rendered")
        .capability("host.read")
        .action("host.render", RegistrationAction::new())
        .action("host.clear", RegistrationAction::new().capability("host.read"))
        .route(RegistrationRoute::new("host.changed", "host.render"));

    assert_eq!(base.merge_registration(registration.clone()), Ok(()));
    assert_eq!(base.merge_registration(registration), Ok(()));

    assert_eq!(base.emits, texts(&["host.changed"]));
    assert_eq!(base.produces, texts(&["host.rendered"]));
    assert_eq!(base.capabilities, texts(&["host.read"]));
    assert_eq!(base.actions, actions(&[("host.clear", &["host.read"]), ("host.render", &[])]));
    assert_eq!(base.routes.len(), 1);
}

#[test]
fn registration_must_not_redefine_a_static_action() {
    let base = static_manifest("host", &["host.render"], &[], &[], &[]);
    let registration = ExtensionRegistration::new()
        .action("host.render", RegistrationAction::new().capability("host.read"));

    assert_eq!(
        base.apply_runtime_registration(Some(registration)),
        Err(SpindleError::InvalidField {
            field: "actions",
            reason: "must not conflict with static manifest actions",
        })
    );
}

#[test]
fn registry_registry_registers_manifest() {
    let manifest = ExtensionManifest {
        capabilities: texts(&["sketchybar.ui.write"]),
        actions: actions(&[("sketchybar.agentStatus.render", &["sketchybar.ui.write"])]),
        ..manifest("sketchybar-agent-status", ExtensionRuntime::StdioJsonl)
    };

    let installation = install(Vec::new(), manifest).unwrap();

    assert_eq!(installation.registered.id, "sketchybar-agent-status");
    assert_eq!(
        installation.registered.package_root,
        "/var/spindle/extensions/sketchybar-agent-status"
    );
    assert_eq!(installation.entries, vec![installation.registered]);
}

#[test]
fn registry_entries_are_sorted_and_replaced_by_id() {
    let first = install(Vec::new(), static_manifest("beta", &["b.act"], &[], &[], &[])).unwrap();
    let second =
        install(first.entries, static_manifest("alpha", &["a.act"], &[], &[], &[])).unwrap();
    let third =
        install(second.entries, static_manifest("beta", &["c.act"], &[], &[], &[])).unwrap();

    let ids: Vec<&str> = third.entries.iter().map(|entry| entry.id.as_str()).collect();
    assert_eq!(ids, vec!["alpha", "beta"]);
    assert!(third.entries[1].actions.contains_key("c.act"));
    assert!(!third.entries[1].actions.contains_key("b.act"));
}

#[test]
fn registry_accepts_installed_route_grants_without_policy() {
    let workflow = ExtensionManifest {
        routes: vec![route(
            "provider.changed",
            Some("provider"),
            "provider.snapshot",
            &["provider.read"],
        )],
        ..manifest("workflow", ExtensionRuntime::Recipe)
    };
    let provider = ExtensionManifest {
        emits: texts(&["provider.changed"]),
        actions: actions(&[("provider.snapshot", &[])]),
        ..manifest("provider", ExtensionRuntime::StdioJsonl)
    };

    let entries = install(Vec::new(), provider).unwrap().entries;
    let registered = install(entries, workflow).unwrap().registered;

    assert_eq!(registered.routes[0].capabilities, texts(&["provider.read"]));
}

#[test]
fn static_registration_accepts_route_capabilities_without_policy() {
    let workflow = ExtensionManifest {
        routes: vec![route(
            "provider.changed",
            Some("provider"),
            "provider.snapshot",
            &["provider.read"],
        )],
        ..manifest("workflow", ExtensionRuntime::Recipe)
    };

    let registered = install(Vec::new(), workflow).unwrap().registered;

    assert_eq!(registered.routes[0].capabilities, texts(&["provider.read"]));
}

#[test]
fn trusted_runtime_registration_accepts_route_capabilities_without_policy() {
    let registration = ExtensionRegistration::new()
        .capability("provider.read")
        .action("provider.snapshot", RegistrationAction::new().capability("provider.read"))
        .route(
            RegistrationRoute::new("provider.changed", "provider.snapshot")
                .source("provider")
                .capability("provider.read"),
        );

    let registered = install_trusting(
        Vec::new(),
        manifest("route-host", ExtensionRuntime::StdioJsonl),
        registration,
        HOST,
    )
    .unwrap()
    .registered;

    assert_eq!(registered.routes[0].capabilities, texts(&["provider.read"]));
}

#[test]
fn runtime_trust_registry_authorizes_installed_route_grants() {
    let workflow = ExtensionManifest {
        routes: vec![route(
            "provider.changed",
            Some("provider"),
            "provider.snapshot",
            &["provider.read"],
        )],
        ..manifest("workflow", ExtensionRuntime::Recipe)
    };
    let registered = install(Vec::new(), workflow).unwrap().registered;
    let mut policy = CapabilityPolicy::default();

    assert_eq!(policy.authorize_route_grants(&registered), Ok(()));

    assert_eq!(policy.ensure_route_grants(&registered), Ok(()));
}

#[test]
fn runtime_trust_trusted_runtime_registration_records_entrypoint_hash() {
    let registration =
        ExtensionRegistration::new().action("test.render", RegistrationAction::new());

    let registered = install_trusting(
        Vec::new(),
        manifest("trusted", ExtensionRuntime::StdioJsonl),
        registration,
        HOST,
    )
    .unwrap()
    .registered;
    let trust = registered.runtime_trust.unwrap();

    assert_eq!(trust.entrypoint_path, "/var/spindle/extensions/trusted/bin/trusted");
    assert_eq!(trust.entrypoint_sha256.len(), 64);
    assert!(trust.registered_at_unix_ms > 0);
}

#[test]
fn runtime_trust_trusted_runtime_registration_rejects_entrypoint_mutation_during_registration() {
    let registration =
        ExtensionRegistration::new().action("test.render", RegistrationAction::new());
    let mut config = TestHostConfig::with_registration(registration);
    config.startup.mutate_on_register = true;

    let result = install_trusting(
        Vec::new(),
        manifest("mutating", ExtensionRuntime::StdioJsonl),
        config.registration,
        b"#!/bin/sh\nexit 42\n",
    );

    assert!(matches!(result, Err(SpindleError::ExtensionTrustChanged { .. })));
}

#[test]
fn runtime_trust_sha256_file_hashes_large_file_without_reading_all_at_once() {
    let bytes = (0..(2 * 1024 * 1024))
        .map(|index| u8::try_from(index % 251).unwrap_or_default())
        .collect::<Vec<_>>();
    let digest = sha2::Sha256::digest(&bytes);
    let mut expected = String::with_capacity(digest.len() * 2);
    for byte in digest {
        expected.push_str(&format!("{byte:02x}"));
    }

    assert_eq!(sha256_file(&bytes), expected);
}

#[test]
fn sha256_of_nothing_is_known() {
    assert_eq!(
        sha256_file(b""),
        "e3b0c44298fc1c149afbf4c8996fb92427ae41e4649b934ca495991b7852b855"
    );
}

#[test]
fn static_registration_records_runtime_trust_metadata() {
    let registered = install(Vec::new(), static_manifest("static", &["static.action"], &[], &[], &[]))
        .unwrap()
        .registered;

    assert!(registered.runtime_trust.is_some());
}

#[test]
fn runtime_trust_changed_trusted_entrypoint_is_rejected_before_spawn() {
    let registration =
        ExtensionRegistration::new().action("test.render", RegistrationAction::new());
    let registered = install_trusting(
        Vec::new(),
        manifest("trusted", ExtensionRuntime::StdioJsonl),
        registration,
        HOST,
    )
    .unwrap()
    .registered;

    let result = verify_runtime_trust(&registered, &sha256_file(b"#!/bin/sh\nexit 42\n"));

    assert!(matches!(result, Err(SpindleError::ExtensionTrustChanged { .. })));
    assert_eq!(verify_runtime_trust(&registered, &sha256_file(HOST)), Ok(()));
}

fn clock() -> ExtensionManifest {
    ExtensionManifest {
        emits: texts(&["clock.tick"]),
        routes: vec![route("clock.tick", None, "sketchybar.message.send", &[])],
        ..manifest("clock", ExtensionRuntime::Recipe)
    }
}

#[test]
fn bootstrap_install_order_does_not_require_provider_first() {
    let sketchybar = static_manifest("sketchybar", &["sketchybar.message.send"], &[], &[], &[]);

    let entries = install(Vec::new(), clock()).unwrap().entries;
    let entries = install(entries, sketchybar).unwrap().entries;

    assert_eq!(entries.len(), 2);
    assert_eq!(validate_installed_registry(Ok(entries)), Ok(()));
}

#[test]
fn incomplete_bootstrap_fails_installed_registry_validation() {
    let entries = install(Vec::new(), clock()).unwrap().entries;

    let result = validate_installed_registry(Ok(entries));

    let Err(SpindleError::RegistryValidationFailed { messages }) = result else {
        panic!("expected registry validation to fail");
    };
    assert_eq!(messages.len(), 1);
    assert!(messages[0].starts_with("clock:"));
    assert!(messages[0].contains("sketchybar.message.send"));
}

#[test]
fn a_route_without_its_provider_fails_validation() {
    let entries = install(Vec::new(), clock()).unwrap().entries;

    let result = validate_installed_registry(Ok(entries));

    assert!(matches!(result, Err(SpindleError::RegistryValidationFailed { .. })));
}

#[test]
fn an_unreadable_registry_fails_validation() {
    let error = SpindleError::Json { message: String::from("expected value") };
    assert_eq!(
        validate_installed_registry(Err(error)),
        Err(SpindleError::Json { message: String::from("expected value") })
    );
}

#[test]
fn resolve_source_package_rejects_missing_path() {
    let facts = SourceFacts { exists: false, is_dir: false, has_manifest: false };
    let result = resolve_source_package("/nonexistent/spindle-package", facts);

    assert!(matches!(
        result,
        Err(SpindleError::InvalidField { field: "package", reason: "path does not exist" })
    ));
}

#[test]
fn resolve_source_package_rejects_non_directory() {
    let facts = SourceFacts { exists: true, is_dir: false, has_manifest: false };
    let result = resolve_source_package("/packages/host", facts);

    assert!(matches!(
        result,
        Err(SpindleError::InvalidField { field: "package", reason: "input must be a directory" })
    ));
}

#[test]
fn resolve_source_package_rejects_manifest_file_path() {
    let facts = SourceFacts { exists: true, is_dir: false, has_manifest: false };
    let result = resolve_source_package("/packages/extension.json", facts);

    assert!(matches!(
        result,
        Err(SpindleError::InvalidField { field: "package", reason: "input must be a directory" })
    ));
}

#[test]
fn resolve_source_package_finds_the_manifest() {
    let facts = SourceFacts { exists: true, is_dir: true, has_manifest: true };
    assert_eq!(
        resolve_source_package("/packages/clock", facts),
        Ok((String::from("/packages/clock"), String::from("/packages/clock/extension.json")))
    );

    let facts = SourceFacts { exists: true, is_dir: true, has_manifest: false };
    assert_eq!(
        resolve_source_package("/packages/clock", facts),
        Err(SpindleError::InvalidField {
            field: "package",
            reason: "extension package must contain extension.json",
        })
    );
}

#[test]
fn an_empty_static_surface_is_not_recorded() {
    let result = install(Vec::new(), manifest("empty-surface", ExtensionRuntime::StdioJsonl));

    assert!(matches!(
        result,
        Err(SpindleError::RuntimeTrustRequired { extension }) if extension == "empty-surface"
    ));
}

#[test]
fn install_requires_bin_matching_extension_id() {
    let manifest = static_manifest("missing-bin", &["missing.action"], &[], &[], &[]);
    let plan = plan_staging(STATE_DIR, "/packages/missing-bin", &manifest);
    let executable = plan.executable.unwrap();
    assert_eq!(executable.from, "/packages/missing-bin/bin/missing-bin");

    let result = ensure_entrypoint_ready("missing-bin", &executable.from, false, 0);

    assert!(matches!(
        result,
        Err(SpindleError::EntrypointNotFound { extension, .. }) if extension == "missing-bin"
    ));
}

#[test]
fn entrypoints_must_be_executable() {
    assert!(matches!(
        ensure_entrypoint_ready("host", "/packages/host/bin/host", true, 0o644),
        Err(SpindleError::EntrypointNotExecutable { extension, .. }) if extension == "host"
    ));
    assert_eq!(ensure_entrypoint_ready("host", "/packages/host/bin/host", true, 0o755), Ok(()));
}

#[test]
fn install_stages_package_into_state_dir() {
    let manifest = static_manifest("staged", &["staged.action"], &[], &[], &[]);
    let plan = plan_staging(STATE_DIR, "/packages/staged", &manifest);

    let registered = install(Vec::new(), manifest).unwrap().registered;

    assert_eq!(registered.package_root, "/var/spindle/extensions/staged");
    let executable = plan.executable.unwrap();
    assert_eq!(executable.to, "/var/spindle/extensions/staged/bin/staged");
    assert_eq!(plan.configuration.unwrap().to, "/var/spindle/extensions/staged/bin/staged.json");
    assert_eq!(plan.manifest, "/var/spindle/extensions/staged/extension.json");
    assert!(registered.runtime_trust.is_some());
}

fn assert_surface_conflict(
    result: Result<Installation, SpindleError>,
    expected_surface: &'static str,
    expected_name: &str,
    expected_existing_extension: &str,
    expected_new_extension: &str,
) {
    let Err(SpindleError::SurfaceConflict { surface, name, existing_extension, new_extension }) =
        result
    else {
        panic!("conflict was not rejected");
    };

    assert_eq!(surface, expected_surface);
    assert_eq!(name, expected_name);
    assert_eq!(existing_extension, expected_existing_extension);
    assert_eq!(new_extension, expected_new_extension);
}

#[test]
fn surface_registry_rejects_action_surface_conflicts() {
    let first = static_manifest("first", &["shared.action"], &[], &[], &[]);
    let second = static_manifest("second", &["shared.action"], &[], &[], &[]);

    let entries = install(Vec::new(), first).unwrap().entries;
    let result = install(entries, second);

    assert_surface_conflict(result, "action", "shared.action", "first", "second");
}

#[test]
fn surface_registry_rejects_event_surface_conflicts() {
    let first = static_manifest("first", &[], &["shared.changed"], &[], &[]);
    let second = static_manifest("second", &[], &["shared.changed"], &[], &[]);

    let entries = install(Vec::new(), first).unwrap().entries;
    let result = install(entries, second);

    assert_surface_conflict(result, "event", "shared.changed", "first", "second");
}

#[test]
fn surface_conflict_detects_emit_produce_overlap() {
    let first = static_manifest("first", &[], &["shared.changed"], &[], &[]);
    let second = static_manifest("second", &[], &[], &["shared.changed"], &[]);

    let entries = install(Vec::new(), first).unwrap().entries;
    let result = install(entries, second);

    assert_surface_conflict(result, "event", "shared.changed", "first", "second");
}

#[test]
fn surface_conflict_detects_produce_produce_overlap() {
    let first = static_manifest("first", &[], &[], &["shared.changed"], &[]);
    let second = static_manifest("second", &[], &[], &["shared.changed"], &[]);

    let entries = install(Vec::new(), first).unwrap().entries;
    let result = install(entries, second);

    assert_surface_conflict(result, "event", "shared.changed", "first", "second");
}

#[test]
fn surface_registry_rejects_capability_surface_conflicts() {
    let first = static_manifest("first", &[], &[], &[], &["shared.write"]);
    let second = static_manifest("second", &[], &[], &[], &["shared.write"]);

    let entries = install(Vec::new(), first).unwrap().entries;
    let result = install(entries, second);

    assert_surface_conflict(result, "capability", "shared.write", "first", "second");
}

#[test]
fn registry_allows_consumer_action_capabilities_from_provider() {
    let provider = ExtensionManifest {
        capabilities: texts(&["aerospace.state.read"]),
        ..manifest("aerospace", ExtensionRuntime::Recipe)
    };
    let consumer = ExtensionManifest {
        actions: actions(&[(
            "workspace-indicator.render",
            &["aerospace.state.read", "aerospace.window.control", "sketchybar.ui.write"],
        )]),
        ..manifest("workspace-indicator", ExtensionRuntime::StdioJsonl)
    };

    let entries = install(Vec::new(), provider).unwrap().entries;
    let entries = install(entries, consumer).unwrap().entries;

    assert_eq!(entries.len(), 2);
}

#[test]
fn the_registry_lives_in_the_state_directory() {
    let registry = ExtensionRegistry::in_dir("/var/spindle");
    assert_eq!(registry.path(), "/var/spindle/extensions.json");
    assert_eq!(registry.state_dir(), "/var/spindle");
    assert_eq!(
        spindle::temporary_registry_path(registry.path(), 42, 7),
        "/var/spindle/extensions.json.42.7.tmp"
    );
}
