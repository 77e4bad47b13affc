//! Dispatch, continuations, requests, and the rules for routes.
use spindle::{
    action_output_event_to_event, continuation_emit, dispatch_answer,
    ensure_continuation_emit_allowed, ensure_produced_event, execute_request,
    execute_request_with_continuations, merge_args, plan_request, request_needs_time,
    validate_extension_routes, validate_registry, ActionOutput, ActionOutputEvent, CapabilityList, CapabilityPolicy, ContinuationGrantRequest, ContinuationStore,
    DispatchReport, DispatchStep, Dispatcher, Event, ExtensionAction, ExtensionRoute,
    ExtensionRuntime, ExtensionVisibleContext, HubRequest, Json, NameMap, PlannedAction,
    RegisteredExtension, RequestPlan, SpindleError, MAX_DISPATCH_DEPTH,
};

fn object(members: Vec<(&str, Json)>) -> Json {
    let mut map = NameMap::new();
    for (name, value) in members {
        map.insert(name.to_owned(), value);
    }
    Json::Object(map)
}

fn text(value: &str) -> Json {
    Json::Text(value.to_owned())
}

fn texts(values: &[&str]) -> Vec<String> {
    values.iter().map(|value| String::from(*value)).collect()
}

fn action(capabilities: &[&str]) -> ExtensionAction {
    ExtensionAction { capabilities: texts(capabilities) }
}

fn route(event: &str, source: Option<&str>, action: &str, capabilities: &[&str]) -> ExtensionRoute {
    ExtensionRoute {
        event: String::from(event),
        source: source.map(String::from),
        action: String::from(action),
        capabilities: texts(capabilities),
        args: object(vec![]),
    }
}

fn registered_extension(
    id: &str,
    emits: &[&str],
    produces: &[&str],
    actions: &[(&str, ExtensionAction)],
    routes: &[ExtensionRoute],
) -> RegisteredExtension {
    let mut map = NameMap::new();
    for (name, definition) in actions {
        map.insert(String::from(*name), definition.clone());
    }
    RegisteredExtension {
        id: String::from(id),
        version: String::from("0.1.0"),
        package_root: format!("/tmp/{id}"),
        runtime: ExtensionRuntime::StdioJsonl,
        capabilities: Vec::new(),
        emits: texts(emits),
        produces: texts(produces),
        actions: map,
        routes: routes.to_vec(),
        runtime_trust: None,
    }
}

fn recipe(id: &str, routes: &[ExtensionRoute]) -> RegisteredExtension {
    RegisteredExtension {
        runtime: ExtensionRuntime::Recipe,
        ..registered_extension(id, &[], &[], &[], routes)
    }
}

fn event(kind: &str, source: &str, data: Json) -> Event {
    Event::builder(String::from(kind), String::from(source))
        .data(data)
        .build_with(String::from("event-1"), 1)
        .unwrap()
}

struct Script {
    invoked: Vec<PlannedAction>,
    stored: Vec<Event>,
}

/// Runs a dispatch with a table of what each action returns.
fn run(
    dispatcher: &Dispatcher,
    mut run: spindle::DispatchRun,
    answers: &[(&str, Vec<ActionOutputEvent>)],
) -> (Result<Vec<DispatchReport>, SpindleError>, Script) {
    let mut script = Script { invoked: Vec::new(), stored: Vec::new() };
    loop {
        match dispatcher.advance(&mut run, 2) {
            Err(error) => return (Err(error), script),
            Ok(DispatchStep::Continue) => {}
            Ok(DispatchStep::Finished) => return (Ok(run.reports), script),
            Ok(DispatchStep::Produced { event, store }) => {
                if store {
                    script.stored.push(event);
                }
            }
            Ok(DispatchStep::Invoke { planned }) => {
                let events = answers
                    .iter()
                    .find(|(name, _)| *name == planned.invocation.action)
                    .map(|(_, events)| events.iter().map(Clone::clone).collect())
                    .unwrap_or_default();
                script.invoked.push(PlannedAction {
                    extension: planned.extension.clone(),
                    invocation: planned.invocation.clone(),
                    continuation: None,
                    depth: planned.depth,
                });
                run.resume(planned, ActionOutput::events(events));
            }
        }
    }
}

fn report(action: &str, extension: &str) -> DispatchReport {
    DispatchReport { action: String::from(action), extension: String::from(extension) }
}

#[test]
fn route_args_override_event_data() {
    let merged = merge_args(
        &object(vec![("item", text("event")), ("workspace", text("2"))]),
        &object(vec![("item", text("route"))]),
    );

    assert_eq!(merged, object(vec![("item", text("route")), ("workspace", text("2"))]));
}

#[test]
fn arguments_that_are_no_objects_count_as_empty() {
    assert_eq!(merge_args(&Json::Null, &text("x")), object(vec![]));
    assert_eq!(
        merge_args(&Json::Null, &object(vec![("a", text("b"))])),
        object(vec![("a", text("b"))])
    );
}

#[test]
fn empty_action_output_does_not_emit_events() {
    assert!(ActionOutput::empty().emitted_events().is_empty());
}

#[test]
fn action_output_becomes_events() {
    let data = object(vec![
        ("active", text("2")),
        ("occupied", Json::Array(vec![text("1"), text("2")])),
    ]);
    let output = ActionOutput::event(
        ActionOutputEvent::new("aerospace.workspace.snapshot").with_data(data.clone()),
    );
    let events = output
        .emitted_events()
        .iter()
        .map(|event| action_output_event_to_event(event, "aerospace", String::from("event-1"), 1))
        .collect::<Result<Vec<_>, _>>()
        .unwrap();

    assert_eq!(events.len(), 1);
    assert_eq!(events[0].kind, "aerospace.workspace.snapshot");
    assert_eq!(events[0].source, "aerospace");
    assert_eq!(events[0].data, data);
}

#[test]
fn extension_context_lists_provided_events_without_route_subscriptions() {
    let provider = RegisteredExtension {
        capabilities: texts(&["aerospace.state.read"]),
        ..registered_extension(
            "aerospace",
            &["aerospace.workspace.changed"],
            &["aerospace.workspace.snapshot"],
            &[("aerospace.workspace.snapshot", action(&["aerospace.state.read"]))],
            &[],
        )
    };
    let workflow = registered_extension(
        "workspace-indicator",
        &[],
        &["workspace-indicator.sketchybar.message.requested"],
        &[],
        &[route(
            "aerospace.route.only",
            Some("aerospace"),
            "workspace-indicator.workspaces.render",
            &[],
        )],
    );

    let visible_context =
        ExtensionVisibleContext::from_extensions(&[provider, workflow.clone()]);
    let context = visible_context.context_for(&workflow.id);

    assert_eq!(context.id, "workspace-indicator");
    assert!(context.events.iter().any(|event| event.kind == "aerospace.workspace.changed"));
    assert!(context.events.iter().any(|event| event.kind == "aerospace.workspace.snapshot"));
    assert!(!context.events.iter().any(|event| event.kind == "aerospace.route.only"));
    assert!(context.actions.iter().any(|action| action.name == "aerospace.workspace.snapshot"));
    assert_eq!(context.capabilities, texts(&["aerospace.state.read"]));
}

#[test]
fn the_visible_surface_is_in_order_and_leaves_out_recipes() {
    let beta = registered_extension("beta", &["z.changed", "a.changed"], &[], &[
        ("z.act", action(&[])),
        ("b.act", action(&["k"])),
    ], &[]);
    let alpha = registered_extension("alpha", &["a.changed"], &[], &[("m.act", action(&[]))], &[]);
    let mut silent = recipe("silent", &[]);
    silent.actions.insert(String::from("never.act"), action(&[]));

    let context =
        ExtensionVisibleContext::from_extensions(&[beta, alpha, silent]).context_for("beta");

    let events: Vec<(&str, &str)> = context
        .events
        .iter()
        .map(|event| (event.kind.as_str(), event.source_extension.as_str()))
        .collect();
    assert_eq!(events, vec![("a.changed", "alpha"), ("a.changed", "beta"), ("z.changed", "beta")]);
    let names: Vec<&str> = context.actions.iter().map(|action| action.name.as_str()).collect();
    assert_eq!(names, vec!["b.act", "m.act", "z.act"]);
}

#[test]
fn dispatch_action_reports_missing_action() {
    let dispatcher = Dispatcher::new(Vec::new());
    let started = dispatcher.dispatch_action("missing.action", &object(vec![]), &[]);

    let (result, _) = run(&dispatcher, started, &[]);

    assert!(matches!(result, Err(SpindleError::ActionNotInstalled { .. })));
}

#[test]
fn dispatch_follows_produced_events_first() {
    let host = registered_extension(
        "test-host",
        &[],
        &["test.followup", "test.other"],
        &[
            ("test.start", action(&["test.write"])),
            ("test.second", action(&[])),
            ("test.finish", action(&["test.write"])),
        ],
        &[],
    );
    let workflow = recipe(
        "test-recipe",
        &[
            route("test.initial", Some("unit"), "test.start", &["test.write"]),
            route("test.initial", None, "test.second", &[]),
            route("test.initial", Some("elsewhere"), "test.second", &[]),
            route("test.followup", Some("test-host"), "test.finish", &["test.write"]),
        ],
    );
    let dispatcher = Dispatcher::with_log(vec![host, workflow]);
    let started = dispatcher.dispatch_event(&event("test.initial", "unit", object(vec![])));

    let (result, script) = run(
        &dispatcher,
        started,
        &[(
            "test.start",
            vec![ActionOutputEvent::new("test.followup"), ActionOutputEvent::new("test.other")],
        )],
    );

    assert_eq!(
        result,
        Ok(vec![
            report("test.start", "test-host"),
            report("test.finish", "test-host"),
            report("test.second", "test-host"),
        ])
    );
    let stored: Vec<(&str, &str)> = script
        .stored
        .iter()
        .map(|event| (event.kind.as_str(), event.source.as_str()))
        .collect();
    assert_eq!(stored, vec![("test.followup", "test-host"), ("test.other", "test-host")]);
    let depths: Vec<usize> = script.invoked.iter().map(|planned| planned.depth).collect();
    assert_eq!(depths, vec![0, 1, 0]);
    assert_eq!(
        script.invoked[1].invocation.event.as_ref().map(|event| event.kind.as_str()),
        Some("test.followup")
    );
}

#[test]
fn endless_dispatch_is_cut_off() {
    let looping = registered_extension(
        "loop",
        &[],
        &["loop.again"],
        &[("loop.act", action(&[]))],
        &[route("loop.again", None, "loop.act", &[])],
    );
    let dispatcher = Dispatcher::new(vec![looping]);
    let started = dispatcher.dispatch_event(&event("loop.again", "unit", object(vec![])));

    let (result, script) =
        run(&dispatcher, started, &[("loop.act", vec![ActionOutputEvent::new("loop.again")])]);

    assert_eq!(result, Err(SpindleError::DispatchDepthExceeded));
    assert_eq!(script.invoked.len(), MAX_DISPATCH_DEPTH + 1);
    assert!(script.stored.is_empty());
}

#[test]
fn undeclared_events_stop_a_dispatch() {
    let host = registered_extension("host", &[], &[], &[("host.act", action(&[]))], &[]);
    assert_eq!(
        ensure_produced_event(&host, "host.act", "host.secret"),
        Err(SpindleError::UndeclaredProducedEvent {
            extension: String::from("host"),
            action: String::from("host.act"),
            kind: String::from("host.secret"),
        })
    );
    let dispatcher = Dispatcher::with_log(vec![host]);
    let started = dispatcher.dispatch_action("host.act", &object(vec![]), &[]);

    let (result, script) =
        run(&dispatcher, started, &[("host.act", vec![ActionOutputEvent::new("host.secret")])]);

    assert!(matches!(result, Err(SpindleError::UndeclaredProducedEvent { .. })));
    assert!(script.stored.is_empty());
}

#[test]
fn the_last_extension_that_runs_handles_an_action() {
    let first = registered_extension("first", &[], &[], &[("shared.act", action(&[]))], &[]);
    let second = registered_extension("second", &[], &[], &[("shared.act", action(&[]))], &[]);
    let mut third = recipe("third", &[]);
    third.actions.insert(String::from("shared.act"), action(&[]));
    let dispatcher = Dispatcher::new(vec![first, second, third]);
    let started = dispatcher.dispatch_action("shared.act", &object(vec![]), &[]);

    let (result, _) = run(&dispatcher, started, &[]);

    assert_eq!(result, Ok(vec![report("shared.act", "second")]));
}

#[test]
fn routes_hand_merged_arguments_to_actions() {
    let host = registered_extension("host", &["host.changed"], &[], &[("host.act", action(&[]))], &[
        ExtensionRoute {
            args: object(vec![("item", text("route"))]),
            ..route("host.changed", None, "host.act", &[])
        },
    ]);
    let dispatcher = Dispatcher::new(vec![host]);
    let data = object(vec![("item", text("event")), ("workspace", text("2"))]);
    let started = dispatcher.dispatch_event(&event("host.changed", "unit", data));

    let (_, script) = run(&dispatcher, started, &[]);

    assert_eq!(
        script.invoked[0].invocation.args,
        object(vec![("item", text("route")), ("workspace", text("2"))])
    );
}

fn grant_request(extension: &str, capabilities: &[&str], ttl_ms: u64) -> ContinuationGrantRequest {
    ContinuationGrantRequest {
        extension: String::from(extension),
        action: String::from("workflow.schedule"),
        capabilities: texts(capabilities),
        socket: String::from("/tmp/spindle.sock"),
        ttl_ms,
    }
}

#[test]
fn handles_carry_what_was_granted_and_required() {
    let host = registered_extension("host", &["host.changed"], &[], &[
        ("host.act", action(&["host.read"])),
    ], &[route("host.changed", Some("host"), "host.act", &["host.write", "host.read"])]);
    let dispatcher = Dispatcher::new(vec![host])
        .with_continuation_config(Some(String::from("/tmp/spindle.sock")));
    let mut started = dispatcher.dispatch_event(&event("host.changed", "host", object(vec![])));
    assert!(!started.builds_event());
    assert_eq!(dispatcher.advance(&mut started, 1), Ok(DispatchStep::Continue));
    let Ok(DispatchStep::Invoke { planned }) = dispatcher.advance(&mut started, 1) else {
        panic!("expected an action");
    };
    let request = planned.continuation.as_ref().unwrap();
    assert_eq!(request.capabilities, texts(&["host.read"]));

    let mut store = ContinuationStore::default();
    let invocation = planned.invocation_with_handle(&mut store, 1_000).unwrap();
    let handle = invocation.continuation.unwrap();

    assert_eq!(handle.socket, "/tmp/spindle.sock");
    assert_eq!(handle.expires_unix_ms, 31_000);
    let grant = store.validate(&handle.id, 30_999).unwrap();
    assert_eq!(grant.extension, "host");
    assert_eq!(grant.action, "host.act");
    assert_eq!(grant.capabilities, texts(&["host.read"]));
    assert_eq!(store.validate(&handle.id, 30_999), Err(SpindleError::ContinuationInvalid));
}

#[test]
fn only_declared_outputs_build_events() {
    let host = registered_extension("host", &[], &["host.done"], &[
        ("host.act", action(&[])),
    ], &[]);
    let dispatcher = Dispatcher::new(vec![host]);
    for (kind, declared) in [("host.done", true), ("host.other", false)] {
        let mut run = dispatcher.dispatch_action("host.act", &object(vec![]), &[]);
        assert!(!run.builds_event());
        let Ok(DispatchStep::Invoke { planned }) = dispatcher.advance(&mut run, 1) else {
            panic!("expected an action");
        };
        run.resume(planned, ActionOutput::event(ActionOutputEvent::new(kind)));
        assert_eq!(run.builds_event(), declared);
        assert_eq!(dispatcher.advance(&mut run, 1).is_ok(), declared);
    }
}

#[test]
fn handles_expire_and_expired_ones_are_dropped() {
    let mut store = ContinuationStore::default();
    let short = store.create_with_lifetime(&grant_request("a", &[], 10), 100).unwrap();
    let other = store.create_with_lifetime(&grant_request("b", &[], 10), 100).unwrap();
    let long = store.create_with_lifetime(&grant_request("c", &[], 1_000), 100).unwrap();

    assert_eq!(store.validate(&short.id, 110), Err(SpindleError::ContinuationExpired));
    assert_eq!(store.validate(&other.id, 110), Err(SpindleError::ContinuationInvalid));
    assert_eq!(store.validate(&long.id, 110).map(|grant| grant.extension), Ok(String::from("c")));
}

#[test]
fn malformed_handles_are_refused_and_change_nothing() {
    let mut store = ContinuationStore::default();
    let handle = store.create("a", "a.act", &[], "/tmp/spindle.sock", 100).unwrap();

    assert!(matches!(
        store.validate("not a handle", 50_000),
        Err(SpindleError::InvalidField { field: "continuation", .. })
    ));
    assert_eq!(store.validate("unknown", 100), Err(SpindleError::ContinuationInvalid));
    assert!(store.validate(&handle.id, 100).is_ok());
    assert!(matches!(
        store.create_with_lifetime(&grant_request("a", &[], u64::MAX), 100),
        Err(SpindleError::InvalidField { field: "time_unix_ms", .. })
    ));
}

#[test]
fn handles_have_distinct_identifiers() {
    let mut store = ContinuationStore::default();
    let first = store.create("a", "a.act", &[], "/tmp/spindle.sock", 100).unwrap();
    let second = store.create("a", "a.act", &[], "/tmp/spindle.sock", 100).unwrap();
    assert_ne!(first.id, second.id);
    assert_eq!(first.id.len(), 36);
}

fn invoke(kind: &str) -> HubRequest {
    HubRequest::Invoke {
        action: String::from(kind),
        source: String::from("unit"),
        args: object(vec![]),
    }
}

#[test]
fn execute_emit_appends_event_without_policy() {
    let plan = execute_request(
        HubRequest::Emit {
            kind: String::from("agent.status.changed"),
            source: String::from("codex-hook"),
            subject: None,
            data: object(vec![("state", text("testing"))]),
        },
        7,
    );

    match plan {
        Ok(RequestPlan::Emit { event }) => {
            assert_eq!(event.kind, "agent.status.changed");
            assert_eq!(event.source, "codex-hook");
            assert_eq!(event.time_unix_ms, 7);
            assert_eq!(event.data, object(vec![("state", text("testing"))]));
            let dispatcher = Dispatcher::with_log(Vec::new());
            let started = dispatcher.dispatch_event(&event);
            assert_eq!(run(&dispatcher, started, &[]).0, Ok(Vec::new()));
        }
        other => panic!("unexpected plan: {other:?}"),
    }
}

#[test]
fn events_of_requests_are_checked() {
    let request = HubRequest::Emit {
        kind: String::from("no spaces"),
        source: String::from("unit"),
        subject: None,
        data: object(vec![]),
    };
    assert!(matches!(
        execute_request(request, 1),
        Err(SpindleError::InvalidField { field: "type", .. })
    ));
    let request = HubRequest::Emit {
        kind: String::from("unit.changed"),
        source: String::from("unit"),
        subject: Some(String::from(" ")),
        data: object(vec![]),
    };
    assert!(matches!(
        execute_request(request, 1),
        Err(SpindleError::InvalidField { field: "subject", .. })
    ));
    let request = HubRequest::Emit {
        kind: String::from("unit.changed"),
        source: String::from("unit"),
        subject: None,
        data: Json::Null,
    };
    assert_eq!(
        execute_request(request, 1),
        Err(SpindleError::InvalidField { field: "data", reason: "must be a JSON object" })
    );
}

#[test]
fn direct_invoke_rejects_capability_requiring_action_without_continuation() {
    let host = registered_extension("policy-host", &[], &[], &[
        ("test.render", action(&["test.write"])),
        ("test.clear", action(&[])),
    ], &[]);
    let dispatcher = Dispatcher::with_log(vec![host]);

    let Ok(RequestPlan::Invoke { event, action, args, capabilities }) =
        execute_request(invoke("test.render"), 1)
    else {
        panic!("expected an action");
    };
    assert_eq!(event.kind, "action.requested");
    assert_eq!(event.source, "unit");
    assert!(capabilities.is_empty());
    let started = dispatcher.dispatch_action(&action, &args, &capabilities);
    assert_eq!(
        run(&dispatcher, started, &[]).0,
        Err(SpindleError::MissingActionCapability {
            action: String::from("test.render"),
            capability: String::from("test.write"),
        })
    );

    let started = dispatcher.dispatch_action("test.clear", &args, &capabilities);
    assert_eq!(
        run(&dispatcher, started, &[]).0,
        Ok(vec![report("test.clear", "policy-host")])
    );
}

fn read_write_host() -> RegisteredExtension {
    registered_extension("test-host", &[], &[], &[
        ("test.read", action(&["test.read"])),
        ("test.write", action(&["test.write"])),
    ], &[])
}

#[test]
fn continuation_invoke_uses_original_capability_grant() {
    let dispatcher = Dispatcher::with_log(vec![read_write_host()]);
    let mut store = ContinuationStore::default();
    let handle = store
        .create("workflow", "workflow.schedule", &texts(&["test.read"]), "/tmp/spindle.sock", 1)
        .unwrap();

    let plan = execute_request_with_continuations(
        HubRequest::ContinuationInvoke {
            continuation: handle.id.clone(),
            action: String::from("test.read"),
            args: object(vec![]),
        },
        &mut store,
        2,
    );

    let Ok(RequestPlan::Invoke { event, action, args, capabilities }) = plan else {
        panic!("expected an action");
    };
    assert_eq!(event.source, "workflow:continuation");
    let Json::Object(data) = &event.data else { panic!("expected an object") };
    assert_eq!(
        data.get("continuation"),
        Some(&object(vec![
            ("action", text("workflow.schedule")),
            ("extension", text("workflow")),
            ("id", text(&handle.id)),
        ]))
    );
    assert_eq!(data.get("capabilities"), Some(&Json::Array(vec![text("test.read")])));
    let started = dispatcher.dispatch_action(&action, &args, &capabilities);
    assert_eq!(run(&dispatcher, started, &[]).0, Ok(vec![report("test.read", "test-host")]));
}

#[test]
fn continuation_invoke_rejects_ungranted_capability() {
    let dispatcher = Dispatcher::with_log(vec![read_write_host()]);
    let mut store = ContinuationStore::default();
    let handle = store
        .create("workflow", "workflow.schedule", &texts(&["test.read"]), "/tmp/spindle.sock", 1)
        .unwrap();

    let plan = execute_request_with_continuations(
        HubRequest::ContinuationInvoke {
            continuation: handle.id,
            action: String::from("test.write"),
            args: object(vec![]),
        },
        &mut store,
        2,
    );

    let Ok(RequestPlan::Invoke { action, args, capabilities, .. }) = plan else {
        panic!("expected an action");
    };
    let started = dispatcher.dispatch_action(&action, &args, &capabilities);
    assert!(matches!(
        run(&dispatcher, started, &[]).0,
        Err(SpindleError::MissingActionCapability { .. })
    ));
}

#[test]
fn expired_continuation_fails_closed() {
    let mut store = ContinuationStore::default();
    let handle = store
        .create_with_lifetime(&grant_request("workflow", &["test.read"], 0), 5)
        .unwrap();

    let denied = execute_request_with_continuations(
        HubRequest::ContinuationInvoke {
            continuation: handle.id,
            action: String::from("test.read"),
            args: object(vec![]),
        },
        &mut store,
        5,
    );

    assert_eq!(denied, Err(SpindleError::ContinuationExpired));
}

#[test]
fn deferred_requests_need_handles_to_be_handed_out() {
    let request = HubRequest::ContinuationInvoke {
        continuation: String::from("handle"),
        action: String::from("test.read"),
        args: object(vec![]),
    };
    assert_eq!(execute_request(request, 1), Err(SpindleError::ContinuationInvalid));
    let request = HubRequest::ContinuationEmit {
        continuation: String::from("handle"),
        kind: String::from("test.changed"),
        subject: None,
        data: object(vec![]),
    };
    assert_eq!(execute_request(request, 1), Err(SpindleError::ContinuationInvalid));
}

#[test]
fn deferred_events_come_from_their_extension() {
    let extensions =
        vec![registered_extension("workflow", &[], &["workflow.done"], &[], &[])];
    let mut store = ContinuationStore::default();
    let handle =
        store.create("workflow", "workflow.schedule", &[], "/tmp/spindle.sock", 1).unwrap();
    let plan = execute_request_with_continuations(
        HubRequest::ContinuationEmit {
            continuation: handle.id,
            kind: String::from("workflow.done"),
            subject: Some(String::from("item-1")),
            data: object(vec![]),
        },
        &mut store,
        2,
    );
    let Ok(RequestPlan::EmitFor { grant, kind, subject, data }) = plan else {
        panic!("expected an event");
    };
    match continuation_emit(&extensions, grant, kind, subject, data, 3) {
        Ok(RequestPlan::Emit { event }) => {
            assert_eq!(event.kind, "workflow.done");
            assert_eq!(event.source, "workflow");
            assert_eq!(event.subject, Some(String::from("item-1")));
        }
        other => panic!("unexpected plan: {other:?}"),
    }
    assert!(matches!(
        ensure_continuation_emit_allowed(&extensions, "workflow", "workflow.secret"),
        Err(SpindleError::UndeclaredProducedEvent { action, .. }) if action == "continuation.emit"
    ));
    assert_eq!(
        ensure_continuation_emit_allowed(&extensions, "gone", "workflow.done"),
        Err(SpindleError::ContinuationInvalid)
    );
}

#[test]
fn other_requests_are_planned_as_they_are() {
    let id = String::from("event-1");
    assert_eq!(
        plan_request(
            HubRequest::QueryEvents {
                kind: Some(String::from("a.changed")),
                source: None,
                limit: Some(5),
            },
            id.clone(),
            1,
        ),
        Ok(RequestPlan::Query {
            filter: spindle::EventFilter {
                kind: Some(String::from("a.changed")),
                source: None,
                limit: Some(5),
            },
        })
    );
    assert_eq!(
        plan_request(
            HubRequest::ValidateExtension { manifest: String::from("/m.json") },
            id.clone(),
            1,
        ),
        Ok(RequestPlan::Validate { manifest: String::from("/m.json") })
    );
    assert_eq!(
        plan_request(
            HubRequest::InstallExtension { package: String::from("/p"), trust_runtime: true },
            id.clone(),
            1,
        ),
        Ok(RequestPlan::Install { package: String::from("/p"), trust_runtime: true })
    );
    assert_eq!(plan_request(HubRequest::ListExtensions, id, 1), Ok(RequestPlan::List));
}

#[test]
fn validate_extension_routes_rejects_source_less_capability_route() {
    let provider = registered_extension(
        "aerospace",
        &["aerospace.workspace.changed"],
        &[],
        &[("workspace-indicator.render", ExtensionAction::default())],
        &[],
    );
    let consumer = registered_extension(
        "workspace-indicator",
        &[],
        &[],
        &[],
        &[route(
            "aerospace.workspace.changed",
            None,
            "workspace-indicator.render",
            &["aerospace.state.read"],
        )],
    );

    let result = validate_extension_routes(&consumer, &[provider, consumer.clone()]);

    assert!(matches!(result, Err(SpindleError::InvalidField { .. })));
}

#[test]
fn validate_extension_routes_rejects_unknown_source() {
    let provider = registered_extension(
        "aerospace",
        &["aerospace.workspace.changed"],
        &[],
        &[("workspace-indicator.render", ExtensionAction::default())],
        &[],
    );
    let consumer = registered_extension(
        "workspace-indicator",
        &[],
        &[],
        &[],
        &[route(
            "aerospace.workspace.changed",
            Some("nonexistent-extension"),
            "workspace-indicator.render",
            &[],
        )],
    );

    let result = validate_extension_routes(&consumer, &[provider, consumer.clone()]);

    assert!(matches!(result, Err(SpindleError::UnknownRouteSource { .. })));
}

#[test]
fn validate_extension_routes_rejects_unknown_action() {
    let provider = registered_extension(
        "aerospace",
        &["aerospace.workspace.changed"],
        &[],
        &[("workspace-indicator.render", ExtensionAction::default())],
        &[],
    );
    let consumer = registered_extension(
        "workspace-indicator",
        &[],
        &[],
        &[],
        &[route("aerospace.workspace.changed", Some("aerospace"), "nonexistent.action", &[])],
    );

    let result = validate_extension_routes(&consumer, &[provider, consumer.clone()]);

    assert!(matches!(result, Err(SpindleError::UnknownRouteAction { .. })));
}

#[test]
fn validate_extension_routes_rejects_unknown_event() {
    let provider = registered_extension(
        "aerospace",
        &["aerospace.workspace.changed"],
        &[],
        &[("workspace-indicator.render", ExtensionAction::default())],
        &[],
    );
    let consumer = registered_extension(
        "workspace-indicator",
        &[],
        &[],
        &[("workspace-indicator.render", ExtensionAction::default())],
        &[route(
            "workspace-indicator.rendered",
            Some("aerospace"),
            "workspace-indicator.render",
            &[],
        )],
    );

    let result = validate_extension_routes(&consumer, &[provider, consumer.clone()]);

    assert!(matches!(result, Err(SpindleError::UnknownRouteEvent { .. })));
}

#[test]
fn registry_validation_names_every_failing_extension() {
    let first = recipe("first", &[route("a.changed", None, "a.act", &[])]);
    let second = recipe("second", &[route("b.changed", None, "b.act", &[])]);
    let third = recipe("third", &[]);

    let Err(SpindleError::RegistryValidationFailed { messages }) =
        validate_registry(&[first, second, third])
    else {
        panic!("expected registry validation to fail");
    };

    assert_eq!(messages.len(), 2);
    assert!(messages[0].starts_with("first: "));
    assert!(messages[1].starts_with("second: "));
}

#[test]
fn default_policy_denies_route_grants() {
    let policy = CapabilityPolicy::default();

    let result = policy.ensure_route_capabilities(
        "workspace-indicator",
        &[String::from("aerospace.state.read"), String::from("sketchybar.ui.write")],
    );

    assert!(matches!(result, Err(SpindleError::CapabilityGrantDenied { .. })));
}

#[test]
fn default_policy_denies_direct_grants() {
    let policy = CapabilityPolicy::default();
    let result =
        policy.ensure_direct_grants("raycast", &[String::from("aerospace.window.control")]);

    assert!(matches!(result, Err(SpindleError::CapabilityGrantDenied { .. })));
}

#[test]
fn a_policy_allows_what_it_lists() {
    let mut policy = CapabilityPolicy::default();
    policy.routes.insert(
        String::from("workspace-indicator"),
        CapabilityList { names: texts(&["aerospace.state.read"]) },
    );
    policy.direct.insert(String::from("raycast"), CapabilityList { names: texts(&["*"]) });

    assert_eq!(
        policy.ensure_route_capabilities(
            "workspace-indicator",
            &[String::from("aerospace.state.read")],
        ),
        Ok(())
    );
    assert!(matches!(
        policy.ensure_route_capabilities(
            "workspace-indicator",
            &[String::from("sketchybar.ui.write")],
        ),
        Err(SpindleError::CapabilityGrantDenied { .. })
    ));
    assert_eq!(policy.ensure_direct_grants("raycast", &[String::from("anything")]), Ok(()));
    assert_eq!(policy.validate(), Ok(()));
}

#[test]
fn a_policy_is_checked() {
    let mut policy = CapabilityPolicy::default();
    policy
        .routes
        .insert(String::from("a"), CapabilityList { names: texts(&["a.read", "a.read"]) });
    assert_eq!(
        policy.validate(),
        Err(SpindleError::InvalidField {
            field: "routes",
            reason: "must not contain duplicate capabilities",
        })
    );
    let mut policy = CapabilityPolicy::default();
    policy.direct.insert(String::from("a"), CapabilityList { names: texts(&[" "]) });
    assert!(matches!(
        policy.validate(),
        Err(SpindleError::InvalidField { field: "direct", reason: "must not be empty" })
    ));
}

#[test]
fn added_route_grants_are_sorted_and_appended() {
    let workflow = recipe("workflow", &[
        route("a.changed", Some("a"), "a.act", &["z.read", "b.read"]),
        route("b.changed", Some("b"), "b.act", &["a.read"]),
    ]);
    let mut policy = CapabilityPolicy::default();
    policy.routes.insert(String::from("workflow"), CapabilityList { names: texts(&["m.read"]) });

    policy.add_route_grants(&workflow);
    policy.add_route_grants(&workflow);

    assert_eq!(
        policy.routes.get("workflow").map(|list| list.names.clone()),
        Some(texts(&["m.read", "a.read", "b.read", "z.read"]))
    );
    assert_eq!(policy.ensure_route_grants(&workflow), Ok(()));
}

#[test]
fn an_answer_holds_the_event_and_its_dispatches() {
    let event = Json::Text(String::from("recorded"));
    let answer = dispatch_answer(event, vec![Json::Bool(true), Json::Null]);

    assert_eq!(
        answer,
        Json::Object(NameMap {
            entries: vec![
                (String::from("dispatches"), Json::Array(vec![Json::Bool(true), Json::Null])),
                (String::from("event"), Json::Text(String::from("recorded"))),
            ],
        })
    );
}

#[test]
fn only_events_and_handles_need_the_time() {
    assert!(!request_needs_time(&HubRequest::ListExtensions, true));
    assert!(request_needs_time(&invoke("test.render"), false));
    let deferred = HubRequest::ContinuationInvoke {
        continuation: String::from("handle"),
        action: String::from("test.render"),
        args: Json::Null,
    };
    assert!(request_needs_time(&deferred, true));
    assert!(!request_needs_time(&deferred, false));
    let malformed = HubRequest::ContinuationInvoke {
        continuation: String::from("not a name"),
        action: String::from("test.render"),
        args: Json::Null,
    };
    assert!(!request_needs_time(&malformed, true));

    let list = HubRequest::ListExtensions;
    assert_eq!(execute_request(list, 1), execute_request(HubRequest::ListExtensions, 2));
}
