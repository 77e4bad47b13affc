//! The contract between the kernel and extension hosts.
use spindle::{
    route_action, serve_stdio_jsonl, ActionContext, ActionDescriptor, ActionInvocation,
    ActionOutput, ActionOutputEvent, ActionRouterError, ContinuationContext, EventContext,
    EventDescriptor, ExtensionContext, ExtensionRegistration, ExtensionSdkError, HostInput,
    HostRequest, HostResponse, HostStep, Json, JsonNumber, NameMap, RegistrationAction,
    RegistrationRoute,
};

fn object(members: Vec<(&str, Json)>) -> Json {
    let mut map = NameMap::new();
    for (name, value) in members {
        map.insert(name.to_owned(), value);
    }
    Json::Object(map)
}

fn text(value: &str) -> Json {
    Json::Text(value.to_owned())
}

#[test]
fn extension_context_queries_visible_surface() {
    let context = ExtensionContext {
        id: String::from("workspace-indicator"),
        events: vec![EventDescriptor {
            kind: String::from("sketchybar.message.requested"),
            source_extension: String::from("workspace-indicator"),
        }],
        actions: vec![ActionDescriptor {
            name: String::from("sketchybar.message.send"),
            extension: String::from("sketchybar"),
            capabilities: vec![String::from("sketchybar.ui.write")],
        }],
        capabilities: vec![String::from("sketchybar.ui.write")],
    };

    assert!(context.has_event("sketchybar.message.requested"));
    assert!(context.has_action("sketchybar.message.send"));
    assert!(context.has_capability("sketchybar.ui.write"));
    assert!(!context.has_action("aerospace.workspace.focus"));
}

#[test]
fn a_new_extension_context_shows_nothing() {
    let context = ExtensionContext::new("quiet");

    assert_eq!(context.id, "quiet");
    assert!(!context.has_event("quiet.changed"));
    assert!(!context.has_action("quiet.render"));
    assert!(!context.has_capability("quiet.write"));
}

#[test]
fn extension_registration_on_adds_handler_action_and_route() {
    let registration = ExtensionRegistration::new().on(
        "session_start",
        "session-title.on-start",
        RegistrationAction::new(),
    );

    assert!(registration.actions.contains_key("session-title.on-start"));
    assert_eq!(registration.routes[0].event, "session_start");
    assert_eq!(registration.routes[0].action, "session-title.on-start");
}

#[test]
fn extension_registration_on_with_args_adds_handler_route_args() {
    let registration = ExtensionRegistration::new().on_with_args(
        "aerospace.mode.snapshot",
        "workspace-indicator.status.render",
        RegistrationAction::new(),
        object(vec![("item", text("aerospace.mode"))]),
    );

    assert!(registration.actions.contains_key("workspace-indicator.status.render"));
    assert_eq!(registration.routes[0].args, object(vec![("item", text("aerospace.mode"))]));
}

#[test]
fn capless_handler_routes_do_not_copy_capabilities() {
    let action = RegistrationAction::new().capability("session.write");
    let registration =
        ExtensionRegistration::new().on("session_start", "session-title.on-start", action);

    assert!(registration.routes[0].capabilities.is_empty());
    assert!(registration.routes[0].source.is_none());
}

#[test]
fn source_aware_handler_routes_copy_capabilities() {
    let action = RegistrationAction::new().capability("session.write");
    let registration = ExtensionRegistration::new().on_from(
        "host",
        "session_start",
        "session-title.on-start",
        action,
    );
    assert_eq!(registration.routes[0].source, Some(String::from("host")));
    assert_eq!(registration.routes[0].capabilities, vec![String::from("session.write")]);

    let action = RegistrationAction::new().capability("session.write");
    let registration = ExtensionRegistration::new().on_with_args_from(
        ("host", "session_start"),
        "session-title.on-start",
        action,
        object(vec![("item", text("title"))]),
    );
    assert_eq!(registration.routes[0].event, "session_start");
    assert_eq!(registration.routes[0].source, Some(String::from("host")));
    assert_eq!(registration.routes[0].capabilities, vec![String::from("session.write")]);
    assert_eq!(registration.routes[0].args, object(vec![("item", text("title"))]));
}

#[test]
fn capabilities_of_actions_and_routes_are_listed_once() {
    let registration = ExtensionRegistration::new()
        .emit("a.changed")
        .emit("a.changed")
        .produce("b.changed")
        .produce("b.changed")
        .capability("a.read")
        .capability("a.read");
    let action = RegistrationAction::new().capability("a.read").capability("a.read");
    let route = RegistrationRoute::new("a.changed", "a.render")
        .capability("a.read")
        .capability("a.read");

    assert_eq!(registration.emits, vec![String::from("a.changed"); 2]);
    assert_eq!(registration.produces, vec![String::from("b.changed"); 2]);
    assert_eq!(registration.capabilities, vec![String::from("a.read"); 2]);
    assert_eq!(action.capabilities, vec![String::from("a.read")]);
    assert_eq!(route.capabilities, vec![String::from("a.read")]);
}

#[test]
fn action_output_builds_multiple_events() {
    let first = ActionOutputEvent::new("first.changed");
    let second = ActionOutputEvent::new("second.changed");

    let mut output = ActionOutput::events(vec![first]).with_event(second);
    output.push_event(ActionOutputEvent::new("third.changed"));

    assert_eq!(
        output
            .emitted_events()
            .iter()
            .map(|event| event.kind.as_str())
            .collect::<Vec<_>>(),
        vec!["first.changed", "second.changed", "third.changed"]
    );
}

#[test]
fn output_events_carry_subject_and_data() {
    let event = ActionOutputEvent::new("item.changed")
        .with_subject("item-1")
        .with_data(object(vec![("count", Json::Number(JsonNumber::Unsigned(2)))]));

    assert_eq!(event.subject, Some(String::from("item-1")));
    assert_eq!(event.data, object(vec![("count", Json::Number(JsonNumber::Unsigned(2)))]));
}

#[test]
fn stdio_jsonl_host_serves_register_invoke_and_shutdown() {
    let registration =
        ExtensionRegistration::new().action("test.render", RegistrationAction::new());

    let step = serve_stdio_jsonl(
        &registration,
        HostInput::Request { request: HostRequest::Register },
    );
    match step {
        HostStep::Respond { response: HostResponse::Registration { registration: given }, last } => {
            assert_eq!(given, registration);
            assert!(!last);
        }
        other => panic!("unexpected step: {other:?}"),
    }

    let invocation = ActionInvocation::new("test.render", object(vec![("item", text("mode"))]));
    let step = serve_stdio_jsonl(
        &registration,
        HostInput::Request { request: HostRequest::Invoke { invocation } },
    );
    let context = match step {
        HostStep::Handle { context } => context,
        other => panic!("unexpected step: {other:?}"),
    };
    assert_eq!(context.action(), Some("test.render"));
    let output = ActionOutput::event(
        ActionOutputEvent::new("test.rendered").with_data(context.args_value().clone()),
    );
    let step = serve_stdio_jsonl(&registration, HostInput::Handled { outcome: Ok(output) });
    match step {
        HostStep::Respond { response: HostResponse::ActionOutput { output }, last } => {
            assert_eq!(output.emitted_events()[0].data, object(vec![("item", text("mode"))]));
            assert!(!last);
        }
        other => panic!("unexpected step: {other:?}"),
    }

    let step = serve_stdio_jsonl(
        &registration,
        HostInput::Request { request: HostRequest::Shutdown },
    );
    assert_eq!(step, HostStep::Respond { response: HostResponse::Shutdown, last: true });
}

#[test]
fn a_host_skips_blank_lines_and_fails_on_malformed_ones() {
    let registration = ExtensionRegistration::new();

    assert!(spindle::is_blank_line(" \t\n"));
    assert!(!spindle::is_blank_line("{}\n"));
    assert_eq!(serve_stdio_jsonl(&registration, HostInput::Blank), HostStep::Read);
    assert_eq!(serve_stdio_jsonl(&registration, HostInput::End), HostStep::Stop);
    let step = serve_stdio_jsonl(
        &registration,
        HostInput::Malformed { message: String::from("expected value") },
    );
    match step {
        HostStep::Fail { error } => {
            assert_eq!(error.message(), "failed to parse HostRequest: expected value");
        }
        other => panic!("unexpected step: {other:?}"),
    }
    assert_eq!(
        ExtensionSdkError::Io { message: String::from("broken pipe") }.message(),
        "stdio host I/O failed: broken pipe"
    );
    assert_eq!(
        serve_stdio_jsonl(
            &registration,
            HostInput::Handled { outcome: Err(String::from("no such item")) },
        ),
        HostStep::Respond {
            response: HostResponse::Error { error: String::from("no such item") },
            last: false,
        }
    );
}

#[test]
fn actions_go_to_the_first_handler_of_their_name() {
    let names = vec![String::from("a.render"), String::from("b.render"), String::from("b.render")];
    let context = ActionInvocation::new("b.render", object(vec![])).into_context();
    assert_eq!(route_action(&names, &context), Ok(1));

    let context = ActionInvocation::new("c.render", object(vec![])).into_context();
    let error = route_action(&names, &context).unwrap_err();
    assert_eq!(error, ActionRouterError::UnknownAction);
    assert_eq!(error.message(), "unknown action");

    let context = ActionContext {
        action: None,
        args: object(vec![]),
        event: None,
        extension: None,
        continuation: None,
    };
    let error = route_action(&names, &context).unwrap_err();
    assert_eq!(error, ActionRouterError::MissingAction);
    assert_eq!(error.message(), "missing action");
    assert_eq!(
        ActionRouterError::Handler { message: String::from("no such item") }.message(),
        "no such item"
    );
}

#[test]
fn an_invocation_reaches_the_context() {
    let context = ActionContext::from_invocation(
        ActionInvocation::new("test.render", object(vec![("item", text("mode"))]))
            .with_event(Some(EventContext::new("test.changed", object(vec![]))))
            .with_extension(Some(ExtensionContext::new("test")))
            .with_continuation(Some(ContinuationContext::new("id-1", "/tmp/spindle.sock", 7))),
    );

    assert_eq!(context.action(), Some("test.render"));
    assert_eq!(context.event().map(|event| event.kind()), Some("test.changed"));
    assert_eq!(context.event().map(|event| event.data()), Some(&object(vec![])));
    assert_eq!(context.extension().map(|extension| extension.id.as_str()), Some("test"));
    assert_eq!(context.continuation().map(|handle| handle.expires_unix_ms), Some(7));
}
