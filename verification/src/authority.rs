//! What may run with which capabilities.
use vstd::prelude::*;

use crate::context::OutputEventView;
use crate::depth_first::{
    action_handled, event_handled, outputs_handled, routes_handled, EffectView, Outside, Progress,
};
use crate::dispatch::{
    capabilities_check, capability_checker, continuation_for, deeper, output_event, passed_on,
    plan_of, route_task, PlannedView, SetupView, MAX_DISPATCH_DEPTH,
};
use crate::error::{lemma_each_fails_at, lemma_each_passes, ErrorView};
use crate::event::EventView;
use crate::installed::{
    action_owner, handles, law_action_owner, law_matched_handlers, matched_handlers,
    matched_routes, route_at,
};
use crate::json::{law_merge_prefers_second, member, members_of, JsonView};
use crate::name_map::{ascending, lookup, names};
use crate::registered::RegisteredView;
use crate::registration::{law_with_all_unique, with_all_unique, RouteView};
use crate::routes::{is_routable, law_valid_registry_resolves, registry_check};

verus! {

/// What the extension that handles an action says that it requires.
pub open spec fn required_by(extensions: Seq<RegisteredView>, action: Seq<char>) -> Seq<Seq<char>> {
    lookup(extensions[action_owner(extensions, action)->0 as int].actions, action)->0
}

/// Whether every one of some texts is among others.
pub open spec fn all_among(texts: Seq<Seq<char>>, others: Seq<Seq<char>>) -> bool {
    forall|i: int| 0 <= i < texts.len() ==> others.contains(#[trigger] texts[i])
}

/// The rule for required capabilities is that all of them are granted.
pub proof fn law_capabilities_check(
    action: Seq<char>,
    required: Seq<Seq<char>>,
    granted: Seq<Seq<char>>,
)
    ensures
        capabilities_check(action, required, granted) is Ok <==> all_among(required, granted),
{
    let check = capability_checker(action, granted);
    lemma_each_passes(required, check);
    assert forall|i: int| 0 <= i < required.len() implies (check(#[trigger] required[i]) is Ok
        <==> granted.contains(required[i])) by {}
    if all_among(required, granted) {
        assert forall|i: int| 0 <= i < required.len() implies check(
            #[trigger] required[i],
        ) is Ok by {
            assert(granted.contains(required[i]));
        }
    }
    if capabilities_check(action, required, granted) is Ok {
        assert forall|i: int| 0 <= i < required.len() implies granted.contains(
            #[trigger] required[i],
        ) by {
            assert(check(required[i]) is Ok);
        }
    }
}

/// An action is run exactly when it is not too deep, an installed extension
/// handles it, and all it requires is granted.
pub proof fn law_run_needs_grant(
    setup: SetupView,
    action: Seq<char>,
    args: JsonView,
    capabilities: Seq<Seq<char>>,
    trigger: Option<EventView>,
    depth: usize,
)
    ensures
        plan_of(setup, action, args, capabilities, trigger, depth) is Ok <==> depth
            <= MAX_DISPATCH_DEPTH && action_owner(setup.extensions, action) is Some && all_among(
            required_by(setup.extensions, action),
            capabilities,
        ),
{
    if action_owner(setup.extensions, action) is Some {
        law_capabilities_check(action, required_by(setup.extensions, action), capabilities);
    }
}

/// A direct invocation carries no capabilities: it runs actions that require none,
/// and for any other says which capability is missing.
pub proof fn law_direct_invoke(setup: SetupView, action: Seq<char>, args: JsonView)
    requires
        action_owner(setup.extensions, action) is Some,
    ensures
        plan_of(setup, action, args, Seq::empty(), None, 0) is Ok <==> required_by(
            setup.extensions,
            action,
        ).len() == 0,
        required_by(setup.extensions, action).len() > 0 ==> plan_of(
            setup,
            action,
            args,
            Seq::empty(),
            None,
            0,
        ) == Err::<PlannedView, ErrorView>(
            ErrorView::MissingActionCapability {
                action,
                capability: required_by(setup.extensions, action)[0],
            },
        ),
{
    let required = required_by(setup.extensions, action);
    law_run_needs_grant(setup, action, args, Seq::empty(), None, 0);
    if required.len() > 0 {
        let check = capability_checker(action, Seq::empty());
        assert(required.take(0) =~= Seq::empty());
        assert(check(required[0]) is Err);
        lemma_each_fails_at(required, check, 0);
        assert(!Seq::<Seq<char>>::empty().contains(required[0]));
    }
}

proof fn lemma_passed_on(granted: Seq<Seq<char>>, required: Seq<Seq<char>>)
    ensures
        forall|capability: Seq<char>| #[trigger]
            passed_on(granted, required).contains(capability) <==> granted.contains(capability)
                && required.contains(capability),
    decreases granted.len(),
{
    if granted.len() > 0 {
        let front = granted.drop_last();
        let before = passed_on(front, required);
        let after = passed_on(granted, required);
        lemma_passed_on(front, required);
        assert forall|capability: Seq<char>| #[trigger]
            after.contains(capability) <==> granted.contains(capability) && required.contains(
                capability,
            ) by {
            assert(before.contains(capability) <==> front.contains(capability)
                && required.contains(capability));
            if after.contains(capability) {
                let k = choose|k: int| 0 <= k < after.len() && after[k] == capability;
                if k < before.len() {
                    assert(before[k] == capability);
                    let j = choose|j: int| 0 <= j < front.len() && front[j] == capability;
                    assert(granted[j] == capability);
                } else {
                    assert(granted[granted.len() - 1] == capability);
                }
            }
            if granted.contains(capability) && required.contains(capability) {
                let j = choose|j: int| 0 <= j < granted.len() && granted[j] == capability;
                if j < front.len() {
                    assert(front[j] == capability);
                    let k = choose|k: int| 0 <= k < before.len() && before[k] == capability;
                    assert(after[k] == capability);
                } else {
                    assert(after[after.len() - 1] == capability);
                }
            }
        }
    }
}

/// The capabilities of a continuation handle are those that were both granted to
/// the action and required by it.
pub proof fn law_handle_capabilities(
    socket: Seq<char>,
    extension: Seq<char>,
    action: Seq<char>,
    required: Seq<Seq<char>>,
    granted: Seq<Seq<char>>,
)
    ensures
        continuation_for(Some(socket), extension, action, required, granted, 0) is Some,
        forall|capability: Seq<char>| #[trigger]
            continuation_for(
                Some(socket),
                extension,
                action,
                required,
                granted,
                0,
            )->0.capabilities.contains(capability) <==> granted.contains(capability)
                && required.contains(capability),
{
    lemma_passed_on(granted, required);
}

/// Work that is deferred with a handle runs nothing that the invocation which got
/// the handle could not have run itself with what it was granted.
pub proof fn law_handle_grants_no_more(
    setup: SetupView,
    action: Seq<char>,
    args: JsonView,
    granted: Seq<Seq<char>>,
    trigger: Option<EventView>,
    depth: usize,
    later: Seq<char>,
    later_args: JsonView,
)
    requires
        plan_of(setup, action, args, granted, trigger, depth) is Ok,
        plan_of(setup, action, args, granted, trigger, depth)->Ok_0.continuation is Some,
        plan_of(
            setup,
            later,
            later_args,
            plan_of(setup, action, args, granted, trigger, depth)->Ok_0.continuation->0.capabilities,
            None,
            0,
        ) is Ok,
    ensures
        plan_of(setup, later, later_args, granted, None, 0) is Ok,
{
    let required = required_by(setup.extensions, action);
    let handle = passed_on(granted, required);
    let wanted = required_by(setup.extensions, later);
    lemma_passed_on(granted, required);
    law_run_needs_grant(setup, later, later_args, handle, None, 0);
    assert forall|i: int| 0 <= i < wanted.len() implies granted.contains(#[trigger] wanted[i]) by {
        assert(handle.contains(wanted[i]));
    }
    law_run_needs_grant(setup, later, later_args, granted, None, 0);
}

/// With its handle an action can be run again.
pub proof fn law_handle_suffices_for_its_action(
    setup: SetupView,
    action: Seq<char>,
    args: JsonView,
    granted: Seq<Seq<char>>,
    trigger: Option<EventView>,
    depth: usize,
    later_args: JsonView,
)
    requires
        plan_of(setup, action, args, granted, trigger, depth) is Ok,
        plan_of(setup, action, args, granted, trigger, depth)->Ok_0.continuation is Some,
    ensures
        plan_of(
            setup,
            action,
            later_args,
            plan_of(setup, action, args, granted, trigger, depth)->Ok_0.continuation->0.capabilities,
            None,
            0,
        ) is Ok,
{
    let required = required_by(setup.extensions, action);
    let handle = passed_on(granted, required);
    lemma_passed_on(granted, required);
    law_run_needs_grant(setup, action, args, granted, trigger, depth);
    assert forall|i: int| 0 <= i < required.len() implies handle.contains(
        #[trigger] required[i],
    ) by {
        assert(granted.contains(required[i]));
        assert(required.contains(required[i]));
        assert(handle.contains(required[i]) <==> granted.contains(required[i])
            && required.contains(required[i]));
    }
    law_run_needs_grant(setup, action, later_args, handle, None, 0);
}

/// A route to which the capabilities of its action were added grants all that the
/// action requires.
pub proof fn law_copied_capabilities_suffice(
    action: Seq<char>,
    own: Seq<Seq<char>>,
    required: Seq<Seq<char>>,
)
    ensures
        capabilities_check(action, required, with_all_unique(own, required)) is Ok,
{
    law_with_all_unique(own, required);
    law_capabilities_check(action, required, with_all_unique(own, required));
    assert forall|i: int| 0 <= i < required.len() implies with_all_unique(own, required).contains(
        #[trigger] required[i],
    ) by {
        assert(required.contains(required[i]));
    }
}

/// In a valid registry every route that an event triggers leads to an action that
/// an extension handles.
pub proof fn law_valid_registry_routes_lead_on(
    extensions: Seq<RegisteredView>,
    kind: Seq<char>,
    source: Seq<char>,
    i: int,
)
    requires
        extensions.len() <= usize::MAX,
        registry_check(extensions) is Ok,
        0 <= i < matched_routes(extensions, kind, source).len(),
    ensures
        action_owner(extensions, matched_routes(extensions, kind, source)[i].action) is Some,
{
    let handler = matched_handlers(extensions, kind, source)[i];
    law_matched_handlers(extensions, kind, source);
    assert(matched_handlers(extensions, kind, source).contains(handler));
    assert(handles(extensions, handler, kind));
    law_valid_registry_resolves(extensions);
    let route = extensions[handler.0].routes[handler.1];
    assert(is_routable(route.action, extensions));
    law_action_owner(extensions, route.action);
}

/// Where both the event payload and the arguments of a route have a member, that of
/// the route is handed to the action.
pub proof fn law_route_args_win(event: EventView, route: RouteView, depth: usize, name: Seq<char>)
    requires
        ascending(names(members_of(route.args))),
    ensures
        member(route_task(event, route, depth)->Act_args, name) == match member(route.args, name) {
            Some(value) => Some(value),
            None => member(event.data, name),
        },
{
    law_merge_prefers_second(members_of(event.data), members_of(route.args), name);
}

/// Whether a route is installed for an event type.
pub open spec fn is_installed(
    extensions: Seq<RegisteredView>,
    kind: Seq<char>,
    route: RouteView,
) -> bool {
    exists|handler: (int, int)| #[trigger]
        handles(extensions, handler, kind) && route_at(extensions, handler) == route
}

/// Whether a route that is installed for the event that triggered an action leads
/// to the action and grants all that it requires.
pub open spec fn granted_by_route(setup: SetupView, planned: PlannedView) -> bool {
    exists|route: RouteView|
        {
            &&& planned.invocation.event is Some
            &&& #[trigger] is_installed(
                setup.extensions,
                planned.invocation.event->0.kind,
                route,
            )
            &&& route.action == planned.invocation.action
            &&& all_among(
                required_by(setup.extensions, planned.invocation.action),
                route.capabilities,
            )
        }
}

/// Whether all actions among some effects, from a position on, were granted what
/// they require by a route.
pub open spec fn runs_granted(setup: SetupView, effects: Seq<EffectView>, from: int) -> bool {
    forall|k: int|
        from <= k < effects.len() && (#[trigger] effects[k]) is Ran ==> granted_by_route(
            setup,
            effects[k]->planned,
        )
}

/// Whether progress goes on from what was done before.
pub open spec fn goes_on(before: Progress, after: Progress) -> bool {
    &&& before.effects.len() <= after.effects.len()
    &&& forall|k: int|
        0 <= k < before.effects.len() ==> #[trigger] after.effects[k] == before.effects[k]
}

/// Whatever the outside answers, handling an event runs only actions to which an
/// installed route leads from the event that triggered them, and which that route
/// grants all they require.
pub proof fn law_events_run_granted_actions(
    setup: SetupView,
    outside: Outside,
    event: EventView,
    depth: usize,
    progress: Progress,
)
    requires
        progress.error is None,
    ensures
        goes_on(progress, event_handled(setup, outside, event, depth, progress)),
        runs_granted(
            setup,
            event_handled(setup, outside, event, depth, progress).effects,
            progress.effects.len() as int,
        ),
    decreases MAX_DISPATCH_DEPTH + 1 - depth, 3int, 0int,
{
    if depth <= MAX_DISPATCH_DEPTH {
        let routes = matched_routes(setup.extensions, event.kind, event.source);
        law_matched_handlers(setup.extensions, event.kind, event.source);
        assert forall|i: int| 0 <= i < routes.len() implies is_installed(
            setup.extensions,
            event.kind,
            #[trigger] routes[i],
        ) by {
            let handlers = matched_handlers(setup.extensions, event.kind, event.source);
            assert(handlers.contains(handlers[i]));
            assert(handles(setup.extensions, handlers[i], event.kind));
        }
        lemma_routes_granted(setup, outside, event, routes, depth, progress);
    }
}

proof fn lemma_routes_granted(
    setup: SetupView,
    outside: Outside,
    event: EventView,
    routes: Seq<RouteView>,
    depth: usize,
    progress: Progress,
)
    requires
        progress.error is None,
        forall|i: int|
            0 <= i < routes.len() ==> is_installed(
                setup.extensions,
                event.kind,
                #[trigger] routes[i],
            ),
    ensures
        goes_on(progress, routes_handled(setup, outside, event, routes, depth, progress)),
        runs_granted(
            setup,
            routes_handled(setup, outside, event, routes, depth, progress).effects,
            progress.effects.len() as int,
        ),
    decreases MAX_DISPATCH_DEPTH + 1 - depth, 2int, routes.len(),
{
    if routes.len() > 0 {
        let route = routes[0];
        let task = route_task(event, route, depth);
        let next = action_handled(
            setup,
            outside,
            task->Act_action,
            task->Act_args,
            task->Act_capabilities,
            task->trigger,
            depth,
            progress,
        );
        law_action_runs_granted_actions(
            setup,
            outside,
            task->Act_action,
            task->Act_args,
            task->Act_capabilities,
            task->trigger,
            depth,
            progress,
        );
        let from = progress.effects.len() as int;
        assert(runs_granted(setup, next.effects, from)) by {
            if next.effects.len() > from {
                let planned = next.effects[from]->planned;
                assert(planned.invocation.action == route.action);
                assert(planned.invocation.event->0.kind == event.kind);
                assert(is_installed(
                    setup.extensions,
                    planned.invocation.event->0.kind,
                    route,
                ));
                assert(granted_by_route(setup, planned));
            }
        }
        if next.error is None {
            let rest = routes.drop_first();
            assert forall|i: int| 0 <= i < rest.len() implies is_installed(
                setup.extensions,
                event.kind,
                #[trigger] rest[i],
            ) by {
                assert(rest[i] == routes[i + 1]);
            }
            lemma_routes_granted(setup, outside, event, rest, depth, next);
            lemma_granted_so_far(
                setup,
                progress,
                next,
                routes_handled(setup, outside, event, rest, depth, next),
            );
        }
    }
}

/// Whatever the outside answers, running an action runs nothing unless the action
/// itself is granted all it requires; what runs in its wake is granted what it
/// requires by routes.
pub proof fn law_action_runs_granted_actions(
    setup: SetupView,
    outside: Outside,
    action: Seq<char>,
    args: JsonView,
    capabilities: Seq<Seq<char>>,
    trigger: Option<EventView>,
    depth: usize,
    progress: Progress,
)
    requires
        progress.error is None,
    ensures
        ({
            let after = action_handled(
                setup,
                outside,
                action,
                args,
                capabilities,
                trigger,
                depth,
                progress,
            );
            let from = progress.effects.len() as int;
            &&& goes_on(progress, after)
            &&& after.effects.len() > from ==> {
                &&& plan_of(setup, action, args, capabilities, trigger, depth) is Ok
                &&& after.effects[from] == (EffectView::Ran {
                    planned: plan_of(setup, action, args, capabilities, trigger, depth)->Ok_0,
                })
                &&& all_among(required_by(setup.extensions, action), capabilities)
            }
            &&& runs_granted(setup, after.effects, from + 1)
        }),
    decreases MAX_DISPATCH_DEPTH + 1 - depth, 1int, 0int,
{
    law_run_needs_grant(setup, action, args, capabilities, trigger, depth);
    match plan_of(setup, action, args, capabilities, trigger, depth) {
        Err(error) => {},
        Ok(planned) => {
            let effects = progress.effects.push(EffectView::Ran { planned });
            match (outside.run)(progress.effects, planned) {
                Err(error) => {},
                Ok(outputs) => {
                    lemma_outputs_granted(
                        setup,
                        outside,
                        planned.extension,
                        action,
                        outputs,
                        depth,
                        Progress {
                            reports: progress.reports.push((action, planned.extension.id)),
                            effects,
                            error: progress.error,
                        },
                    );
                },
            }
        },
    }
}

proof fn lemma_outputs_granted(
    setup: SetupView,
    outside: Outside,
    extension: RegisteredView,
    action: Seq<char>,
    outputs: Seq<OutputEventView>,
    depth: usize,
    progress: Progress,
)
    requires
        progress.error is None,
    ensures
        goes_on(
            progress,
            outputs_handled(setup, outside, extension, action, outputs, depth, progress),
        ),
        runs_granted(
            setup,
            outputs_handled(setup, outside, extension, action, outputs, depth, progress).effects,
            progress.effects.len() as int,
        ),
    decreases MAX_DISPATCH_DEPTH + 1 - depth, 0int, outputs.len(),
{
    if outputs.len() > 0 && depth <= MAX_DISPATCH_DEPTH {
        let (id, now) = (outside.stamp)(progress.effects);
        match output_event(extension, action, outputs[0], id, now) {
            Err(error) => {},
            Ok(event) => {
                let noted = Progress {
                    effects: progress.effects.push(EffectView::Noted { event }),
                    ..progress
                };
                if !(setup.log && (outside.note)(progress.effects, event) is Err) {
                    let next = event_handled(setup, outside, event, deeper(depth), noted);
                    law_events_run_granted_actions(setup, outside, event, deeper(depth), noted);
                    lemma_granted_so_far(setup, progress, noted, next);
                    if next.error is None {
                        let rest = outputs.drop_first();
                        lemma_outputs_granted(
                            setup,
                            outside,
                            extension,
                            action,
                            rest,
                            depth,
                            next,
                        );
                        lemma_granted_so_far(
                            setup,
                            progress,
                            next,
                            outputs_handled(setup, outside, extension, action, rest, depth, next),
                        );
                    }
                }
            },
        }
    }
}

proof fn lemma_granted_so_far(setup: SetupView, first: Progress, second: Progress, third: Progress)
    requires
        goes_on(first, second),
        goes_on(second, third),
        runs_granted(setup, second.effects, first.effects.len() as int),
        runs_granted(setup, third.effects, second.effects.len() as int),
    ensures
        goes_on(first, third),
        runs_granted(setup, third.effects, first.effects.len() as int),
{
    assert forall|k: int| 0 <= k < first.effects.len() implies #[trigger] third.effects[k]
        == first.effects[k] by {
        assert(second.effects[k] == first.effects[k]);
    }
    assert forall|k: int|
        first.effects.len() <= k < third.effects.len() && (
        #[trigger] third.effects[k]) is Ran implies granted_by_route(
        setup,
        third.effects[k]->planned,
    ) by {
        if k < second.effects.len() {
            assert(third.effects[k] == second.effects[k]);
        }
    }
}

} // verus!
