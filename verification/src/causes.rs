//! Why a dispatch does what it does: everything has its cause.
//!
//! An action runs because of the request for it, or because an installed route leads
//! to it from an event that came before. An event is noted because an action that ran
//! before returned it. What the cause holds is handed on.
use vstd::prelude::*;

use crate::context::OutputEventView;
use crate::depth_first::{
    action_handled, event_handled, no_progress, outputs_handled, routes_handled, EffectView,
    Outside, Progress,
};
use crate::dispatch::{deeper, output_event, plan_of, route_task, PlannedView, SetupView};
use crate::event::EventView;
use crate::installed::matched_routes;
use crate::json::{law_merge_prefers_second, member, members_of, JsonView};
use crate::name_map::{ascending, names};
use crate::registration::RouteView;

verus! {

/// Whether an event was there: a dispatch started from it, or noted it before.
pub open spec fn is_there(
    start: Option<EventView>,
    before: Seq<EffectView>,
    event: EventView,
) -> bool {
    start == Some(event) || before.contains(EffectView::Noted { event })
}

/// Whether a route leads from an event to an action that is run: the event triggers the
/// route, the action is that of the route, and it is handed the event and an object
/// with the members of the payload and, over them, those of the route.
pub open spec fn leads_to(
    setup: SetupView,
    event: EventView,
    route: RouteView,
    planned: PlannedView,
) -> bool {
    &&& matched_routes(setup.extensions, event.kind, event.source).contains(route)
    &&& planned.invocation.action == route.action
    &&& planned.invocation.event is Some
    &&& planned.invocation.event->0.kind == event.kind
    &&& planned.invocation.event->0.data == event.data
    &&& planned.invocation.args is Object
    &&& ascending(names(members_of(route.args))) ==> forall|name: Seq<char>| #[trigger]
        member(planned.invocation.args, name) == match member(route.args, name) {
            Some(value) => Some(value),
            None => member(event.data, name),
        }
}

/// Whether an event is what an action returned: the action ran before and returned an
/// output with the type, subject and payload of the event, which comes from the
/// extension that ran the action.
pub open spec fn was_returned(
    outside: Outside,
    before: Seq<EffectView>,
    event: EventView,
    ran: int,
    place: int,
) -> bool {
    &&& 0 <= ran < before.len()
    &&& before[ran] matches EffectView::Ran { planned }
    &&& (outside.run)(before.take(ran), planned) matches Ok(outputs)
    &&& 0 <= place < outputs.len()
    &&& event.kind == outputs[place].kind
    &&& event.subject == outputs[place].subject
    &&& event.data == outputs[place].data
    &&& event.source == planned.extension.id
}

/// Whether something that a dispatch does has its cause in what came before.
pub open spec fn has_cause(
    setup: SetupView,
    outside: Outside,
    start: Option<EventView>,
    before: Seq<EffectView>,
    effect: EffectView,
) -> bool {
    match effect {
        EffectView::Ran { planned } => exists|event: EventView, route: RouteView|
            #[trigger] leads_to(setup, event, route, planned) && is_there(start, before, event),
        EffectView::Noted { event } => exists|ran: int, place: int| #[trigger]
            was_returned(outside, before, event, ran, place),
    }
}

/// Whether all that a dispatch does, from a position on, has its cause.
pub open spec fn all_have_causes(
    setup: SetupView,
    outside: Outside,
    start: Option<EventView>,
    effects: Seq<EffectView>,
    from: int,
) -> bool {
    forall|k: int|
        from <= k < effects.len() ==> has_cause(
            setup,
            outside,
            start,
            effects.take(k),
            #[trigger] effects[k],
        )
}

/// Whether effects go on from others.
pub open spec fn extends(before: Seq<EffectView>, after: Seq<EffectView>) -> bool {
    before.len() <= after.len() && after.take(before.len() as int) == before
}

/// Whatever the outside answers, all that is done to dispatch an event has its cause:
/// actions run because an installed route leads to them from the event or from one
/// that was noted before, and events are noted because an action returned them.
pub proof fn law_event_dispatch_has_causes(setup: SetupView, outside: Outside, event: EventView)
    ensures
        all_have_causes(
            setup,
            outside,
            Some(event),
            event_handled(setup, outside, event, 0, no_progress()).effects,
            0,
        ),
{
    lemma_event_causes(setup, outside, Some(event), event, 0, no_progress());
}

/// Whatever the outside answers, a dispatch of an action first runs that action with
/// the arguments that it was asked for, on no event, or does nothing; all else that is
/// done has its cause.
pub proof fn law_action_dispatch_has_causes(
    setup: SetupView,
    outside: Outside,
    action: Seq<char>,
    args: JsonView,
    capabilities: Seq<Seq<char>>,
)
    ensures
        ({
            let effects = action_handled(
                setup,
                outside,
                action,
                args,
                capabilities,
                None,
                0,
                no_progress(),
            ).effects;
            &&& effects.len() > 0 ==> {
                &&& effects[0] matches EffectView::Ran { planned }
                &&& planned.invocation.action == action
                &&& planned.invocation.args == args
                &&& planned.invocation.event is None
            }
            &&& all_have_causes(setup, outside, None, effects, 1)
        }),
{
    lemma_action_causes(
        setup,
        outside,
        None,
        action,
        args,
        capabilities,
        None,
        0,
        no_progress(),
    );
}

proof fn lemma_there_later(
    start: Option<EventView>,
    before: Seq<EffectView>,
    after: Seq<EffectView>,
    event: EventView,
)
    requires
        is_there(start, before, event),
        extends(before, after),
    ensures
        is_there(start, after, event),
{
    if before.contains(EffectView::Noted { event }) {
        let k = choose|k: int| 0 <= k < before.len() && before[k] == (EffectView::Noted { event });
        assert(after.take(before.len() as int)[k] == after[k]);
    }
}

proof fn lemma_causes_join(
    setup: SetupView,
    outside: Outside,
    start: Option<EventView>,
    first: Seq<EffectView>,
    second: Seq<EffectView>,
    third: Seq<EffectView>,
    from: int,
)
    requires
        0 <= from,
        extends(first, second),
        extends(second, third),
        all_have_causes(setup, outside, start, second, from),
        all_have_causes(setup, outside, start, third, second.len() as int),
    ensures
        extends(first, third),
        all_have_causes(setup, outside, start, third, from),
{
    assert(third.take(first.len() as int) =~= second.take(first.len() as int)) by {
        assert forall|k: int| 0 <= k < first.len() implies third[k] == second[k] by {
            assert(third.take(second.len() as int)[k] == third[k]);
        }
    }
    assert forall|k: int| from <= k < third.len() implies has_cause(
        setup,
        outside,
        start,
        third.take(k),
        #[trigger] third[k],
    ) by {
        if k < second.len() {
            assert(third.take(second.len() as int)[k] == third[k]);
            assert(second[k] == third[k]);
            assert(third.take(k) =~= second.take(k)) by {
                assert forall|i: int| 0 <= i < k implies third[i] == second[i] by {
                    assert(third.take(second.len() as int)[i] == third[i]);
                }
            }
        }
    }
}

proof fn lemma_event_causes(
    setup: SetupView,
    outside: Outside,
    start: Option<EventView>,
    event: EventView,
    depth: usize,
    progress: Progress,
)
    requires
        progress.error is None,
        is_there(start, progress.effects, event),
    ensures
        extends(
            progress.effects,
            event_handled(setup, outside, event, depth, progress).effects,
        ),
        all_have_causes(
            setup,
            outside,
            start,
            event_handled(setup, outside, event, depth, progress).effects,
            progress.effects.len() as int,
        ),
    decreases 17 - depth, 3int, 0int,
{
    assert(progress.effects.take(progress.effects.len() as int) =~= progress.effects);
    if depth <= 16 {
        let routes = matched_routes(setup.extensions, event.kind, event.source);
        assert forall|i: int| 0 <= i < routes.len() implies routes.contains(
            #[trigger] routes[i],
        ) by {}
        lemma_routes_causes(setup, outside, start, event, routes, depth, progress);
    }
}

proof fn lemma_routes_causes(
    setup: SetupView,
    outside: Outside,
    start: Option<EventView>,
    event: EventView,
    routes: Seq<RouteView>,
    depth: usize,
    progress: Progress,
)
    requires
        progress.error is None,
        is_there(start, progress.effects, event),
        forall|i: int|
            0 <= i < routes.len() ==> matched_routes(
                setup.extensions,
                event.kind,
                event.source,
            ).contains(#[trigger] routes[i]),
    ensures
        extends(
            progress.effects,
            routes_handled(setup, outside, event, routes, depth, progress).effects,
        ),
        all_have_causes(
            setup,
            outside,
            start,
            routes_handled(setup, outside, event, routes, depth, progress).effects,
            progress.effects.len() as int,
        ),
    decreases 17 - depth, 2int, routes.len(),
{
    assert(progress.effects.take(progress.effects.len() as int) =~= progress.effects);
    if routes.len() > 0 {
        let route = routes[0];
        let task = route_task(event, route, depth);
        let next = action_handled(
            setup,
            outside,
            task->Act_action,
            task->Act_args,
            task->Act_capabilities,
            task->trigger,
            depth,
            progress,
        );
        lemma_action_causes(
            setup,
            outside,
            start,
            task->Act_action,
            task->Act_args,
            task->Act_capabilities,
            task->trigger,
            depth,
            progress,
        );
        let from = progress.effects.len() as int;
        assert(all_have_causes(setup, outside, start, next.effects, from)) by {
            if next.effects.len() > from {
                let planned = next.effects[from]->planned;
                assert forall|name: Seq<char>|
                    ascending(names(members_of(route.args))) implies #[trigger] member(
                    planned.invocation.args,
                    name,
                ) == match member(route.args, name) {
                    Some(value) => Some(value),
                    None => member(event.data, name),
                } by {
                    law_merge_prefers_second(members_of(event.data), members_of(route.args), name);
                }
                assert(leads_to(setup, event, route, planned));
                assert(next.effects.take(from) == progress.effects);
                assert(has_cause(
                    setup,
                    outside,
                    start,
                    next.effects.take(from),
                    next.effects[from],
                ));
            }
        }
        if next.error is None {
            let rest = routes.drop_first();
            assert forall|i: int| 0 <= i < rest.len() implies matched_routes(
                setup.extensions,
                event.kind,
                event.source,
            ).contains(#[trigger] rest[i]) by {
                assert(rest[i] == routes[i + 1]);
            }
            lemma_there_later(start, progress.effects, next.effects, event);
            lemma_routes_causes(setup, outside, start, event, rest, depth, next);
            lemma_causes_join(
                setup,
                outside,
                start,
                progress.effects,
                next.effects,
                routes_handled(setup, outside, event, rest, depth, next).effects,
                from,
            );
        }
    }
}

proof fn lemma_action_causes(
    setup: SetupView,
    outside: Outside,
    start: Option<EventView>,
    action: Seq<char>,
    args: JsonView,
    capabilities: Seq<Seq<char>>,
    trigger: Option<EventView>,
    depth: usize,
    progress: Progress,
)
    requires
        progress.error is None,
    ensures
        ({
            let effects = action_handled(
                setup,
                outside,
                action,
                args,
                capabilities,
                trigger,
                depth,
                progress,
            ).effects;
            let from = progress.effects.len() as int;
            &&& extends(progress.effects, effects)
            &&& effects.len() > from ==> {
                &&& effects[from] matches EffectView::Ran { planned }
                &&& planned.invocation.action == action
                &&& planned.invocation.args == args
                &&& trigger is None ==> planned.invocation.event is None
                &&& trigger matches Some(event) ==> planned.invocation.event is Some
                    && planned.invocation.event->0.kind == event.kind
                    && planned.invocation.event->0.data == event.data
            }
            &&& all_have_causes(setup, outside, start, effects, from + 1)
        }),
    decreases 17 - depth, 1int, 0int,
{
    let from = progress.effects.len() as int;
    assert(progress.effects.take(from) =~= progress.effects);
    match plan_of(setup, action, args, capabilities, trigger, depth) {
        Err(error) => {},
        Ok(planned) => {
            let effects = progress.effects.push(EffectView::Ran { planned });
            assert(effects.take(from) =~= progress.effects);
            match (outside.run)(progress.effects, planned) {
                Err(error) => {},
                Ok(outputs) => {
                    let ran = Progress {
                        reports: progress.reports.push((action, planned.extension.id)),
                        effects,
                        error: progress.error,
                    };
                    assert(outputs.skip(0) =~= outputs);
                    lemma_outputs_causes(
                        setup,
                        outside,
                        start,
                        planned,
                        action,
                        from,
                        outputs,
                        0,
                        depth,
                        ran,
                    );
                    let after = outputs_handled(
                        setup,
                        outside,
                        planned.extension,
                        action,
                        outputs,
                        depth,
                        ran,
                    ).effects;
                    assert(after.take(effects.len() as int)[from] == after[from]);
                    assert(after.take(from) =~= progress.effects) by {
                        assert forall|k: int| 0 <= k < from implies after[k]
                            == progress.effects[k] by {
                            assert(after.take(effects.len() as int)[k] == after[k]);
                        }
                    }
                },
            }
        },
    }
}

proof fn lemma_outputs_causes(
    setup: SetupView,
    outside: Outside,
    start: Option<EventView>,
    planned: PlannedView,
    action: Seq<char>,
    ran: int,
    all: Seq<OutputEventView>,
    done: int,
    depth: usize,
    progress: Progress,
)
    requires
        progress.error is None,
        0 <= ran < progress.effects.len(),
        progress.effects[ran] == (EffectView::Ran { planned }),
        (outside.run)(progress.effects.take(ran), planned) == Ok::<
            Seq<OutputEventView>,
            crate::error::ErrorView,
        >(all),
        0 <= done <= all.len(),
    ensures
        ({
            let effects = outputs_handled(
                setup,
                outside,
                planned.extension,
                action,
                all.skip(done),
                depth,
                progress,
            ).effects;
            &&& extends(progress.effects, effects)
            &&& all_have_causes(
                setup,
                outside,
                start,
                effects,
                progress.effects.len() as int,
            )
        }),
    decreases 17 - depth, 0int, all.len() - done,
{
    let from = progress.effects.len() as int;
    assert(progress.effects.take(from) =~= progress.effects);
    let outputs = all.skip(done);
    if outputs.len() > 0 && depth <= 16 {
        let (id, now) = (outside.stamp)(progress.effects);
        match output_event(planned.extension, action, outputs[0], id, now) {
            Err(error) => {},
            Ok(event) => {
                let effect = EffectView::Noted { event };
                let noted = Progress { effects: progress.effects.push(effect), ..progress };
                assert(noted.effects.take(from) =~= progress.effects);
                assert(was_returned(outside, progress.effects, event, ran, done));
                assert(has_cause(setup, outside, start, noted.effects.take(from), effect));
                assert(all_have_causes(setup, outside, start, noted.effects, from));
                if !(setup.log && (outside.note)(progress.effects, event) is Err) {
                    assert(noted.effects[from] == effect);
                    assert(is_there(start, noted.effects, event));
                    let next = event_handled(setup, outside, event, deeper(depth), noted);
                    lemma_event_causes(setup, outside, start, event, deeper(depth), noted);
                    lemma_causes_join(
                        setup,
                        outside,
                        start,
                        progress.effects,
                        noted.effects,
                        next.effects,
                        from,
                    );
                    if next.error is None {
                        assert(all.skip(done).drop_first() =~= all.skip(done + 1));
                        assert(next.effects.take(from)[ran] == next.effects[ran]);
                        assert(next.effects.take(ran) =~= progress.effects.take(ran)) by {
                            assert forall|k: int| 0 <= k < ran implies next.effects[k]
                                == progress.effects[k] by {
                                assert(next.effects.take(from)[k] == next.effects[k]);
                            }
                        }
                        lemma_outputs_causes(
                            setup,
                            outside,
                            start,
                            planned,
                            action,
                            ran,
                            all,
                            done + 1,
                            depth,
                            next,
                        );
                        lemma_causes_join(
                            setup,
                            outside,
                            start,
                            progress.effects,
                            next.effects,
                            outputs_handled(
                                setup,
                                outside,
                                planned.extension,
                                action,
                                all.skip(done + 1),
                                depth,
                                next,
                            ).effects,
                            from,
                        );
                    }
                }
            },
        }
    }
}

} // verus!
