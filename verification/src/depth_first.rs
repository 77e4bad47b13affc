//! What the steps of a dispatch amount to: a walk through the events, depth first.
//!
//! Outside a dispatch, actions return what they return and the log takes events or
//! does not; both may depend on all that happened before. For every such outside
//! the steps end, and what they did is what `event_handled` says.
use vstd::prelude::*;

use crate::context::OutputEventView;
use crate::dispatch::{
    deeper, output_event, plan_of, resumed, route_task, stepped, tasks_of, PlannedView, ReportView,
    RunView, SetupView, StepView, TaskView, MAX_DISPATCH_DEPTH,
};
use crate::error::{Checked, ErrorView};
use crate::event::EventView;
use crate::installed::{action_owner, law_action_owner, matched_routes};
use crate::json::JsonView;
use crate::registered::RegisteredView;
use crate::registration::RouteView;
use crate::routes::exposes;

verus! {

/// Something that a dispatch did outside.
pub enum EffectView {
    /// It had an action run.
    Ran {
        /// The action.
        planned: PlannedView,
    },
    /// It gave notice of an event that an action produced.
    Noted {
        /// The event.
        event: EventView,
    },
}

/// How the outside answers, given all that was done before.
pub struct Outside {
    /// What an action returns, or why it fails.
    pub run: spec_fn(Seq<EffectView>, PlannedView) -> Result<Seq<OutputEventView>, ErrorView>,
    /// Whether the log takes an event.
    pub note: spec_fn(Seq<EffectView>, EventView) -> Checked,
    /// The identifier and the time for an event.
    pub stamp: spec_fn(Seq<EffectView>) -> (Seq<char>, u64),
}

/// How far a dispatch got.
pub struct Progress {
    /// The actions that ran, in order.
    pub reports: Seq<ReportView>,
    /// What was done outside, in order.
    pub effects: Seq<EffectView>,
    /// Why it failed, if it did.
    pub error: Option<ErrorView>,
}

/// The same progress, failed.
pub open spec fn failed(progress: Progress, error: ErrorView) -> Progress {
    Progress { error: Some(error), ..progress }
}

/// Handle an event: run the actions of the routes that it triggers, in order.
pub open spec fn event_handled(
    setup: SetupView,
    outside: Outside,
    event: EventView,
    depth: usize,
    progress: Progress,
) -> Progress
    decreases MAX_DISPATCH_DEPTH + 1 - depth, 3int, 0int,
{
    if depth > MAX_DISPATCH_DEPTH {
        failed(progress, ErrorView::DispatchDepthExceeded)
    } else {
        routes_handled(
            setup,
            outside,
            event,
            matched_routes(setup.extensions, event.kind, event.source),
            depth,
            progress,
        )
    }
}

/// Run the actions of routes that an event triggers, until one fails.
pub open spec fn routes_handled(
    setup: SetupView,
    outside: Outside,
    event: EventView,
    routes: Seq<RouteView>,
    depth: usize,
    progress: Progress,
) -> Progress
    decreases MAX_DISPATCH_DEPTH + 1 - depth, 2int, routes.len(),
{
    if routes.len() == 0 {
        progress
    } else {
        let task = route_task(event, routes[0], depth);
        let next = action_handled(
            setup,
            outside,
            task->Act_action,
            task->Act_args,
            task->Act_capabilities,
            task->trigger,
            depth,
            progress,
        );
        if next.error is Some {
            next
        } else {
            routes_handled(setup, outside, event, routes.drop_first(), depth, next)
        }
    }
}

/// Run an action, and handle the events that it returns.
pub open spec fn action_handled(
    setup: SetupView,
    outside: Outside,
    action: Seq<char>,
    args: JsonView,
    capabilities: Seq<Seq<char>>,
    trigger: Option<EventView>,
    depth: usize,
    progress: Progress,
) -> Progress
    decreases MAX_DISPATCH_DEPTH + 1 - depth, 1int, 0int,
{
    match plan_of(setup, action, args, capabilities, trigger, depth) {
        Err(error) => failed(progress, error),
        Ok(planned) => {
            let effects = progress.effects.push(EffectView::Ran { planned });
            match (outside.run)(progress.effects, planned) {
                Err(error) => failed(Progress { effects, ..progress }, error),
                Ok(outputs) => outputs_handled(
                    setup,
                    outside,
                    planned.extension,
                    action,
                    outputs,
                    depth,
                    Progress {
                        reports: progress.reports.push((action, planned.extension.id)),
                        effects,
                        error: progress.error,
                    },
                ),
            }
        },
    }
}

/// Handle the events that an action returned, each with all that follows from it
/// before the next one, until one fails.
pub open spec fn outputs_handled(
    setup: SetupView,
    outside: Outside,
    extension: RegisteredView,
    action: Seq<char>,
    outputs: Seq<OutputEventView>,
    depth: usize,
    progress: Progress,
) -> Progress
    decreases MAX_DISPATCH_DEPTH + 1 - depth, 0int, outputs.len(),
{
    if outputs.len() == 0 || depth > MAX_DISPATCH_DEPTH {
        progress
    } else {
        let (id, now) = (outside.stamp)(progress.effects);
        match output_event(extension, action, outputs[0], id, now) {
            Err(error) => failed(progress, error),
            Ok(event) => {
                let noted = Progress {
                    effects: progress.effects.push(EffectView::Noted { event }),
                    ..progress
                };
                match (outside.note)(progress.effects, event) {
                    Err(error) if setup.log => failed(noted, error),
                    _ => {
                        let next = event_handled(setup, outside, event, deeper(depth), noted);
                        if next.error is Some {
                            next
                        } else {
                            outputs_handled(
                                setup,
                                outside,
                                extension,
                                action,
                                outputs.drop_first(),
                                depth,
                                next,
                            )
                        }
                    },
                }
            },
        }
    }
}

/// A dispatch together with what it did outside.
pub struct Machine {
    /// The dispatch.
    pub run: RunView,
    /// What was done outside, in order.
    pub effects: Seq<EffectView>,
    /// Why it failed, if it did.
    pub error: Option<ErrorView>,
}

/// One step, with the answer of the outside to what it asks for.
pub open spec fn moved(setup: SetupView, outside: Outside, machine: Machine) -> Machine {
    if machine.error is Some {
        machine
    } else {
        let (id, now) = (outside.stamp)(machine.effects);
        let (run, step) = stepped(setup, machine.run, id, now);
        match step {
            Err(error) => Machine { run, effects: machine.effects, error: Some(error) },
            Ok(StepView::Continue) => Machine { run, effects: machine.effects, error: None },
            Ok(StepView::Finished) => Machine { run, effects: machine.effects, error: None },
            Ok(StepView::Invoke { planned }) => {
                let effects = machine.effects.push(EffectView::Ran { planned });
                match (outside.run)(machine.effects, planned) {
                    Err(error) => Machine { run, effects, error: Some(error) },
                    Ok(outputs) => Machine {
                        run: resumed(run, planned, outputs),
                        effects,
                        error: None,
                    },
                }
            },
            Ok(StepView::Produced { event, store }) => {
                let effects = machine.effects.push(EffectView::Noted { event });
                match (outside.note)(machine.effects, event) {
                    Err(error) if store => Machine { run, effects, error: Some(error) },
                    _ => Machine { run, effects, error: None },
                }
            },
        }
    }
}

/// A number of steps.
pub open spec fn after(setup: SetupView, outside: Outside, machine: Machine, steps: nat) -> Machine
    decreases steps,
{
    if steps == 0 {
        machine
    } else {
        after(setup, outside, moved(setup, outside, machine), (steps - 1) as nat)
    }
}

/// A dispatch with a given agenda that got this far.
pub open spec fn machine_at(agenda: Seq<TaskView>, progress: Progress) -> Machine {
    Machine {
        run: RunView { agenda, reports: progress.reports },
        effects: progress.effects,
        error: progress.error,
    }
}

/// Whether a number of steps leads from a dispatch to some progress; unless it
/// failed, with just the rest of the agenda left.
pub open spec fn arrives(
    setup: SetupView,
    outside: Outside,
    start: Machine,
    rest: Seq<TaskView>,
    progress: Progress,
    steps: nat,
) -> bool {
    let last = after(setup, outside, start, steps);
    &&& last.effects == progress.effects
    &&& last.error == progress.error
    &&& last.run.reports == progress.reports
    &&& progress.error is None ==> last.run.agenda == rest
}

proof fn lemma_after_sum(
    setup: SetupView,
    outside: Outside,
    machine: Machine,
    first: nat,
    second: nat,
)
    ensures
        after(setup, outside, machine, first + second) == after(
            setup,
            outside,
            after(setup, outside, machine, first),
            second,
        ),
    decreases first,
{
    if first > 0 {
        lemma_after_sum(
            setup,
            outside,
            moved(setup, outside, machine),
            (first - 1) as nat,
            second,
        );
        assert((first + second - 1) as nat == (first - 1) as nat + second);
    }
}

proof fn lemma_event_handled(
    setup: SetupView,
    outside: Outside,
    event: EventView,
    depth: usize,
    rest: Seq<TaskView>,
    progress: Progress,
) -> (steps: nat)
    requires
        progress.error is None,
    ensures
        arrives(
            setup,
            outside,
            machine_at(seq![TaskView::Route { event, depth }] + rest, progress),
            rest,
            event_handled(setup, outside, event, depth, progress),
            steps,
        ),
    decreases MAX_DISPATCH_DEPTH + 1 - depth, 3int, 0int,
{
    let agenda = seq![TaskView::Route { event, depth }] + rest;
    let start = machine_at(agenda, progress);
    let next = moved(setup, outside, start);
    assert(agenda.drop_first() =~= rest);
    if depth > MAX_DISPATCH_DEPTH {
        assert(after(setup, outside, start, 1) == after(setup, outside, next, 0));
        1
    } else {
        let routes = matched_routes(setup.extensions, event.kind, event.source);
        assert(next == machine_at(tasks_of(event, routes, depth) + rest, progress));
        let more = lemma_routes_handled(setup, outside, event, routes, depth, rest, progress);
        assert(after(setup, outside, start, more + 1) == after(setup, outside, next, more));
        more + 1
    }
}

proof fn lemma_routes_handled(
    setup: SetupView,
    outside: Outside,
    event: EventView,
    routes: Seq<RouteView>,
    depth: usize,
    rest: Seq<TaskView>,
    progress: Progress,
) -> (steps: nat)
    requires
        progress.error is None,
    ensures
        arrives(
            setup,
            outside,
            machine_at(tasks_of(event, routes, depth) + rest, progress),
            rest,
            routes_handled(setup, outside, event, routes, depth, progress),
            steps,
        ),
    decreases MAX_DISPATCH_DEPTH + 1 - depth, 2int, routes.len(),
{
    let agenda = tasks_of(event, routes, depth) + rest;
    let start = machine_at(agenda, progress);
    if routes.len() == 0 {
        assert(agenda =~= rest);
        0
    } else {
        let task = route_task(event, routes[0], depth);
        let others = tasks_of(event, routes.drop_first(), depth) + rest;
        assert(agenda =~= seq![task] + others);
        let first = lemma_action_handled(
            setup,
            outside,
            task->Act_action,
            task->Act_args,
            task->Act_capabilities,
            task->trigger,
            depth,
            others,
            progress,
        );
        let next = action_handled(
            setup,
            outside,
            task->Act_action,
            task->Act_args,
            task->Act_capabilities,
            task->trigger,
            depth,
            progress,
        );
        if next.error is Some {
            first
        } else {
            let middle = after(setup, outside, start, first);
            assert(middle == machine_at(others, next));
            let second = lemma_routes_handled(
                setup,
                outside,
                event,
                routes.drop_first(),
                depth,
                rest,
                next,
            );
            lemma_after_sum(setup, outside, start, first, second);
            first + second
        }
    }
}

proof fn lemma_action_handled(
    setup: SetupView,
    outside: Outside,
    action: Seq<char>,
    args: JsonView,
    capabilities: Seq<Seq<char>>,
    trigger: Option<EventView>,
    depth: usize,
    rest: Seq<TaskView>,
    progress: Progress,
) -> (steps: nat)
    requires
        progress.error is None,
    ensures
        arrives(
            setup,
            outside,
            machine_at(
                seq![TaskView::Act { action, args, capabilities, trigger, depth }] + rest,
                progress,
            ),
            rest,
            action_handled(
                setup,
                outside,
                action,
                args,
                capabilities,
                trigger,
                depth,
                progress,
            ),
            steps,
        ),
    decreases MAX_DISPATCH_DEPTH + 1 - depth, 1int, 0int,
{
    let agenda = seq![TaskView::Act { action, args, capabilities, trigger, depth }] + rest;
    let start = machine_at(agenda, progress);
    let next = moved(setup, outside, start);
    assert(agenda.drop_first() =~= rest);
    assert(after(setup, outside, start, 1) == after(setup, outside, next, 0));
    match plan_of(setup, action, args, capabilities, trigger, depth) {
        Err(error) => 1,
        Ok(planned) => {
            let effects = progress.effects.push(EffectView::Ran { planned });
            match (outside.run)(progress.effects, planned) {
                Err(error) => 1,
                Ok(outputs) => {
                    let ran = Progress {
                        reports: progress.reports.push((action, planned.extension.id)),
                        effects,
                        error: progress.error,
                    };
                    let more = lemma_outputs_handled(
                        setup,
                        outside,
                        planned.extension,
                        action,
                        outputs,
                        depth,
                        rest,
                        ran,
                    );
                    assert(after(setup, outside, start, more + 1) == after(
                        setup,
                        outside,
                        next,
                        more,
                    ));
                    more + 1
                },
            }
        },
    }
}

proof fn lemma_outputs_handled(
    setup: SetupView,
    outside: Outside,
    extension: RegisteredView,
    action: Seq<char>,
    outputs: Seq<OutputEventView>,
    depth: usize,
    rest: Seq<TaskView>,
    progress: Progress,
) -> (steps: nat)
    requires
        progress.error is None,
        depth <= MAX_DISPATCH_DEPTH,
    ensures
        arrives(
            setup,
            outside,
            machine_at(
                seq![TaskView::Collect { extension, action, outputs, depth }] + rest,
                progress,
            ),
            rest,
            outputs_handled(setup, outside, extension, action, outputs, depth, progress),
            steps,
        ),
    decreases MAX_DISPATCH_DEPTH + 1 - depth, 0int, outputs.len(),
{
    let agenda = seq![TaskView::Collect { extension, action, outputs, depth }] + rest;
    let start = machine_at(agenda, progress);
    let next = moved(setup, outside, start);
    assert(agenda.drop_first() =~= rest);
    assert(after(setup, outside, start, 1) == after(setup, outside, next, 0));
    if outputs.len() == 0 {
        1
    } else {
        let (id, now) = (outside.stamp)(progress.effects);
        match output_event(extension, action, outputs[0], id, now) {
            Err(error) => 1,
            Ok(event) => {
                let noted = Progress {
                    effects: progress.effects.push(EffectView::Noted { event }),
                    ..progress
                };
                if setup.log && (outside.note)(progress.effects, event) is Err {
                    1
                } else {
                    let left = TaskView::Collect {
                        extension,
                        action,
                        outputs: outputs.drop_first(),
                        depth,
                    };
                    let route = TaskView::Route { event, depth: deeper(depth) };
                    let others = seq![left] + rest;
                    assert(seq![route, left] + rest =~= seq![route] + others);
                    assert(next == machine_at(seq![route] + others, noted));
                    let first = lemma_event_handled(
                        setup,
                        outside,
                        event,
                        deeper(depth),
                        others,
                        noted,
                    );
                    assert(after(setup, outside, start, first + 1) == after(
                        setup,
                        outside,
                        next,
                        first,
                    ));
                    let reached = event_handled(setup, outside, event, deeper(depth), noted);
                    if reached.error is Some {
                        first + 1
                    } else {
                        let middle = after(setup, outside, start, first + 1);
                        assert(middle == machine_at(others, reached));
                        let second = lemma_outputs_handled(
                            setup,
                            outside,
                            extension,
                            action,
                            outputs.drop_first(),
                            depth,
                            rest,
                            reached,
                        );
                        lemma_after_sum(setup, outside, start, first + 1, second);
                        first + 1 + second
                    }
                }
            },
        }
    }
}

/// Nothing was done yet.
pub open spec fn no_progress() -> Progress {
    Progress { reports: Seq::empty(), effects: Seq::empty(), error: None }
}

/// Whatever the outside answers, the steps of a dispatch of an event come to an
/// end, and what they did is to handle the event, depth first.
pub proof fn law_event_dispatch_is_depth_first(
    setup: SetupView,
    outside: Outside,
    event: EventView,
)
    ensures
        exists|steps: nat|
            arrives(
                setup,
                outside,
                machine_at(seq![TaskView::Route { event, depth: 0 }], no_progress()),
                Seq::empty(),
                event_handled(setup, outside, event, 0, no_progress()),
                steps,
            ),
{
    let steps = lemma_event_handled(setup, outside, event, 0, Seq::empty(), no_progress());
    assert(seq![TaskView::Route { event, depth: 0 }] + Seq::empty() =~= seq![
        TaskView::Route { event, depth: 0 },
    ]);
    assert(arrives(
        setup,
        outside,
        machine_at(seq![TaskView::Route { event, depth: 0 }], no_progress()),
        Seq::empty(),
        event_handled(setup, outside, event, 0, no_progress()),
        steps,
    ));
}

/// Whatever the outside answers, the steps of a dispatch of an action come to an
/// end, and what they did is to run the action and handle the events that it
/// returned, depth first.
pub proof fn law_action_dispatch_is_depth_first(
    setup: SetupView,
    outside: Outside,
    action: Seq<char>,
    args: JsonView,
    capabilities: Seq<Seq<char>>,
)
    ensures
        exists|steps: nat|
            arrives(
                setup,
                outside,
                machine_at(
                    seq![TaskView::Act { action, args, capabilities, trigger: None, depth: 0 }],
                    no_progress(),
                ),
                Seq::empty(),
                action_handled(
                    setup,
                    outside,
                    action,
                    args,
                    capabilities,
                    None,
                    0,
                    no_progress(),
                ),
                steps,
            ),
{
    let task = TaskView::Act { action, args, capabilities, trigger: None, depth: 0 };
    let steps = lemma_action_handled(
        setup,
        outside,
        action,
        args,
        capabilities,
        None,
        0,
        Seq::empty(),
        no_progress(),
    );
    assert(seq![task] + Seq::empty() =~= seq![task]);
    assert(arrives(
        setup,
        outside,
        machine_at(seq![task], no_progress()),
        Seq::empty(),
        action_handled(setup, outside, action, args, capabilities, None, 0, no_progress()),
        steps,
    ));
}

/// The rules that everything done outside keeps: an action runs only where an
/// installed extension exposes it and never too deep, a continuation handle goes
/// out at the top only, and a produced event comes from an installed extension
/// that declares it.
pub open spec fn keeps_rules(setup: SetupView, effect: EffectView) -> bool {
    match effect {
        EffectView::Ran { planned } => {
            &&& setup.extensions.contains(planned.extension)
            &&& exposes(planned.extension, planned.invocation.action)
            &&& planned.depth <= MAX_DISPATCH_DEPTH
            &&& planned.continuation is Some ==> planned.depth == 0 && setup.continuation is Some
        },
        EffectView::Noted { event } => exists|i: int|
            0 <= i < setup.extensions.len() && (#[trigger] setup.extensions[i]).id == event.source
                && setup.extensions[i].produces.contains(event.kind),
    }
}

/// Whether all of some effects keep the rules.
pub open spec fn all_keep_rules(setup: SetupView, effects: Seq<EffectView>) -> bool {
    forall|i: int| 0 <= i < effects.len() ==> keeps_rules(setup, #[trigger] effects[i])
}

/// The reports on the actions among some effects.
pub open spec fn reports_on(effects: Seq<EffectView>) -> Seq<ReportView>
    decreases effects.len(),
{
    if effects.len() == 0 {
        Seq::empty()
    } else {
        let before = reports_on(effects.drop_last());
        match effects.last() {
            EffectView::Ran { planned } => before.push(
                (planned.invocation.action, planned.extension.id),
            ),
            EffectView::Noted { .. } => before,
        }
    }
}

/// Whether progress is sound: its effects keep the rules, and unless it failed
/// there is one report for each action that ran, in order.
pub open spec fn sound(setup: SetupView, progress: Progress) -> bool {
    &&& all_keep_rules(setup, progress.effects)
    &&& progress.error is None ==> progress.reports == reports_on(progress.effects)
}

/// Handling an event keeps progress sound.
pub proof fn law_event_handled_is_sound(
    setup: SetupView,
    outside: Outside,
    event: EventView,
    depth: usize,
    progress: Progress,
)
    requires
        setup.extensions.len() <= usize::MAX,
        progress.error is None,
        sound(setup, progress),
    ensures
        sound(setup, event_handled(setup, outside, event, depth, progress)),
    decreases MAX_DISPATCH_DEPTH + 1 - depth, 3int, 0int,
{
    if depth <= MAX_DISPATCH_DEPTH {
        lemma_routes_sound(
            setup,
            outside,
            event,
            matched_routes(setup.extensions, event.kind, event.source),
            depth,
            progress,
        );
    }
}

proof fn lemma_routes_sound(
    setup: SetupView,
    outside: Outside,
    event: EventView,
    routes: Seq<RouteView>,
    depth: usize,
    progress: Progress,
)
    requires
        setup.extensions.len() <= usize::MAX,
        progress.error is None,
        sound(setup, progress),
    ensures
        sound(setup, routes_handled(setup, outside, event, routes, depth, progress)),
    decreases MAX_DISPATCH_DEPTH + 1 - depth, 2int, routes.len(),
{
    if routes.len() > 0 {
        let task = route_task(event, routes[0], depth);
        law_action_handled_is_sound(
            setup,
            outside,
            task->Act_action,
            task->Act_args,
            task->Act_capabilities,
            task->trigger,
            depth,
            progress,
        );
        let next = action_handled(
            setup,
            outside,
            task->Act_action,
            task->Act_args,
            task->Act_capabilities,
            task->trigger,
            depth,
            progress,
        );
        if next.error is None {
            lemma_routes_sound(setup, outside, event, routes.drop_first(), depth, next);
        }
    }
}

/// Running an action, and handling the events that it returns, keeps progress
/// sound.
pub proof fn law_action_handled_is_sound(
    setup: SetupView,
    outside: Outside,
    action: Seq<char>,
    args: JsonView,
    capabilities: Seq<Seq<char>>,
    trigger: Option<EventView>,
    depth: usize,
    progress: Progress,
)
    requires
        setup.extensions.len() <= usize::MAX,
        progress.error is None,
        sound(setup, progress),
    ensures
        sound(
            setup,
            action_handled(
                setup,
                outside,
                action,
                args,
                capabilities,
                trigger,
                depth,
                progress,
            ),
        ),
    decreases MAX_DISPATCH_DEPTH + 1 - depth, 1int, 0int,
{
    match plan_of(setup, action, args, capabilities, trigger, depth) {
        Err(error) => {},
        Ok(planned) => {
            let effect = EffectView::Ran { planned };
            let effects = progress.effects.push(effect);
            law_action_owner(setup.extensions, action);
            let at = action_owner(setup.extensions, action)->0;
            assert(setup.extensions.contains(setup.extensions[at as int]));
            assert(keeps_rules(setup, effect));
            assert(effects.drop_last() =~= progress.effects);
            match (outside.run)(progress.effects, planned) {
                Err(error) => {},
                Ok(outputs) => {
                    lemma_outputs_sound(
                        setup,
                        outside,
                        at as int,
                        action,
                        outputs,
                        depth,
                        Progress {
                            reports: progress.reports.push((action, planned.extension.id)),
                            effects,
                            error: progress.error,
                        },
                    );
                },
            }
        },
    }
}

proof fn lemma_outputs_sound(
    setup: SetupView,
    outside: Outside,
    at: int,
    action: Seq<char>,
    outputs: Seq<OutputEventView>,
    depth: usize,
    progress: Progress,
)
    requires
        setup.extensions.len() <= usize::MAX,
        0 <= at < setup.extensions.len(),
        progress.error is None,
        sound(setup, progress),
    ensures
        sound(
            setup,
            outputs_handled(
                setup,
                outside,
                setup.extensions[at],
                action,
                outputs,
                depth,
                progress,
            ),
        ),
    decreases MAX_DISPATCH_DEPTH + 1 - depth, 0int, outputs.len(),
{
    let extension = setup.extensions[at];
    if outputs.len() > 0 && depth <= MAX_DISPATCH_DEPTH {
        let (id, now) = (outside.stamp)(progress.effects);
        match output_event(extension, action, outputs[0], id, now) {
            Err(error) => {},
            Ok(event) => {
                let effect = EffectView::Noted { event };
                let noted = Progress { effects: progress.effects.push(effect), ..progress };
                assert(setup.extensions[at].id == event.source);
                assert(keeps_rules(setup, effect));
                assert(noted.effects.drop_last() =~= progress.effects);
                assert(sound(setup, noted));
                if !(setup.log && (outside.note)(progress.effects, event) is Err) {
                    law_event_handled_is_sound(setup, outside, event, deeper(depth), noted);
                    let next = event_handled(setup, outside, event, deeper(depth), noted);
                    if next.error is None {
                        lemma_outputs_sound(
                            setup,
                            outside,
                            at,
                            action,
                            outputs.drop_first(),
                            depth,
                            next,
                        );
                    }
                }
            },
        }
    }
}

} // verus!
