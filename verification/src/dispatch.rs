//! Dispatch of events to routes and of actions to extensions, step by step.
//!
//! A dispatch keeps an agenda of what is still to be done. A step takes its first
//! entry and either puts what follows from it in front of the rest, or asks for
//! something outside: to run an action, or to take note of an event that an
//! action produced.
use vstd::prelude::*;

use crate::context::{
    ActionInvocation, ActionOutput, ActionOutputEvent, ContinuationContext, ContinuationView,
    EventContext, EventContextView, InvocationView, OutputEventView,
};
use crate::continuation::{
    created, store_after_create, ContinuationGrantRequest, ContinuationStore, GrantRequestView,
    DEFAULT_CONTINUATION_TTL_MS,
};
use crate::error::{
    checked, each_checked, law_first_failing_item_decides, lemma_each_fails_at, lemma_each_next,
    Checked, ErrorView, SpindleError,
};
use crate::event::{built, event_outcome, law_event_holds_its_parts, Event, EventView};
use crate::identity::{is_uuid_text, lemma_some_uuid, new_id};
use crate::installed::{
    action_owner, handles, law_action_owner, matched_handlers, matched_routes, InstalledSurface,
    RouteHandler,
};
use crate::json::{
    law_merge_prefers_second, member, members_of, merge_args, merged, Json, JsonView,
};
use crate::manifest::{ExtensionAction, ExtensionRoute};
use crate::name_map::{ascending, lookup, names};
use crate::registered::{RegisteredExtension, RegisteredView};
use crate::registration::RouteView;
use crate::routes::exposes;
use crate::text::{contains_text, optional_view, owned_texts, views};
use crate::validate::{name_check, text_check};
use crate::visible::visible_to;

verus! {

/// How deep the events that actions produce may be dispatched in turn.
pub const MAX_DISPATCH_DEPTH: usize = 16;

/// Result of dispatching one action to one installed extension.
#[derive(Debug, PartialEq, Eq)]
pub struct DispatchReport {
    /// Action that was dispatched.
    pub action: String,
    /// Extension that handled the action.
    pub extension: String,
}

/// Something that a dispatch has still to do.
#[derive(Debug, PartialEq, Eq)]
pub enum DispatchTask {
    /// Find the routes that an event triggers.
    Route {
        /// The event.
        event: Event,
        /// How deep it was produced.
        depth: usize,
    },
    /// Run an action.
    Act {
        /// Action name.
        action: String,
        /// Action arguments.
        args: Json,
        /// Capabilities that come with the request.
        capabilities: Vec<String>,
        /// The event that triggered the action.
        trigger: Option<Event>,
        /// How deep the action is triggered.
        depth: usize,
    },
    /// Take up the events that an action produced.
    Collect {
        /// The extension that handled the action.
        extension: RegisteredExtension,
        /// Action name.
        action: String,
        /// The events that are left.
        outputs: Vec<ActionOutputEvent>,
        /// How deep the action was triggered.
        depth: usize,
    },
}

/// An action that is to be run by an extension.
#[derive(Debug, PartialEq, Eq)]
pub struct PlannedAction {
    /// The extension that handles the action.
    pub extension: RegisteredExtension,
    /// What is handed to the extension, without a continuation handle.
    pub invocation: ActionInvocation,
    /// The continuation handle to create first, if any.
    pub continuation: Option<ContinuationGrantRequest>,
    /// How deep the action is triggered.
    pub depth: usize,
}

/// What a step asks for.
#[derive(Debug, PartialEq, Eq)]
pub enum DispatchStep {
    /// Nothing: go on with the next step.
    Continue,
    /// Run an action, and resume with its output.
    Invoke {
        /// The action to run.
        planned: PlannedAction,
    },
    /// Take note of an event that an action produced, then go on.
    Produced {
        /// The event.
        event: Event,
        /// Whether it goes to the event log.
        store: bool,
    },
    /// Nothing is left to do.
    Finished,
}

/// A dispatch under way.
#[derive(Debug, PartialEq, Eq)]
pub struct DispatchRun {
    /// What is still to be done, next first.
    pub agenda: Vec<DispatchTask>,
    /// The actions that ran, in order.
    pub reports: Vec<DispatchReport>,
}

/// Dispatches events and actions through installed extensions.
#[derive(Debug, PartialEq, Eq)]
pub struct Dispatcher {
    /// The installed extensions.
    pub surface: InstalledSurface,
    /// Whether produced events go to the event log.
    pub log: bool,
    /// The socket for continuation handles, where they are handed out.
    pub continuation: Option<String>,
}

/// A report with its texts as characters: the action, and the extension.
pub type ReportView = (Seq<char>, Seq<char>);

/// A task with its texts as characters.
pub enum TaskView {
    /// Find the routes that an event triggers.
    Route {
        /// The event.
        event: EventView,
        /// How deep it was produced.
        depth: usize,
    },
    /// Run an action.
    Act {
        /// Action name.
        action: Seq<char>,
        /// Action arguments.
        args: JsonView,
        /// Capabilities that come with the request.
        capabilities: Seq<Seq<char>>,
        /// The event that triggered the action.
        trigger: Option<EventView>,
        /// How deep the action is triggered.
        depth: usize,
    },
    /// Take up the events that an action produced.
    Collect {
        /// The extension that handled the action.
        extension: RegisteredView,
        /// Action name.
        action: Seq<char>,
        /// The events that are left.
        outputs: Seq<OutputEventView>,
        /// How deep the action was triggered.
        depth: usize,
    },
}

/// A planned action with its texts as characters.
pub struct PlannedView {
    /// The extension that handles the action.
    pub extension: RegisteredView,
    /// What is handed to the extension.
    pub invocation: InvocationView,
    /// The continuation handle to create first.
    pub continuation: Option<GrantRequestView>,
    /// How deep the action is triggered.
    pub depth: usize,
}

/// What a step asks for, with its texts as characters.
pub enum StepView {
    /// Nothing.
    Continue,
    /// Run an action.
    Invoke {
        /// The action to run.
        planned: PlannedView,
    },
    /// Take note of an event.
    Produced {
        /// The event.
        event: EventView,
        /// Whether it goes to the event log.
        store: bool,
    },
    /// Nothing is left to do.
    Finished,
}

/// A dispatch under way with its texts as characters.
pub struct RunView {
    /// What is still to be done, next first.
    pub agenda: Seq<TaskView>,
    /// The actions that ran, in order.
    pub reports: Seq<ReportView>,
}

/// A dispatcher with its texts as characters.
pub struct SetupView {
    /// The installed extensions.
    pub extensions: Seq<RegisteredView>,
    /// Whether produced events go to the event log.
    pub log: bool,
    /// The socket for continuation handles.
    pub continuation: Option<Seq<char>>,
}

impl View for DispatchReport {
    type V = ReportView;

    open spec fn view(&self) -> ReportView {
        (self.action@, self.extension@)
    }
}

impl View for DispatchTask {
    type V = TaskView;

    open spec fn view(&self) -> TaskView {
        match *self {
            DispatchTask::Route { event, depth } => TaskView::Route { event: event@, depth },
            DispatchTask::Act { action, args, capabilities, trigger, depth } => TaskView::Act {
                action: action@,
                args: args@,
                capabilities: views(capabilities@),
                trigger: optional_view(trigger),
                depth,
            },
            DispatchTask::Collect { extension, action, outputs, depth } => TaskView::Collect {
                extension: extension@,
                action: action@,
                outputs: views(outputs@),
                depth,
            },
        }
    }
}

impl View for PlannedAction {
    type V = PlannedView;

    open spec fn view(&self) -> PlannedView {
        PlannedView {
            extension: self.extension@,
            invocation: self.invocation@,
            continuation: optional_view(self.continuation),
            depth: self.depth,
        }
    }
}

impl View for DispatchStep {
    type V = StepView;

    open spec fn view(&self) -> StepView {
        match *self {
            DispatchStep::Continue => StepView::Continue,
            DispatchStep::Invoke { planned } => StepView::Invoke { planned: planned@ },
            DispatchStep::Produced { event, store } => StepView::Produced { event: event@, store },
            DispatchStep::Finished => StepView::Finished,
        }
    }
}

impl View for DispatchRun {
    type V = RunView;

    open spec fn view(&self) -> RunView {
        RunView { agenda: views(self.agenda@), reports: views(self.reports@) }
    }
}

impl View for Dispatcher {
    type V = SetupView;

    open spec fn view(&self) -> SetupView {
        SetupView {
            extensions: self.surface@,
            log: self.log,
            continuation: optional_view(self.continuation),
        }
    }
}

/// The rule for one required capability: it is granted.
pub open spec fn capability_checker(action: Seq<char>, granted: Seq<Seq<char>>) -> spec_fn(
    Seq<char>,
) -> Checked {
    |capability: Seq<char>|
        if granted.contains(capability) {
            Ok(())
        } else {
            Err(ErrorView::MissingActionCapability { action, capability })
        }
}

/// The rule for an action that is to run: all it requires is granted.
pub open spec fn capabilities_check(
    action: Seq<char>,
    required: Seq<Seq<char>>,
    granted: Seq<Seq<char>>,
) -> Checked {
    each_checked(required, capability_checker(action, granted))
}

/// The rule for an event that an action returns: the extension declares it.
pub open spec fn produced_check(
    extension: RegisteredView,
    action: Seq<char>,
    kind: Seq<char>,
) -> Checked {
    if extension.produces.contains(kind) {
        Ok(())
    } else {
        Err(ErrorView::UndeclaredProducedEvent { extension: extension.id, action, kind })
    }
}

/// Those of granted capabilities that an action requires.
pub open spec fn passed_on(granted: Seq<Seq<char>>, required: Seq<Seq<char>>) -> Seq<Seq<char>>
    decreases granted.len(),
{
    if granted.len() == 0 {
        Seq::empty()
    } else {
        let before = passed_on(granted.drop_last(), required);
        if required.contains(granted.last()) {
            before.push(granted.last())
        } else {
            before
        }
    }
}

/// The continuation handle that comes with an action: only at the top, and only
/// where handles are handed out.
pub open spec fn continuation_for(
    socket: Option<Seq<char>>,
    extension: Seq<char>,
    action: Seq<char>,
    required: Seq<Seq<char>>,
    granted: Seq<Seq<char>>,
    depth: usize,
) -> Option<GrantRequestView> {
    match socket {
        Some(path) => if depth == 0 {
            Some(
                GrantRequestView {
                    extension,
                    action,
                    capabilities: passed_on(granted, required),
                    socket: path,
                    ttl_ms: DEFAULT_CONTINUATION_TTL_MS,
                },
            )
        } else {
            None
        },
        None => None,
    }
}

/// The task that a route makes of an event: its action, with the event payload
/// and the arguments of the route on top, and the capabilities of the route.
pub open spec fn route_task(event: EventView, route: RouteView, depth: usize) -> TaskView {
    TaskView::Act {
        action: route.action,
        args: JsonView::Object(merged(members_of(event.data), members_of(route.args))),
        capabilities: route.capabilities,
        trigger: Some(event),
        depth,
    }
}

/// The tasks that routes make of an event.
pub open spec fn tasks_of(event: EventView, routes: Seq<RouteView>, depth: usize) -> Seq<TaskView> {
    Seq::new(routes.len(), |i: int| route_task(event, routes[i], depth))
}

/// What an action sees of the event that triggered it.
pub open spec fn trigger_context(trigger: Option<EventView>) -> Option<EventContextView> {
    match trigger {
        Some(event) => Some(EventContextView { kind: event.kind, data: event.data }),
        None => None,
    }
}

/// The plan for an action, or why it does not run.
pub open spec fn plan_of(
    setup: SetupView,
    action: Seq<char>,
    args: JsonView,
    capabilities: Seq<Seq<char>>,
    trigger: Option<EventView>,
    depth: usize,
) -> Result<PlannedView, ErrorView> {
    if depth > MAX_DISPATCH_DEPTH {
        Err(ErrorView::DispatchDepthExceeded)
    } else {
        match action_owner(setup.extensions, action) {
            None => Err(ErrorView::ActionNotInstalled { action }),
            Some(at) => {
                let extension = setup.extensions[at as int];
                let required = lookup(extension.actions, action)->0;
                match capabilities_check(action, required, capabilities) {
                    Err(error) => Err(error),
                    Ok(_) => Ok(
                        PlannedView {
                            extension,
                            invocation: InvocationView {
                                action,
                                args,
                                event: trigger_context(trigger),
                                extension: Some(visible_to(setup.extensions, extension.id)),
                                continuation: None,
                            },
                            continuation: continuation_for(
                                setup.continuation,
                                extension.id,
                                action,
                                required,
                                capabilities,
                                depth,
                            ),
                            depth,
                        },
                    ),
                }
            },
        }
    }
}

/// The event that an output becomes, or why it does not: the kernel, not the
/// action, says where it comes from.
pub open spec fn output_event(
    extension: RegisteredView,
    action: Seq<char>,
    output: OutputEventView,
    id: Seq<char>,
    now: u64,
) -> Result<EventView, ErrorView> {
    match produced_check(extension, action, output.kind) {
        Err(error) => Err(error),
        Ok(_) => built(id, output.kind, extension.id, output.subject, output.data, now),
    }
}

/// One deeper, up to the first depth that is too deep.
pub open spec fn deeper(depth: usize) -> usize {
    if depth > MAX_DISPATCH_DEPTH {
        depth
    } else {
        (depth + 1) as usize
    }
}

/// A step: the run after it, and what it asks for or why the dispatch fails.
pub open spec fn stepped(setup: SetupView, run: RunView, id: Seq<char>, now: u64) -> (
    RunView,
    Result<StepView, ErrorView>,
) {
    if run.agenda.len() == 0 {
        (run, Ok(StepView::Finished))
    } else {
        let rest = run.agenda.drop_first();
        let without = RunView { agenda: rest, reports: run.reports };
        match run.agenda[0] {
            TaskView::Route { event, depth } => if depth > MAX_DISPATCH_DEPTH {
                (without, Err(ErrorView::DispatchDepthExceeded))
            } else {
                let routes = matched_routes(setup.extensions, event.kind, event.source);
                (
                    RunView {
                        agenda: tasks_of(event, routes, depth) + rest,
                        reports: run.reports,
                    },
                    Ok(StepView::Continue),
                )
            },
            TaskView::Act { action, args, capabilities, trigger, depth } => match plan_of(
                setup,
                action,
                args,
                capabilities,
                trigger,
                depth,
            ) {
                Err(error) => (without, Err(error)),
                Ok(planned) => (without, Ok(StepView::Invoke { planned })),
            },
            TaskView::Collect { extension, action, outputs, depth } => if outputs.len() == 0 {
                (without, Ok(StepView::Continue))
            } else {
                match output_event(extension, action, outputs[0], id, now) {
                    Err(error) => (without, Err(error)),
                    Ok(event) => {
                        let left = TaskView::Collect {
                            extension,
                            action,
                            outputs: outputs.drop_first(),
                            depth,
                        };
                        let next = TaskView::Route { event, depth: deeper(depth) };
                        (
                            RunView { agenda: seq![next, left] + rest, reports: run.reports },
                            Ok(StepView::Produced { event, store: setup.log }),
                        )
                    },
                }
            },
        }
    }
}

/// Whether the next step of a run may build an event: an action's output holds one
/// that the action's extension declares.
pub open spec fn builds_event(run: RunView) -> bool {
    run.agenda.len() > 0 && match run.agenda[0] {
        TaskView::Collect { extension, action, outputs, .. } => outputs.len() > 0
            && produced_check(extension, action, outputs[0].kind) is Ok,
        _ => false,
    }
}

/// A step that builds no event is the same at any time and under any drawn
/// identifier.
pub proof fn law_identifiers_are_for_produced_events(
    setup: SetupView,
    run: RunView,
    id: Seq<char>,
    other_id: Seq<char>,
    now: u64,
    other_now: u64,
)
    requires
        !builds_event(run),
    ensures
        stepped(setup, run, id, now) == stepped(setup, run, other_id, other_now),
{
}

/// The run after an action returned its output.
pub open spec fn resumed(
    run: RunView,
    planned: PlannedView,
    outputs: Seq<OutputEventView>,
) -> RunView {
    let collect = TaskView::Collect {
        extension: planned.extension,
        action: planned.invocation.action,
        outputs,
        depth: planned.depth,
    };
    RunView {
        agenda: seq![collect] + run.agenda,
        reports: run.reports.push((planned.invocation.action, planned.extension.id)),
    }
}

/// The view of a step or an error.
pub open spec fn step_outcome(result: Result<DispatchStep, SpindleError>) -> Result<
    StepView,
    ErrorView,
> {
    match result {
        Ok(step) => Ok(step@),
        Err(error) => Err(error@),
    }
}

/// Check that all an action requires is granted.
pub fn ensure_capabilities(
    action: &str,
    definition: &ExtensionAction,
    granted: &[String],
) -> (result: Result<(), SpindleError>)
    ensures
        checked(result) == capabilities_check(action@, definition@, views(granted@)),
{
    let ghost all = definition@;
    let ghost check = capability_checker(action@, views(granted@));
    let mut i: usize = 0;
    assert(all.take(0) =~= Seq::empty());
    while i < definition.capabilities.len()
        invariant
            i <= definition.capabilities@.len(),
            all == views(definition.capabilities@),
            check == capability_checker(action@, views(granted@)),
            each_checked(all.take(i as int), check) is Ok,
        decreases definition.capabilities@.len() - i,
    {
        assert(all[i as int] == definition.capabilities@[i as int]@);
        if !contains_text(granted, definition.capabilities[i].as_str()) {
            proof {
                lemma_each_fails_at(all, check, i as int);
            }
            return Err(
                SpindleError::MissingActionCapability {
                    action: action.to_owned(),
                    capability: definition.capabilities[i].clone(),
                },
            );
        }
        proof {
            lemma_each_next(all, check, i as int);
        }
        i = i + 1;
    }
    assert(all.take(all.len() as int) =~= all);
    Ok(())
}

/// Check that an extension declares an event that one of its actions returns.
pub fn ensure_produced_event(extension: &RegisteredExtension, action: &str, kind: &str) -> (result:
    Result<(), SpindleError>)
    ensures
        checked(result) == produced_check(extension@, action@, kind@),
{
    if contains_text(extension.produces.as_slice(), kind) {
        return Ok(());
    }
    Err(
        SpindleError::UndeclaredProducedEvent {
            extension: extension.id.clone(),
            action: action.to_owned(),
            kind: kind.to_owned(),
        },
    )
}

/// The event that an output becomes: it comes from the extension.
pub fn action_output_event_to_event(
    event: &ActionOutputEvent,
    extension_id: &str,
    id: String,
    now: u64,
) -> (result: Result<Event, SpindleError>)
    ensures
        event_outcome(result) == built(
            id@,
            event@.kind,
            extension_id@,
            event@.subject,
            event@.data,
            now,
        ),
{
    Event::builder(event.kind.clone(), extension_id.to_owned()).subject(
        event.subject.clone(),
    ).data(event.data.clone()).build_with(id, now)
}

fn granted_capabilities(granted: &[String], required: &[String]) -> (kept: Vec<String>)
    ensures
        views(kept@) == passed_on(views(granted@), views(required@)),
{
    let ghost all = views(granted@);
    let mut kept: Vec<String> = Vec::new();
    let mut i: usize = 0;
    assert(all.take(0) =~= Seq::empty());
    assert(views(kept@) =~= passed_on(all.take(0), views(required@)));
    while i < granted.len()
        invariant
            i <= granted@.len(),
            all == views(granted@),
            views(kept@) == passed_on(all.take(i as int), views(required@)),
        decreases granted@.len() - i,
    {
        let ghost before = views(kept@);
        assert(all.take(i + 1).drop_last() =~= all.take(i as int));
        assert(all.take(i + 1).last() == granted@[i as int]@);
        if contains_text(required, granted[i].as_str()) {
            kept.push(granted[i].clone());
            assert(views(kept@) =~= before.push(granted@[i as int]@));
        }
        i = i + 1;
    }
    assert(all.take(all.len() as int) =~= all);
    kept
}

impl PlannedAction {
    /// What is handed to the extension, with the continuation handle that the
    /// plan asks for created in the store.
    pub fn invocation_with_handle(&self, store: &mut ContinuationStore, now: u64) -> (result: Result<
        ActionInvocation,
        SpindleError,
    >)
        ensures
            old(store).well_formed() ==> final(store).well_formed(),
            match self.continuation {
                None => {
                    &&& result is Ok
                    &&& result->Ok_0@ == (InvocationView { continuation: None, ..self.invocation@ })
                    &&& final(store)@ == old(store)@
                },
                Some(request) => exists|id: Seq<char>|
                    is_uuid_text(id) && final(store)@ == #[trigger] store_after_create(
                        old(store)@,
                        id,
                        request@,
                        now,
                    ) && match result {
                        Ok(invocation) => created(id, request@, now) is Ok && invocation@ == (
                        InvocationView {
                            continuation: Some(created(id, request@, now)->Ok_0),
                            ..self.invocation@
                        }),
                        Err(error) => created(id, request@, now) == Err::<
                            ContinuationView,
                            ErrorView,
                        >(error@),
                    },
            },
    {
        match &self.continuation {
            None => Ok(self.invocation.clone().with_continuation(None)),
            Some(request) => {
                let handle: Result<ContinuationContext, SpindleError> = store.create_with_lifetime(
                    request,
                    now,
                );
                match handle {
                    Ok(context) => Ok(self.invocation.clone().with_continuation(Some(context))),
                    Err(error) => Err(error),
                }
            },
        }
    }
}

impl DispatchRun {
    /// Whether the next step may build an event, and so needs an identifier and the
    /// time.
    pub fn builds_event(&self) -> (builds: bool)
        ensures
            builds == builds_event(self@),
    {
        if self.agenda.len() == 0 {
            return false;
        }
        assert(self@.agenda[0] == self.agenda@[0]@);
        match &self.agenda[0] {
            DispatchTask::Collect { extension, action, outputs, .. } => {
                if outputs.len() == 0 {
                    return false;
                }
                assert(views(outputs@)[0] == outputs@[0]@);
                ensure_produced_event(
                    extension,
                    action.as_str(),
                    outputs[0].kind.as_str(),
                ).is_ok()
            },
            _ => false,
        }
    }

    /// Take up the output of an action that ran.
    pub fn resume(&mut self, planned: PlannedAction, output: ActionOutput)
        ensures
            final(self)@ == resumed(old(self)@, planned@, output@),
    {
        let ghost before = self@;
        let action: String = planned.invocation.action;
        let report: DispatchReport = DispatchReport {
            action: action.clone(),
            extension: planned.extension.id.clone(),
        };
        self.reports.push(report);
        assert(views(self.reports@) =~= before.reports.push(report@));
        let collect: DispatchTask = DispatchTask::Collect {
            extension: planned.extension,
            action,
            outputs: output.events,
            depth: planned.depth,
        };
        self.agenda.insert(0, collect);
        assert(views(self.agenda@) =~= seq![collect@] + before.agenda);
    }
}

impl Dispatcher {
    /// Create a dispatcher over the installed extensions.
    pub fn new(extensions: Vec<RegisteredExtension>) -> (dispatcher: Self)
        ensures
            dispatcher.well_formed(),
            dispatcher@ == (SetupView {
                extensions: views(extensions@),
                log: false,
                continuation: None,
            }),
    {
        Dispatcher { surface: InstalledSurface::load(extensions), log: false, continuation: None }
    }

    /// Create a dispatcher whose produced events go to the event log.
    pub fn with_log(extensions: Vec<RegisteredExtension>) -> (dispatcher: Self)
        ensures
            dispatcher.well_formed(),
            dispatcher@ == (SetupView {
                extensions: views(extensions@),
                log: true,
                continuation: None,
            }),
    {
        Dispatcher { surface: InstalledSurface::load(extensions), log: true, continuation: None }
    }

    /// Say whether continuation handles are handed out, and for which socket.
    pub fn with_continuation_config(self, continuation: Option<String>) -> (dispatcher: Self)
        ensures
            self.well_formed() ==> dispatcher.well_formed(),
            dispatcher@ == (SetupView { continuation: optional_view(continuation), ..self@ }),
    {
        let mut dispatcher: Self = self;
        dispatcher.continuation = continuation;
        dispatcher
    }

    /// The indexes are those of the extensions.
    pub open spec fn well_formed(self) -> bool {
        self.surface.well_formed()
    }

    /// Start to dispatch the routes that an event triggers.
    pub fn dispatch_event(&self, event: &Event) -> (run: DispatchRun)
        ensures
            run@.agenda == seq![TaskView::Route { event: event@, depth: 0 }],
            run@.reports == Seq::<ReportView>::empty(),
    {
        let mut agenda: Vec<DispatchTask> = Vec::new();
        agenda.push(DispatchTask::Route { event: event.clone(), depth: 0 });
        let run: DispatchRun = DispatchRun { agenda, reports: Vec::new() };
        assert(run@.agenda =~= seq![TaskView::Route { event: event@, depth: 0 }]);
        assert(run@.reports =~= Seq::<ReportView>::empty());
        run
    }

    /// Start to dispatch an action directly.
    pub fn dispatch_action(&self, action: &str, args: &Json, capabilities: &[String]) -> (run:
        DispatchRun)
        ensures
            run@.agenda == seq![
                TaskView::Act {
                    action: action@,
                    args: args@,
                    capabilities: views(capabilities@),
                    trigger: None,
                    depth: 0,
                },
            ],
            run@.reports == Seq::<ReportView>::empty(),
    {
        let mut agenda: Vec<DispatchTask> = Vec::new();
        let task: DispatchTask = DispatchTask::Act {
            action: action.to_owned(),
            args: args.clone(),
            capabilities: owned_texts(capabilities),
            trigger: None,
            depth: 0,
        };
        agenda.push(task);
        let run: DispatchRun = DispatchRun { agenda, reports: Vec::new() };
        assert(run@.agenda =~= seq![task@]);
        assert(run@.reports =~= Seq::<ReportView>::empty());
        run
    }

    fn tasks_for(&self, event: &Event, depth: usize) -> (tasks: Vec<DispatchTask>)
        requires
            self.well_formed(),
        ensures
            views(tasks@) == tasks_of(
                event@,
                matched_routes(self@.extensions, event@.kind, event@.source),
                depth,
            ),
    {
        let handlers: Vec<RouteHandler> = self.surface.routes_for_event(event);
        let ghost routes = matched_routes(self@.extensions, event@.kind, event@.source);
        let mut tasks: Vec<DispatchTask> = Vec::new();
        let mut i: usize = 0;
        while i < handlers.len()
            invariant
                i <= handlers@.len(),
                tasks@.len() == i,
                views(handlers@) == matched_handlers(self@.extensions, event@.kind, event@.source),
                routes == matched_routes(self@.extensions, event@.kind, event@.source),
                forall|j: int|
                    0 <= j < handlers@.len() ==> handles(
                        self@.extensions,
                        (#[trigger] handlers@[j])@,
                        event@.kind,
                    ),
                forall|j: int|
                    0 <= j < i ==> (#[trigger] tasks@[j])@ == route_task(event@, routes[j], depth),
            decreases handlers@.len() - i,
        {
            let handler: RouteHandler = handlers[i];
            assert(handles(self@.extensions, handlers@[i as int]@, event@.kind));
            assert(views(handlers@)[i as int] == handler@);
            let route: &ExtensionRoute =
                &self.surface.extensions[handler.extension].routes[handler.route];
            assert(route@ == routes[i as int]);
            tasks.push(
                DispatchTask::Act {
                    action: route.action.clone(),
                    args: merge_args(&event.data, &route.args),
                    capabilities: owned_texts(route.capabilities.as_slice()),
                    trigger: Some(event.clone()),
                    depth,
                },
            );
            i = i + 1;
        }
        assert(views(tasks@) =~= tasks_of(event@, routes, depth));
        tasks
    }

    fn continuation_request(
        &self,
        extension: &str,
        action: &str,
        required: &[String],
        granted: &[String],
        depth: usize,
    ) -> (request: Option<ContinuationGrantRequest>)
        ensures
            optional_view(request) == continuation_for(
                self@.continuation,
                extension@,
                action@,
                views(required@),
                views(granted@),
                depth,
            ),
    {
        match &self.continuation {
            None => None,
            Some(socket) => if depth != 0 {
                None
            } else {
                Some(
                    ContinuationGrantRequest {
                        extension: extension.to_owned(),
                        action: action.to_owned(),
                        capabilities: granted_capabilities(granted, required),
                        socket: socket.clone(),
                        ttl_ms: DEFAULT_CONTINUATION_TTL_MS,
                    },
                )
            },
        }
    }

    /// Plan an action: who runs it, with what.
    pub fn plan_action(
        &self,
        action: String,
        args: Json,
        capabilities: &[String],
        trigger: &Option<Event>,
        depth: usize,
    ) -> (result: Result<PlannedAction, SpindleError>)
        requires
            self.well_formed(),
        ensures
            match result {
                Ok(planned) => plan_of(
                    self@,
                    action@,
                    args@,
                    views(capabilities@),
                    optional_view(*trigger),
                    depth,
                ) == Ok::<PlannedView, ErrorView>(planned@),
                Err(error) => plan_of(
                    self@,
                    action@,
                    args@,
                    views(capabilities@),
                    optional_view(*trigger),
                    depth,
                ) == Err::<PlannedView, ErrorView>(error@),
            },
    {
        if depth > MAX_DISPATCH_DEPTH {
            return Err(SpindleError::DispatchDepthExceeded);
        }
        match self.surface.action_handler(action.as_str()) {
            None => Err(SpindleError::ActionNotInstalled { action }),
            Some((at, definition)) => {
                match ensure_capabilities(action.as_str(), definition, capabilities) {
                    Ok(()) => {},
                    Err(error) => {
                        return Err(error);
                    },
                }
                let extension: &RegisteredExtension = &self.surface.extensions[at];
                assert(extension@ == self@.extensions[at as int]);
                let continuation: Option<ContinuationGrantRequest> = self.continuation_request(
                    extension.id.as_str(),
                    action.as_str(),
                    definition.capabilities.as_slice(),
                    capabilities,
                    depth,
                );
                let event: Option<EventContext> = match trigger {
                    Some(event) => Some(EventContext::new(event.kind.as_str(), event.data.clone())),
                    None => None,
                };
                let invocation: ActionInvocation = ActionInvocation::new(
                    action.as_str(),
                    args,
                ).with_event(event).with_extension(
                    Some(self.surface.context_for(extension.id.as_str())),
                );
                Ok(PlannedAction { extension: extension.clone(), invocation, continuation, depth })
            },
        }
    }

    /// Do one step of a dispatch. A fresh identifier is drawn where the step builds
    /// an event.
    pub fn advance(&self, run: &mut DispatchRun, now: u64) -> (result: Result<
        DispatchStep,
        SpindleError,
    >)
        requires
            self.well_formed(),
        ensures
            exists|id: Seq<char>|
                is_uuid_text(id) && #[trigger] stepped(self@, old(run)@, id, now) == (
                    final(run)@,
                    step_outcome(result),
                ),
            !builds_event(old(run)@) ==> forall|id: Seq<char>, time: u64| #[trigger]
                stepped(self@, old(run)@, id, time) == (final(run)@, step_outcome(result)),
    {
        if run.builds_event() {
            let id: String = new_id();
            return self.step(run, id, now);
        }
        let ghost before = run@;
        let unused: String = String::new();
        let ghost empty = unused@;
        let result: Result<DispatchStep, SpindleError> = self.step(run, unused, now);
        proof {
            let id = lemma_some_uuid();
            assert forall|id: Seq<char>, time: u64| #[trigger]
                stepped(self@, before, id, time) == (run@, step_outcome(result)) by {
                law_identifiers_are_for_produced_events(self@, before, id, empty, time, now);
            }
            assert(stepped(self@, before, id, now) == (run@, step_outcome(result)));
        }
        result
    }

    /// Do one step of a dispatch. The identifier and the time are those of the
    /// event that the step may build.
    pub fn step(&self, run: &mut DispatchRun, id: String, now: u64) -> (result: Result<
        DispatchStep,
        SpindleError,
    >)
        requires
            self.well_formed(),
        ensures
            stepped(self@, old(run)@, id@, now) == (final(run)@, step_outcome(result)),
    {
        let ghost before = run@;
        if run.agenda.len() == 0 {
            return Ok(DispatchStep::Finished);
        }
        let task: DispatchTask = run.agenda.remove(0);
        let ghost rest = before.agenda.drop_first();
        assert(views(run.agenda@) =~= rest);
        assert(before.agenda[0] == task@);
        match task {
            DispatchTask::Route { event, depth } => {
                if depth > MAX_DISPATCH_DEPTH {
                    return Err(SpindleError::DispatchDepthExceeded);
                }
                let mut tasks: Vec<DispatchTask> = self.tasks_for(&event, depth);
                let ghost front = views(tasks@);
                tasks.append(&mut run.agenda);
                assert(views(tasks@) =~= front + rest);
                run.agenda = tasks;
                Ok(DispatchStep::Continue)
            },
            DispatchTask::Act { action, args, capabilities, trigger, depth } => {
                match self.plan_action(action, args, capabilities.as_slice(), &trigger, depth) {
                    Ok(planned) => Ok(DispatchStep::Invoke { planned }),
                    Err(error) => Err(error),
                }
            },
            DispatchTask::Collect { extension, action, outputs, depth } => {
                if outputs.len() == 0 {
                    return Ok(DispatchStep::Continue);
                }
                let mut outputs: Vec<ActionOutputEvent> = outputs;
                let ghost all = views(outputs@);
                let output: ActionOutputEvent = outputs.remove(0);
                assert(views(outputs@) =~= all.drop_first());
                assert(all[0] == output@);
                match ensure_produced_event(&extension, action.as_str(), output.kind.as_str()) {
                    Ok(()) => {},
                    Err(error) => {
                        return Err(error);
                    },
                }
                let event: Event = match action_output_event_to_event(
                    &output,
                    extension.id.as_str(),
                    id,
                    now,
                ) {
                    Ok(event) => event,
                    Err(error) => {
                        return Err(error);
                    },
                };
                let next_depth: usize = if depth > MAX_DISPATCH_DEPTH {
                    depth
                } else {
                    depth + 1
                };
                let left: DispatchTask = DispatchTask::Collect {
                    extension,
                    action,
                    outputs,
                    depth,
                };
                let next: DispatchTask = DispatchTask::Route {
                    event: event.clone(),
                    depth: next_depth,
                };
                run.agenda.insert(0, left);
                run.agenda.insert(0, next);
                assert(views(run.agenda@) =~= seq![next@, left@] + rest);
                Ok(DispatchStep::Produced { event, store: self.log })
            },
        }
    }
}

/// An event that an action produced is the output that the action returned, under
/// the name of the extension that ran it: its type, subject and payload are those of
/// the output. It is routed next, one level deeper, and the other outputs follow.
pub proof fn law_produced_event_is_the_output(
    setup: SetupView,
    before: RunView,
    after: RunView,
    id: Seq<char>,
    now: u64,
    event: Event,
    store: bool,
)
    requires
        stepped(setup, before, id, now) == (
            after,
            step_outcome(Ok(DispatchStep::Produced { event, store })),
        ),
    ensures
        before.agenda.len() > 0,
        before.agenda[0] matches TaskView::Collect { extension, action, outputs, depth } && {
            &&& outputs.len() > 0
            &&& event.kind@ == outputs[0].kind
            &&& outputs[0].subject matches Some(subject) ==> event.subject is Some
                && event.subject->0@ == subject
            &&& outputs[0].subject is None ==> event.subject is None
            &&& event.data@ == outputs[0].data
            &&& event.source@ == extension.id
            &&& extension.produces.contains(event.kind@)
            &&& event.id@ == id
            &&& event.time_unix_ms == now
            &&& store == setup.log
            &&& after.reports == before.reports
            &&& after.agenda.len() == before.agenda.len() + 1
            &&& after.agenda[0] matches TaskView::Route { event: routed, depth: level }
                && routed == event@ && (depth <= 16 ==> level == depth + 1)
            &&& after.agenda[1] == (TaskView::Collect {
                extension,
                action,
                outputs: outputs.drop_first(),
                depth,
            })
            &&& after.agenda.skip(2) == before.agenda.drop_first()
        },
{
    let task = before.agenda[0];
    law_event_holds_its_parts(
        id,
        task->outputs[0].kind,
        task->Collect_extension.id,
        task->outputs[0].subject,
        task->outputs[0].data,
        now,
        Ok(event),
    );
    assert(after.agenda.skip(2) =~= before.agenda.drop_first());
}

/// An output becomes an event exactly where the extension declares its type and the
/// event is valid; else the dispatch ends there, with nothing noted.
pub proof fn law_outputs_become_events(
    setup: SetupView,
    run: RunView,
    id: Seq<char>,
    now: u64,
    extension: RegisteredView,
    action: Seq<char>,
    outputs: Seq<OutputEventView>,
    depth: usize,
)
    requires
        run.agenda.len() > 0,
        run.agenda[0] == (TaskView::Collect { extension, action, outputs, depth }),
    ensures
        outputs.len() == 0 ==> stepped(setup, run, id, now).1 == Ok::<StepView, ErrorView>(
            StepView::Continue,
        ) && stepped(setup, run, id, now).0.agenda == run.agenda.drop_first() && stepped(
            setup,
            run,
            id,
            now,
        ).0.reports == run.reports,
        outputs.len() > 0 && !extension.produces.contains(outputs[0].kind) ==> stepped(
            setup,
            run,
            id,
            now,
        ).1 == Err::<StepView, ErrorView>(
            ErrorView::UndeclaredProducedEvent {
                extension: extension.id,
                action,
                kind: outputs[0].kind,
            },
        ),
        outputs.len() > 0 && extension.produces.contains(outputs[0].kind) ==> {
            &&& stepped(setup, run, id, now).1 is Ok <==> {
                &&& name_check("type"@, outputs[0].kind) is Ok
                &&& name_check("source"@, extension.id) is Ok
                &&& outputs[0].subject matches Some(subject) ==> text_check(
                    "subject"@,
                    subject,
                ) is Ok
                &&& outputs[0].data is Object
            }
            &&& stepped(setup, run, id, now).1 matches Ok(step) ==> step is Produced
        },
{
}

/// What an action gets to run with: its name and arguments as they were asked for,
/// the event that triggered it, and the surface that its extension sees, but no
/// handle yet. It goes to an installed extension that exposes it. A handle is asked
/// for at the top only, where handles are handed out: for this extension and action,
/// for thirty seconds, at the socket.
pub proof fn law_action_gets_what_was_asked(
    setup: SetupView,
    action: Seq<char>,
    args: JsonView,
    capabilities: Seq<Seq<char>>,
    trigger: Option<EventView>,
    depth: usize,
    planned: PlannedAction,
)
    requires
        setup.extensions.len() <= usize::MAX,
        plan_of(setup, action, args, capabilities, trigger, depth) == Ok::<PlannedView, ErrorView>(
            planned@,
        ),
    ensures
        planned.invocation.action@ == action,
        planned.invocation.args@ == args,
        trigger matches Some(event) ==> planned.invocation.event is Some
            && planned.invocation.event->0.kind@ == event.kind
            && planned.invocation.event->0.data@ == event.data,
        trigger is None ==> planned.invocation.event is None,
        planned.invocation.extension is Some,
        planned.invocation.extension->0.id@ == planned.extension.id@,
        planned.invocation.extension->0@ == visible_to(setup.extensions, planned.extension.id@),
        planned.invocation.continuation is None,
        planned.depth == depth,
        depth <= 16,
        setup.extensions.contains(planned.extension@),
        exposes(planned.extension@, action),
        planned.continuation is Some <==> setup.continuation is Some && depth == 0,
        planned.continuation matches Some(request) ==> {
            &&& request.extension@ == planned.extension.id@
            &&& request.action@ == action
            &&& request.socket@ == setup.continuation->0
            &&& request.ttl_ms == 30_000
        },
{
    law_action_owner(setup.extensions, action);
}

/// A dispatch that comes to an action asks for that action to be run, or fails, and
/// goes on with the rest.
pub proof fn law_next_action_is_run(
    setup: SetupView,
    run: RunView,
    id: Seq<char>,
    now: u64,
    action: Seq<char>,
    args: JsonView,
    capabilities: Seq<Seq<char>>,
    trigger: Option<EventView>,
    depth: usize,
)
    requires
        run.agenda.len() > 0,
        run.agenda[0] == (TaskView::Act { action, args, capabilities, trigger, depth }),
    ensures
        stepped(setup, run, id, now).0.agenda == run.agenda.drop_first(),
        stepped(setup, run, id, now).0.reports == run.reports,
        stepped(setup, run, id, now).1 matches Ok(step) ==> step matches StepView::Invoke { planned }
            && plan_of(setup, action, args, capabilities, trigger, depth) == Ok::<
            PlannedView,
            ErrorView,
        >(planned) && planned.invocation.action == action && planned.invocation.args == args,
        stepped(setup, run, id, now).1 is Ok <==> plan_of(
            setup,
            action,
            args,
            capabilities,
            trigger,
            depth,
        ) is Ok,
        depth > 16 ==> stepped(setup, run, id, now).1 == Err::<StepView, ErrorView>(
            ErrorView::DispatchDepthExceeded,
        ),
        depth <= 16 && action_owner(setup.extensions, action) is None ==> stepped(
            setup,
            run,
            id,
            now,
        ).1 == Err::<StepView, ErrorView>(ErrorView::ActionNotInstalled { action }),
{
}

/// A dispatch that comes to an event runs, before the rest and in order, the action
/// of each route that the event triggers: with the capabilities of the route, the
/// event as its trigger, and an object of arguments made of both.
pub proof fn law_next_event_is_routed(
    setup: SetupView,
    run: RunView,
    id: Seq<char>,
    now: u64,
    event: EventView,
    depth: usize,
)
    requires
        run.agenda.len() > 0,
        run.agenda[0] == (TaskView::Route { event, depth }),
    ensures
        depth > 16 ==> stepped(setup, run, id, now).1 == Err::<StepView, ErrorView>(
            ErrorView::DispatchDepthExceeded,
        ),
        depth <= 16 ==> {
            let routes = matched_routes(setup.extensions, event.kind, event.source);
            let (after, step) = stepped(setup, run, id, now);
            &&& step == Ok::<StepView, ErrorView>(StepView::Continue)
            &&& after.reports == run.reports
            &&& after.agenda.len() == routes.len() + run.agenda.len() - 1
            &&& after.agenda.skip(routes.len() as int) == run.agenda.drop_first()
            &&& forall|i: int|
                0 <= i < routes.len() ==> {
                    &&& #[trigger] after.agenda[i] matches TaskView::Act {
                        action,
                        args,
                        capabilities,
                        trigger,
                        depth: level,
                    }
                    &&& action == routes[i].action
                    &&& capabilities == routes[i].capabilities
                    &&& trigger == Some(event)
                    &&& level == depth
                    &&& args is Object
                    &&& ascending(names(members_of(routes[i].args))) ==> forall|name: Seq<char>|
                        #[trigger] member(args, name) == match member(routes[i].args, name) {
                            Some(value) => Some(value),
                            None => member(event.data, name),
                        }
                }
        },
{
    if depth <= 16 {
        let routes = matched_routes(setup.extensions, event.kind, event.source);
        let after = stepped(setup, run, id, now).0;
        assert(after.agenda.skip(routes.len() as int) =~= run.agenda.drop_first());
        assert forall|i: int, name: Seq<char>|
            0 <= i < routes.len() && ascending(names(members_of(routes[i].args))) implies
            #[trigger] member((#[trigger] after.agenda[i])->Act_args, name) == match member(
            routes[i].args,
            name,
        ) {
            Some(value) => Some(value),
            None => member(event.data, name),
        } by {
            law_merge_prefers_second(members_of(event.data), members_of(routes[i].args), name);
        }
    }
}

/// A dispatch ends exactly where nothing is left to do.
pub proof fn law_dispatch_ends_with_its_agenda(
    setup: SetupView,
    run: RunView,
    id: Seq<char>,
    now: u64,
)
    ensures
        stepped(setup, run, id, now).1 == Ok::<StepView, ErrorView>(StepView::Finished)
            <==> run.agenda.len() == 0,
        run.agenda.len() == 0 ==> stepped(setup, run, id, now).0 == run,
{
}

/// When an action returns, it is reported, and what it returned is taken up first,
/// all of it, in the name of the extension that ran it.
pub proof fn law_outputs_are_taken_up(
    run: RunView,
    planned: PlannedView,
    outputs: Seq<OutputEventView>,
)
    ensures
        resumed(run, planned, outputs).reports.len() == run.reports.len() + 1,
        resumed(run, planned, outputs).reports.drop_last() == run.reports,
        resumed(run, planned, outputs).reports.last().0 == planned.invocation.action,
        resumed(run, planned, outputs).reports.last().1 == planned.extension.id,
        resumed(run, planned, outputs).agenda.drop_first() == run.agenda,
        resumed(run, planned, outputs).agenda.len() == run.agenda.len() + 1,
        resumed(run, planned, outputs).agenda[0] matches TaskView::Collect {
            extension,
            action,
            outputs: taken,
            depth,
        } && extension == planned.extension && action == planned.invocation.action && taken
            == outputs && depth == planned.depth,
{
    let after = resumed(run, planned, outputs);
    assert(after.reports.drop_last() =~= run.reports);
    assert(after.agenda.drop_first() =~= run.agenda);
}

/// What is left to do, and what was reported, shows all that it holds.
pub proof fn law_dispatch_shows_all(run: DispatchRun, report: DispatchReport, task: DispatchTask)
    ensures
        run@.agenda == views(run.agenda@),
        run@.reports == views(run.reports@),
        report@.0 == report.action@,
        report@.1 == report.extension@,
        task matches DispatchTask::Route { event, depth } ==> task@ == (TaskView::Route {
            event: event@,
            depth,
        }),
        task matches DispatchTask::Act { action, args, capabilities, trigger, depth } ==> task@ == (
        TaskView::Act {
            action: action@,
            args: args@,
            capabilities: views(capabilities@),
            trigger: optional_view(trigger),
            depth,
        }),
        task matches DispatchTask::Collect { extension, action, outputs, depth } ==> task@ == (
        TaskView::Collect {
            extension: extension@,
            action: action@,
            outputs: views(outputs@),
            depth,
        }),
{
}

/// An action is refused with the first capability that it requires and that was not
/// granted, by its name.
pub proof fn law_first_missing_capability_is_named(
    action: Seq<char>,
    required: Seq<Seq<char>>,
    granted: Seq<Seq<char>>,
)
    ensures
        capabilities_check(action, required, granted) is Ok <==> forall|i: int|
            0 <= i < required.len() ==> granted.contains(#[trigger] required[i]),
        capabilities_check(action, required, granted) matches Err(error) ==> exists|i: int|
            {
                &&& 0 <= i < required.len()
                &&& !granted.contains(#[trigger] required[i])
                &&& error == (ErrorView::MissingActionCapability {
                    action,
                    capability: required[i],
                })
                &&& forall|j: int| 0 <= j < i ==> granted.contains(#[trigger] required[j])
            },
{
    let check = capability_checker(action, granted);
    law_first_failing_item_decides(required, check);
    assert forall|i: int| 0 <= i < required.len() implies (check(#[trigger] required[i]) is Ok)
        == granted.contains(required[i]) by {}
    if let Err(error) = capabilities_check(action, required, granted) {
        let i = choose|i: int|
            {
                &&& 0 <= i < required.len()
                &&& check(#[trigger] required[i]) == Err::<(), ErrorView>(error)
                &&& forall|j: int| 0 <= j < i ==> check(#[trigger] required[j]) is Ok
            };
        assert(!granted.contains(required[i]));
        assert forall|j: int| 0 <= j < i implies granted.contains(#[trigger] required[j]) by {
            assert(check(required[j]) is Ok);
        }
    }
}

/// The capabilities that go with a handle are taken from the granted ones one by one,
/// in order: those that the action requires stay, the others go.
pub proof fn law_handle_keeps_required_capabilities_in_order(
    first: Seq<Seq<char>>,
    second: Seq<Seq<char>>,
    capability: Seq<char>,
    required: Seq<Seq<char>>,
)
    ensures
        passed_on(first + second, required) == passed_on(first, required) + passed_on(
            second,
            required,
        ),
        required.contains(capability) ==> passed_on(seq![capability], required) == seq![
            capability,
        ],
        !required.contains(capability) ==> passed_on(seq![capability], required).len() == 0,
    decreases second.len(),
{
    let one = seq![capability];
    assert(one.drop_last() =~= Seq::empty());
    assert(passed_on(one.drop_last(), required) =~= Seq::empty());
    assert(passed_on(one, required) =~= if required.contains(capability) {
        one
    } else {
        Seq::empty()
    });
    if second.len() == 0 {
        assert(first + second =~= first);
        assert(passed_on(second, required) =~= Seq::empty());
        assert(passed_on(first, required) + passed_on(second, required) =~= passed_on(
            first,
            required,
        ));
    } else {
        let front = second.drop_last();
        law_handle_keeps_required_capabilities_in_order(first, front, capability, required);
        assert((first + second).drop_last() =~= first + front);
        assert((first + second).last() == second.last());
        assert(passed_on(first + second, required) =~= passed_on(first, required) + passed_on(
            second,
            required,
        ));
    }
}

} // verus!
