//! What the kernel hands to an extension action, and what the action returns.
use vstd::prelude::*;

use crate::json::{empty_object, Json, JsonView};
use crate::text::{contains_text, optional_view, same_text, views};

verus! {

/// Capability-scoped handle for deferred extension work through spindle.
#[derive(Debug, PartialEq, Eq)]
pub struct ContinuationContext {
    /// Opaque continuation identifier validated by the core.
    pub id: String,
    /// Unix socket path accepting continuation-backed requests.
    pub socket: String,
    /// Expiry time as milliseconds since Unix epoch.
    pub expires_unix_ms: u64,
}

/// Event metadata supplied with a routed action.
#[derive(Debug, PartialEq, Eq)]
pub struct EventContext {
    /// Event type.
    pub kind: String,
    /// Event payload.
    pub data: Json,
}

/// Event type visible to extensions.
#[derive(Debug, PartialEq, Eq)]
pub struct EventDescriptor {
    /// Event type.
    pub kind: String,
    /// Extension that declares this event.
    pub source_extension: String,
}

/// Action visible to extensions.
#[derive(Debug, PartialEq, Eq)]
pub struct ActionDescriptor {
    /// Action name.
    pub name: String,
    /// Extension that provides the action.
    pub extension: String,
    /// Capabilities required by this action.
    pub capabilities: Vec<String>,
}

/// Spindle surface supplied by the core to an extension action.
#[derive(Debug, PartialEq, Eq)]
pub struct ExtensionContext {
    /// Current extension identifier.
    pub id: String,
    /// Event types visible through installed providers.
    pub events: Vec<EventDescriptor>,
    /// Actions visible through installed providers.
    pub actions: Vec<ActionDescriptor>,
    /// Capabilities declared by installed providers.
    pub capabilities: Vec<String>,
}

/// Action invocation sent by the spindle kernel to an extension host.
#[derive(Debug, PartialEq, Eq)]
pub struct ActionInvocation {
    /// Action name.
    pub action: String,
    /// Action arguments.
    pub args: Json,
    /// The event that triggered the action.
    pub event: Option<EventContext>,
    /// The surface visible to the extension.
    pub extension: Option<ExtensionContext>,
    /// The handle for deferred work.
    pub continuation: Option<ContinuationContext>,
}

/// Typed context passed to an extension action.
#[derive(Debug, PartialEq, Eq)]
pub struct ActionContext {
    /// Action name.
    pub action: Option<String>,
    /// Action arguments.
    pub args: Json,
    /// The event that triggered the action.
    pub event: Option<EventContext>,
    /// The surface visible to the extension.
    pub extension: Option<ExtensionContext>,
    /// The handle for deferred work.
    pub continuation: Option<ContinuationContext>,
}

/// Event emitted by an extension action.
#[derive(Debug, PartialEq, Eq)]
pub struct ActionOutputEvent {
    /// Event type.
    pub kind: String,
    /// Optional event subject.
    pub subject: Option<String>,
    /// Event payload.
    pub data: Json,
}

/// Structured output returned by an extension action.
#[derive(Debug, PartialEq, Eq)]
pub struct ActionOutput {
    /// The emitted events.
    pub events: Vec<ActionOutputEvent>,
}

/// A continuation handle with its texts as characters.
pub struct ContinuationView {
    /// Identifier.
    pub id: Seq<char>,
    /// Socket path.
    pub socket: Seq<char>,
    /// Expiry time.
    pub expires_unix_ms: u64,
}

/// Event metadata with its texts as characters.
pub struct EventContextView {
    /// Event type.
    pub kind: Seq<char>,
    /// Event payload.
    pub data: JsonView,
}

/// A visible event type: the type, and the extension that declares it.
pub type EventDescriptorView = (Seq<char>, Seq<char>);

/// A visible action with its texts as characters.
pub struct ActionDescriptorView {
    /// Action name.
    pub name: Seq<char>,
    /// Providing extension.
    pub extension: Seq<char>,
    /// Required capabilities.
    pub capabilities: Seq<Seq<char>>,
}

/// A visible surface with its texts as characters.
pub struct ExtensionContextView {
    /// Extension identifier.
    pub id: Seq<char>,
    /// Visible event types.
    pub events: Seq<EventDescriptorView>,
    /// Visible actions.
    pub actions: Seq<ActionDescriptorView>,
    /// Visible capabilities.
    pub capabilities: Seq<Seq<char>>,
}

/// An invocation with its texts as characters.
pub struct InvocationView {
    /// Action name.
    pub action: Seq<char>,
    /// Action arguments.
    pub args: JsonView,
    /// The event that triggered the action.
    pub event: Option<EventContextView>,
    /// The surface visible to the extension.
    pub extension: Option<ExtensionContextView>,
    /// The handle for deferred work.
    pub continuation: Option<ContinuationView>,
}

/// An output event with its texts as characters.
pub struct OutputEventView {
    /// Event type.
    pub kind: Seq<char>,
    /// Event subject.
    pub subject: Option<Seq<char>>,
    /// Event payload.
    pub data: JsonView,
}

impl View for ContinuationContext {
    type V = ContinuationView;

    open spec fn view(&self) -> ContinuationView {
        ContinuationView {
            id: self.id@,
            socket: self.socket@,
            expires_unix_ms: self.expires_unix_ms,
        }
    }
}

impl View for EventContext {
    type V = EventContextView;

    open spec fn view(&self) -> EventContextView {
        EventContextView { kind: self.kind@, data: self.data@ }
    }
}

impl View for EventDescriptor {
    type V = EventDescriptorView;

    open spec fn view(&self) -> EventDescriptorView {
        (self.kind@, self.source_extension@)
    }
}

impl View for ActionDescriptor {
    type V = ActionDescriptorView;

    open spec fn view(&self) -> ActionDescriptorView {
        ActionDescriptorView {
            name: self.name@,
            extension: self.extension@,
            capabilities: views(self.capabilities@),
        }
    }
}

impl View for ExtensionContext {
    type V = ExtensionContextView;

    open spec fn view(&self) -> ExtensionContextView {
        ExtensionContextView {
            id: self.id@,
            events: views(self.events@),
            actions: views(self.actions@),
            capabilities: views(self.capabilities@),
        }
    }
}

impl View for ActionInvocation {
    type V = InvocationView;

    open spec fn view(&self) -> InvocationView {
        InvocationView {
            action: self.action@,
            args: self.args@,
            event: optional_view(self.event),
            extension: optional_view(self.extension),
            continuation: optional_view(self.continuation),
        }
    }
}

impl View for ActionOutputEvent {
    type V = OutputEventView;

    open spec fn view(&self) -> OutputEventView {
        OutputEventView {
            kind: self.kind@,
            subject: optional_view(self.subject),
            data: self.data@,
        }
    }
}

impl View for ActionOutput {
    type V = Seq<OutputEventView>;

    open spec fn view(&self) -> Seq<OutputEventView> {
        views(self.events@)
    }
}

/// Whether an event type is among visible ones.
pub open spec fn sees_event(events: Seq<EventDescriptorView>, kind: Seq<char>) -> bool {
    exists|i: int| 0 <= i < events.len() && (#[trigger] events[i]).0 == kind
}

/// Whether an action is among visible ones.
pub open spec fn sees_action(actions: Seq<ActionDescriptorView>, name: Seq<char>) -> bool {
    exists|i: int| 0 <= i < actions.len() && (#[trigger] actions[i]).name == name
}

impl Clone for ContinuationContext {
    fn clone(&self) -> (copy: Self)
        ensures
            copy@ == self@,
    {
        ContinuationContext {
            id: self.id.clone(),
            socket: self.socket.clone(),
            expires_unix_ms: self.expires_unix_ms,
        }
    }
}

impl Clone for EventContext {
    fn clone(&self) -> (copy: Self)
        ensures
            copy@ == self@,
    {
        EventContext { kind: self.kind.clone(), data: self.data.clone() }
    }
}

impl Clone for EventDescriptor {
    fn clone(&self) -> (copy: Self)
        ensures
            copy@ == self@,
    {
        EventDescriptor {
            kind: self.kind.clone(),
            source_extension: self.source_extension.clone(),
        }
    }
}

impl Clone for ActionDescriptor {
    fn clone(&self) -> (copy: Self)
        ensures
            copy@ == self@,
    {
        let copy: Self = ActionDescriptor {
            name: self.name.clone(),
            extension: self.extension.clone(),
            capabilities: self.capabilities.clone(),
        };
        assert(copy@.capabilities =~= self@.capabilities);
        copy
    }
}

impl Clone for ExtensionContext {
    fn clone(&self) -> (copy: Self)
        ensures
            copy@ == self@,
    {
        let copy: Self = ExtensionContext {
            id: self.id.clone(),
            events: self.events.clone(),
            actions: self.actions.clone(),
            capabilities: self.capabilities.clone(),
        };
        assert(copy@.events =~= self@.events);
        assert(copy@.actions =~= self@.actions);
        assert(copy@.capabilities =~= self@.capabilities);
        copy
    }
}

impl Clone for ActionOutputEvent {
    fn clone(&self) -> (copy: Self)
        ensures
            copy@ == self@,
    {
        ActionOutputEvent {
            kind: self.kind.clone(),
            subject: self.subject.clone(),
            data: self.data.clone(),
        }
    }
}

impl Clone for ActionInvocation {
    fn clone(&self) -> (copy: Self)
        ensures
            copy@ == self@,
    {
        ActionInvocation {
            action: self.action.clone(),
            args: self.args.clone(),
            event: self.event.clone(),
            extension: self.extension.clone(),
            continuation: self.continuation.clone(),
        }
    }
}

impl ContinuationContext {
    /// Create a continuation context.
    pub fn new(id: &str, socket: &str, expires_unix_ms: u64) -> (context: Self)
        ensures
            context@ == (ContinuationView { id: id@, socket: socket@, expires_unix_ms }),
    {
        ContinuationContext { id: id.to_owned(), socket: socket.to_owned(), expires_unix_ms }
    }
}

impl EventContext {
    /// Create source event metadata.
    pub fn new(kind: &str, data: Json) -> (context: Self)
        ensures
            context@ == (EventContextView { kind: kind@, data: data@ }),
    {
        EventContext { kind: kind.to_owned(), data }
    }

    /// Return the source event type.
    pub fn kind(&self) -> (kind: &str)
        ensures
            kind@ == self@.kind,
    {
        self.kind.as_str()
    }

    /// Return the source event payload.
    pub fn data(&self) -> (data: &Json)
        ensures
            *data == self.data,
    {
        &self.data
    }
}

impl ExtensionContext {
    /// Create an extension context.
    pub fn new(id: &str) -> (context: Self)
        ensures
            context@ == (ExtensionContextView {
                id: id@,
                events: Seq::empty(),
                actions: Seq::empty(),
                capabilities: Seq::empty(),
            }),
    {
        let context: Self = ExtensionContext {
            id: id.to_owned(),
            events: Vec::new(),
            actions: Vec::new(),
            capabilities: Vec::new(),
        };
        assert(context@.events =~= Seq::empty());
        assert(context@.actions =~= Seq::empty());
        assert(context@.capabilities =~= Seq::empty());
        context
    }

    /// Return whether an event type is visible to this extension.
    pub fn has_event(&self, kind: &str) -> (visible: bool)
        ensures
            visible == sees_event(self@.events, kind@),
    {
        let mut i: usize = 0;
        while i < self.events.len()
            invariant
                i <= self.events@.len(),
                forall|j: int| 0 <= j < i ==> (#[trigger] self@.events[j]).0 != kind@,
            decreases self.events@.len() - i,
        {
            assert(self@.events[i as int].0 == self.events@[i as int].kind@);
            if same_text(self.events[i].kind.as_str(), kind) {
                return true;
            }
            i = i + 1;
        }
        false
    }

    /// Return whether an action is visible to this extension.
    pub fn has_action(&self, name: &str) -> (visible: bool)
        ensures
            visible == sees_action(self@.actions, name@),
    {
        let mut i: usize = 0;
        while i < self.actions.len()
            invariant
                i <= self.actions@.len(),
                forall|j: int| 0 <= j < i ==> (#[trigger] self@.actions[j]).name != name@,
            decreases self.actions@.len() - i,
        {
            assert(self@.actions[i as int].name == self.actions@[i as int].name@);
            if same_text(self.actions[i].name.as_str(), name) {
                return true;
            }
            i = i + 1;
        }
        false
    }

    /// Return whether a capability is visible to this extension.
    pub fn has_capability(&self, name: &str) -> (visible: bool)
        ensures
            visible == self@.capabilities.contains(name@),
    {
        contains_text(self.capabilities.as_slice(), name)
    }
}

impl ActionInvocation {
    /// Create an action invocation without source event metadata.
    pub fn new(action: &str, args: Json) -> (invocation: Self)
        ensures
            invocation@ == (InvocationView {
                action: action@,
                args: args@,
                event: None,
                extension: None,
                continuation: None,
            }),
    {
        ActionInvocation {
            action: action.to_owned(),
            args,
            event: None,
            extension: None,
            continuation: None,
        }
    }

    /// Attach source event metadata to this invocation.
    pub fn with_event(self, event: Option<EventContext>) -> (invocation: Self)
        ensures
            invocation@ == (InvocationView { event: optional_view(event), ..self@ }),
    {
        let mut invocation: Self = self;
        invocation.event = event;
        invocation
    }

    /// Attach the extension-visible spindle surface to this invocation.
    pub fn with_extension(self, extension: Option<ExtensionContext>) -> (invocation: Self)
        ensures
            invocation@ == (InvocationView { extension: optional_view(extension), ..self@ }),
    {
        let mut invocation: Self = self;
        invocation.extension = extension;
        invocation
    }

    /// Attach a handle for deferred work to this invocation.
    pub fn with_continuation(self, continuation: Option<ContinuationContext>) -> (invocation: Self)
        ensures
            invocation@ == (InvocationView {
                continuation: optional_view(continuation),
                ..self@
            }),
    {
        let mut invocation: Self = self;
        invocation.continuation = continuation;
        invocation
    }

    /// Convert this invocation into an in-process action context.
    pub fn into_context(self) -> (context: ActionContext)
        ensures
            context == (ActionContext {
                action: Some(self.action),
                args: self.args,
                event: self.event,
                extension: self.extension,
                continuation: self.continuation,
            }),
    {
        ActionContext {
            action: Some(self.action),
            args: self.args,
            event: self.event,
            extension: self.extension,
            continuation: self.continuation,
        }
    }
}

impl ActionContext {
    /// Build an action context from a host invocation.
    pub fn from_invocation(invocation: ActionInvocation) -> (context: Self)
        ensures
            context == (ActionContext {
                action: Some(invocation.action),
                args: invocation.args,
                event: invocation.event,
                extension: invocation.extension,
                continuation: invocation.continuation,
            }),
    {
        invocation.into_context()
    }

    /// Return the action name supplied by spindle, if present.
    pub fn action(&self) -> (action: Option<&str>)
        ensures
            match action {
                Some(name) => self.action is Some && name@ == self.action->0@,
                None => self.action is None,
            },
    {
        match &self.action {
            Some(name) => Some(name.as_str()),
            None => None,
        }
    }

    /// Return the raw action argument JSON value.
    pub fn args_value(&self) -> (args: &Json)
        ensures
            *args == self.args,
    {
        &self.args
    }

    /// Return the source event that triggered this action, if any.
    pub fn event(&self) -> (event: Option<&EventContext>)
        ensures
            match event {
                Some(inner) => self.event == Some(*inner),
                None => self.event is None,
            },
    {
        match &self.event {
            Some(inner) => Some(inner),
            None => None,
        }
    }

    /// Return the extension-visible spindle surface, if supplied by the core.
    pub fn extension(&self) -> (extension: Option<&ExtensionContext>)
        ensures
            match extension {
                Some(inner) => self.extension == Some(*inner),
                None => self.extension is None,
            },
    {
        match &self.extension {
            Some(inner) => Some(inner),
            None => None,
        }
    }

    /// Return a deferred-work continuation handle, if supplied by the core.
    pub fn continuation(&self) -> (continuation: Option<&ContinuationContext>)
        ensures
            match continuation {
                Some(inner) => self.continuation == Some(*inner),
                None => self.continuation is None,
            },
    {
        match &self.continuation {
            Some(inner) => Some(inner),
            None => None,
        }
    }
}

impl ActionOutputEvent {
    /// Create an output event with empty object data.
    pub fn new(kind: &str) -> (event: Self)
        ensures
            event@ == (OutputEventView {
                kind: kind@,
                subject: None,
                data: JsonView::Object(Seq::empty()),
            }),
    {
        ActionOutputEvent { kind: kind.to_owned(), subject: None, data: empty_object() }
    }

    /// Attach a subject.
    pub fn with_subject(self, subject: &str) -> (event: Self)
        ensures
            event@ == (OutputEventView { subject: Some(subject@), ..self@ }),
    {
        let mut event: Self = self;
        event.subject = Some(subject.to_owned());
        event
    }

    /// Attach event data.
    pub fn with_data(self, data: Json) -> (event: Self)
        ensures
            event@ == (OutputEventView { data: data@, ..self@ }),
    {
        let mut event: Self = self;
        event.data = data;
        event
    }
}

impl ActionOutput {
    /// Create empty action output.
    pub fn empty() -> (output: Self)
        ensures
            output@ == Seq::<OutputEventView>::empty(),
    {
        let output: Self = ActionOutput { events: Vec::new() };
        assert(output@ =~= Seq::<OutputEventView>::empty());
        output
    }

    /// Create output containing one emitted event.
    pub fn event(event: ActionOutputEvent) -> (output: Self)
        ensures
            output@ == seq![event@],
    {
        let mut output: Self = ActionOutput::empty();
        output.push_event(event);
        assert(output@ =~= seq![event@]);
        output
    }

    /// Create output containing multiple emitted events.
    pub fn events(events: Vec<ActionOutputEvent>) -> (output: Self)
        ensures
            output@ == views(events@),
    {
        ActionOutput { events }
    }

    /// Append one emitted event.
    pub fn with_event(self, event: ActionOutputEvent) -> (output: Self)
        ensures
            output@ == self@.push(event@),
    {
        let mut output: Self = self;
        output.push_event(event);
        output
    }

    /// Push one emitted event into this output.
    pub fn push_event(&mut self, event: ActionOutputEvent)
        ensures
            final(self)@ == old(self)@.push(event@),
    {
        let ghost before = self@;
        self.events.push(event);
        assert(self@ =~= before.push(event@));
    }

    /// Return events emitted by this action.
    pub fn emitted_events(&self) -> (events: &[ActionOutputEvent])
        ensures
            views(events@) == self@,
    {
        self.events.as_slice()
    }
}

/// What is handed to an action, and what it returns, shows all that it holds.
pub proof fn law_context_shows_all(
    invocation: ActionInvocation,
    event: EventContext,
    output: ActionOutput,
    returned: ActionOutputEvent,
    surface: ExtensionContext,
    action: ActionDescriptor,
    handle: ContinuationContext,
)
    ensures
        invocation@.action == invocation.action@,
        invocation@.args == invocation.args@,
        invocation@.event == optional_view(invocation.event),
        invocation@.extension == optional_view(invocation.extension),
        invocation@.continuation == optional_view(invocation.continuation),
        event@.kind == event.kind@,
        event@.data == event.data@,
        output@ == views(output.events@),
        returned@.kind == returned.kind@,
        returned@.subject == optional_view(returned.subject),
        returned@.data == returned.data@,
        surface@.id == surface.id@,
        surface@.events == views(surface.events@),
        surface@.actions == views(surface.actions@),
        surface@.capabilities == views(surface.capabilities@),
        action@.name == action.name@,
        action@.extension == action.extension@,
        action@.capabilities == views(action.capabilities@),
        handle@.id == handle.id@,
        handle@.socket == handle.socket@,
        handle@.expires_unix_ms == handle.expires_unix_ms,
{
}

} // verus!
