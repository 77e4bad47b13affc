//! Events, how they are built, and how they are filtered.
use vstd::prelude::*;

use crate::error::{checked, first_error, Checked, ErrorView, SpindleError};
use crate::identity::{is_uuid_text, new_id};
use crate::json::{
    empty_object, lemma_array_view, lemma_object_view, member, object_check, validate_json_object,
    Json, JsonView,
};
use crate::name_map::{inserted, law_lookup_after_insert, lookup, NameMap};
use crate::text::{optional_view, views};
use crate::validate::{
    law_what_a_name_is, law_what_text_is, name_check, text_check, validate_name, validate_subject,
};

verus! {

/// One event of the log.
#[derive(Debug, PartialEq, Eq)]
pub struct Event {
    /// Identifier.
    pub id: String,
    /// Event type.
    pub kind: String,
    /// Event source.
    pub source: String,
    /// Optional subject.
    pub subject: Option<String>,
    /// Payload.
    pub data: Json,
    /// Creation time in milliseconds since the Unix epoch.
    pub time_unix_ms: u64,
}

/// An event with its texts as characters.
pub struct EventView {
    /// Identifier.
    pub id: Seq<char>,
    /// Event type.
    pub kind: Seq<char>,
    /// Event source.
    pub source: Seq<char>,
    /// Subject.
    pub subject: Option<Seq<char>>,
    /// Payload.
    pub data: JsonView,
    /// Creation time.
    pub time_unix_ms: u64,
}

impl View for Event {
    type V = EventView;

    open spec fn view(&self) -> EventView {
        EventView {
            id: self.id@,
            kind: self.kind@,
            source: self.source@,
            subject: optional_view(self.subject),
            data: self.data@,
            time_unix_ms: self.time_unix_ms,
        }
    }
}

impl Clone for Event {
    fn clone(&self) -> (copy: Self)
        ensures
            copy@ == self@,
    {
        Event {
            id: self.id.clone(),
            kind: self.kind.clone(),
            source: self.source.clone(),
            subject: self.subject.clone(),
            data: self.data.clone(),
            time_unix_ms: self.time_unix_ms,
        }
    }
}

/// The rule for an optional subject.
pub open spec fn subject_check(subject: Option<Seq<char>>) -> Checked {
    match subject {
        Some(text) => text_check("subject"@, text),
        None => Ok(()),
    }
}

/// The rule for an event: type and source are names, a subject is text, the
/// payload is an object.
pub open spec fn event_check(
    kind: Seq<char>,
    source: Seq<char>,
    subject: Option<Seq<char>>,
    data: JsonView,
) -> Checked {
    first_error(
        name_check("type"@, kind),
        first_error(
            name_check("source"@, source),
            first_error(subject_check(subject), object_check("data"@, data)),
        ),
    )
}

/// The event that a build gives, or why there is none.
pub open spec fn built(
    id: Seq<char>,
    kind: Seq<char>,
    source: Seq<char>,
    subject: Option<Seq<char>>,
    data: JsonView,
    time_unix_ms: u64,
) -> Result<EventView, ErrorView> {
    match event_check(kind, source, subject, data) {
        Ok(_) => Ok(EventView { id, kind, source, subject, data, time_unix_ms }),
        Err(error) => Err(error),
    }
}

/// The view of a fallible event.
pub open spec fn event_outcome(result: Result<Event, SpindleError>) -> Result<
    EventView,
    ErrorView,
> {
    match result {
        Ok(event) => Ok(event@),
        Err(error) => Err(error@),
    }
}

/// Collects the parts of an event.
#[derive(Debug, PartialEq, Eq)]
pub struct EventBuilder {
    /// Event type.
    pub kind: String,
    /// Event source.
    pub source: String,
    /// Optional subject.
    pub subject: Option<String>,
    /// Payload.
    pub data: Json,
}

impl Event {
    /// Start building an event with an empty object as its payload.
    pub fn builder(kind: String, source: String) -> (builder: EventBuilder)
        ensures
            builder.kind == kind,
            builder.source == source,
            builder.subject is None,
            builder.data@ == JsonView::Object(Seq::empty()),
    {
        EventBuilder { kind, source, subject: None, data: empty_object() }
    }
}

impl EventBuilder {
    /// Set or clear the subject.
    pub fn subject(self, subject: Option<String>) -> (builder: Self)
        ensures
            builder == (EventBuilder { subject, ..self }),
    {
        let mut builder: Self = self;
        builder.subject = subject;
        builder
    }

    /// Set the payload.
    pub fn data(self, data: Json) -> (builder: Self)
        ensures
            builder == (EventBuilder { data, ..self }),
    {
        let mut builder: Self = self;
        builder.data = data;
        builder
    }

    /// Check the parts of the event.
    pub fn validate(&self) -> (result: Result<(), SpindleError>)
        ensures
            checked(result) == event_check(
                self.kind@,
                self.source@,
                optional_view(self.subject),
                self.data@,
            ),
    {
        match validate_name("type", self.kind.as_str()) {
            Ok(()) => {},
            Err(error) => {
                return Err(error);
            },
        }
        match validate_name("source", self.source.as_str()) {
            Ok(()) => {},
            Err(error) => {
                return Err(error);
            },
        }
        if let Some(subject) = &self.subject {
            match validate_subject("subject", subject.as_str()) {
                Ok(()) => {},
                Err(error) => {
                    return Err(error);
                },
            }
        }
        validate_json_object("data", &self.data)
    }

    /// Build the event with the given identifier and time.
    pub fn build_with(self, id: String, time_unix_ms: u64) -> (result: Result<
        Event,
        SpindleError,
    >)
        ensures
            event_outcome(result) == built(
                id@,
                self.kind@,
                self.source@,
                optional_view(self.subject),
                self.data@,
                time_unix_ms,
            ),
    {
        match self.validate() {
            Ok(()) => Ok(
                Event {
                    id,
                    kind: self.kind,
                    source: self.source,
                    subject: self.subject,
                    data: self.data,
                    time_unix_ms,
                },
            ),
            Err(error) => Err(error),
        }
    }

    /// Build the event with a fresh identifier and the given time.
    pub fn build(self, time_unix_ms: u64) -> (result: Result<Event, SpindleError>)
        ensures
            exists|id: Seq<char>|
                is_uuid_text(id) && event_outcome(result) == built(
                    id,
                    self.kind@,
                    self.source@,
                    optional_view(self.subject),
                    self.data@,
                    time_unix_ms,
                ),
    {
        let id: String = new_id();
        let ghost fresh = id@;
        let result: Result<Event, SpindleError> = self.build_with(id, time_unix_ms);
        assert(is_uuid_text(fresh) && event_outcome(result) == built(
            fresh,
            self.kind@,
            self.source@,
            optional_view(self.subject),
            self.data@,
            time_unix_ms,
        ));
        result
    }
}

/// A query over the log.
#[derive(Debug, PartialEq, Eq)]
pub struct EventFilter {
    /// Event type to match.
    pub kind: Option<String>,
    /// Event source to match.
    pub source: Option<String>,
    /// How many of the last matching events are wanted.
    pub limit: Option<usize>,
}

/// Whether an optional expected text is met.
pub open spec fn admits(expected: Option<Seq<char>>, actual: Seq<char>) -> bool {
    match expected {
        Some(text) => text == actual,
        None => true,
    }
}

impl Default for EventFilter {
    fn default() -> (filter: Self)
        ensures
            filter.kind is None,
            filter.source is None,
            filter.limit is None,
    {
        EventFilter { kind: None, source: None, limit: None }
    }
}

impl EventFilter {
    /// Whether the filter asks for this event, apart from its limit.
    pub open spec fn selects(self, event: EventView) -> bool {
        &&& admits(optional_view(self.kind), event.kind)
        &&& admits(optional_view(self.source), event.source)
    }

    /// Whether an event matches.
    pub fn matches(&self, event: &Event) -> (matched: bool)
        ensures
            matched == self.selects(event@),
    {
        let kind_matches: bool = match &self.kind {
            Some(kind) => *kind == event.kind,
            None => true,
        };
        let source_matches: bool = match &self.source {
            Some(source) => *source == event.source,
            None => true,
        };
        kind_matches && source_matches
    }
}

/// Where a continuation-backed request comes from.
#[derive(Debug, PartialEq, Eq)]
pub struct ContinuationAudit {
    /// Continuation identifier.
    pub id: String,
    /// Extension that received the continuation.
    pub extension: String,
    /// Action that received the continuation.
    pub action: String,
}

/// A continuation audit as a JSON object.
pub open spec fn audit_json(id: Seq<char>, extension: Seq<char>, action: Seq<char>) -> JsonView {
    JsonView::Object(
        inserted(
            inserted(
                inserted(Seq::empty(), "id"@, JsonView::Text(id)),
                "extension"@,
                JsonView::Text(extension),
            ),
            "action"@,
            JsonView::Text(action),
        ),
    )
}

/// A request to run an action, as it is logged.
#[derive(Debug, PartialEq, Eq)]
pub struct ActionRequest {
    /// Action name.
    pub action: String,
    /// Who asks for it.
    pub requested_by: String,
    /// Capabilities that come with the request.
    pub capabilities: Vec<String>,
    /// Action arguments.
    pub args: Json,
    /// Where a continuation-backed request comes from.
    pub continuation: Option<ContinuationAudit>,
}

/// Texts as a JSON array.
pub open spec fn texts_json(texts: Seq<Seq<char>>) -> JsonView {
    JsonView::Array(Seq::new(texts.len(), |i: int| JsonView::Text(texts[i])))
}

/// The payload of the event that records a request.
pub open spec fn request_payload(
    action: Seq<char>,
    requested_by: Seq<char>,
    capabilities: Seq<Seq<char>>,
    args: JsonView,
    continuation: Option<(Seq<char>, Seq<char>, Seq<char>)>,
) -> JsonView {
    let plain = inserted(
        inserted(
            inserted(
                inserted(Seq::empty(), "action"@, JsonView::Text(action)),
                "requested_by"@,
                JsonView::Text(requested_by),
            ),
            "capabilities"@,
            texts_json(capabilities),
        ),
        "args"@,
        args,
    );
    match continuation {
        Some((id, extension, origin)) => JsonView::Object(
            inserted(plain, "continuation"@, audit_json(id, extension, origin)),
        ),
        None => JsonView::Object(plain),
    }
}

/// The event that records a request, or why there is none.
pub open spec fn request_event(
    action: Seq<char>,
    requested_by: Seq<char>,
    capabilities: Seq<Seq<char>>,
    args: JsonView,
    continuation: Option<(Seq<char>, Seq<char>, Seq<char>)>,
    id: Seq<char>,
    now: u64,
) -> Result<EventView, ErrorView> {
    built(
        id,
        "action.requested"@,
        requested_by,
        None,
        request_payload(action, requested_by, capabilities, args, continuation),
        now,
    )
}

impl View for ContinuationAudit {
    type V = (Seq<char>, Seq<char>, Seq<char>);

    open spec fn view(&self) -> (Seq<char>, Seq<char>, Seq<char>) {
        (self.id@, self.extension@, self.action@)
    }
}

impl ActionRequest {
    /// The payload of the event that records the request.
    pub open spec fn payload(self) -> JsonView {
        request_payload(
            self.action@,
            self.requested_by@,
            views(self.capabilities@),
            self.args@,
            optional_view(self.continuation),
        )
    }

    fn payload_json(&self) -> (json: Json)
        ensures
            json@ == self.payload(),
    {
        let mut members: NameMap<Json> = NameMap::new();
        members.insert("action".to_owned(), Json::Text(self.action.clone()));
        members.insert("requested_by".to_owned(), Json::Text(self.requested_by.clone()));
        members.insert("capabilities".to_owned(), json_of_texts(self.capabilities.as_slice()));
        members.insert("args".to_owned(), self.args.clone());
        if let Some(audit) = &self.continuation {
            let mut origin: NameMap<Json> = NameMap::new();
            origin.insert("id".to_owned(), Json::Text(audit.id.clone()));
            origin.insert("extension".to_owned(), Json::Text(audit.extension.clone()));
            origin.insert("action".to_owned(), Json::Text(audit.action.clone()));
            proof {
                lemma_object_view(origin);
            }
            members.insert("continuation".to_owned(), Json::Object(origin));
        }
        proof {
            lemma_object_view(members);
        }
        Json::Object(members)
    }

    /// The event that records the request, built with a fresh identifier.
    pub fn into_event(self, time_unix_ms: u64) -> (result: Result<Event, SpindleError>)
        ensures
            exists|id: Seq<char>|
                is_uuid_text(id) && event_outcome(result) == #[trigger] request_event(
                    self.action@,
                    self.requested_by@,
                    views(self.capabilities@),
                    self.args@,
                    optional_view(self.continuation),
                    id,
                    time_unix_ms,
                ),
    {
        let id: String = new_id();
        self.into_event_with(id, time_unix_ms)
    }

    /// The event that records the request, with the given identifier.
    pub fn into_event_with(self, id: String, time_unix_ms: u64) -> (result: Result<
        Event,
        SpindleError,
    >)
        ensures
            event_outcome(result) == request_event(
                self.action@,
                self.requested_by@,
                views(self.capabilities@),
                self.args@,
                optional_view(self.continuation),
                id@,
                time_unix_ms,
            ),
    {
        let data: Json = self.payload_json();
        Event::builder("action.requested".to_owned(), self.requested_by).data(data).build_with(
            id,
            time_unix_ms,
        )
    }
}

/// Texts as a JSON array.
pub fn json_of_texts(texts: &[String]) -> (json: Json)
    ensures
        json@ == texts_json(views(texts@)),
{
    let mut items: Vec<Json> = Vec::new();
    let mut i: usize = 0;
    while i < texts.len()
        invariant
            i <= texts@.len(),
            items@.len() == i,
            forall|j: int| 0 <= j < i ==> (#[trigger] items@[j])@ == JsonView::Text(texts@[j]@),
        decreases texts@.len() - i,
    {
        items.push(Json::Text(texts[i].clone()));
        i = i + 1;
    }
    proof {
        lemma_array_view(items);
        assert(views(items@) =~= texts_json(views(texts@))->Array_0);
    }
    Json::Array(items)
}

/// An event is built from parts that its rules admit and from no others, and holds
/// each of them as it was given. The first part that is refused gives the error.
pub proof fn law_event_holds_its_parts(
    id: Seq<char>,
    kind: Seq<char>,
    source: Seq<char>,
    subject: Option<Seq<char>>,
    data: JsonView,
    time_unix_ms: u64,
    result: Result<Event, SpindleError>,
)
    requires
        event_outcome(result) == built(id, kind, source, subject, data, time_unix_ms),
    ensures
        result is Ok <==> {
            &&& name_check("type"@, kind) is Ok
            &&& name_check("source"@, source) is Ok
            &&& subject matches Some(text) ==> text_check("subject"@, text) is Ok
            &&& data is Object
        },
        result matches Ok(event) ==> {
            &&& event.id@ == id
            &&& event.kind@ == kind
            &&& event.source@ == source
            &&& subject matches Some(text) ==> event.subject is Some && event.subject->0@ == text
            &&& subject is None ==> event.subject is None
            &&& event.data@ == data
            &&& event.time_unix_ms == time_unix_ms
        },
        result matches Err(error) ==> error@ is InvalidField && error@->field
            == if name_check("type"@, kind) is Err {
            "type"@
        } else if name_check("source"@, source) is Err {
            "source"@
        } else if subject is Some && text_check("subject"@, subject->0) is Err {
            "subject"@
        } else {
            "data"@
        },
{
    law_what_a_name_is("type"@, kind);
    law_what_a_name_is("source"@, source);
    if subject is Some {
        law_what_text_is("subject"@, subject->0);
    }
}

/// The event that records a request comes from who made the request, and its payload
/// tells the action, its arguments, the capabilities in order, and where deferred
/// work comes from; nothing else. It is refused only for who made the request.
pub proof fn law_request_is_recorded(
    action: Seq<char>,
    requested_by: Seq<char>,
    capabilities: Seq<Seq<char>>,
    args: JsonView,
    continuation: Option<(Seq<char>, Seq<char>, Seq<char>)>,
    id: Seq<char>,
    now: u64,
)
    ensures
        request_event(action, requested_by, capabilities, args, continuation, id, now) is Ok
            <==> name_check("source"@, requested_by) is Ok,
        request_event(
            action,
            requested_by,
            capabilities,
            args,
            continuation,
            id,
            now,
        ) matches Ok(event) ==> {
            &&& event.id == id
            &&& event.time_unix_ms == now
            &&& event.kind == "action.requested"@
            &&& event.source == requested_by
            &&& event.subject is None
            &&& member(event.data, "action"@) == Some(JsonView::Text(action))
            &&& member(event.data, "requested_by"@) == Some(JsonView::Text(requested_by))
            &&& member(event.data, "args"@) == Some(args)
            &&& member(event.data, "capabilities"@) matches Some(JsonView::Array(listed))
                && listed.len() == capabilities.len() && forall|i: int|
                0 <= i < listed.len() ==> #[trigger] listed[i] == JsonView::Text(capabilities[i])
            &&& match continuation {
                None => member(event.data, "continuation"@) is None,
                Some((handle, extension, origin)) => {
                    &&& member(event.data, "continuation"@) matches Some(audit)
                    &&& member(audit, "id"@) == Some(JsonView::Text(handle))
                    &&& member(audit, "extension"@) == Some(JsonView::Text(extension))
                    &&& member(audit, "action"@) == Some(JsonView::Text(origin))
                },
            }
            &&& forall|name: Seq<char>|
                {
                    &&& name != "action"@
                    &&& name != "requested_by"@
                    &&& name != "args"@
                    &&& name != "capabilities"@
                    &&& name != "continuation"@
                } ==> #[trigger] member(event.data, name) is None
        },
{
    reveal_strlit("action.requested");
    reveal_strlit("action");
    reveal_strlit("requested_by");
    reveal_strlit("capabilities");
    reveal_strlit("args");
    reveal_strlit("continuation");
    reveal_strlit("id");
    reveal_strlit("extension");
    law_what_a_name_is("type"@, "action.requested"@);
    let none = Seq::<(Seq<char>, JsonView)>::empty();
    let one = inserted(none, "action"@, JsonView::Text(action));
    let two = inserted(one, "requested_by"@, JsonView::Text(requested_by));
    let three = inserted(two, "capabilities"@, texts_json(capabilities));
    let four = inserted(three, "args"@, args);
    let payload = request_payload(action, requested_by, capabilities, args, continuation);
    assert("action"@[1] != "args"@[1]);
    assert("action"@.len() != "requested_by"@.len());
    assert("action"@.len() != "capabilities"@.len());
    assert("requested_by"@[0] != "capabilities"@[0]);
    assert("requested_by"@[0] != "continuation"@[0]);
    assert("capabilities"@[1] != "continuation"@[1]);
    assert("action"@.len() != "continuation"@.len());
    assert("args"@.len() != "continuation"@.len());
    assert("id"@.len() != "extension"@.len());
    assert("id"@.len() != "action"@.len());
    assert("extension"@.len() != "action"@.len());
    assert forall|name: Seq<char>| #[trigger]
        lookup(four, name) == if name == "args"@ {
            Some(args)
        } else if name == "capabilities"@ {
            Some(texts_json(capabilities))
        } else if name == "requested_by"@ {
            Some(JsonView::Text(requested_by))
        } else if name == "action"@ {
            Some(JsonView::Text(action))
        } else {
            None
        } by {
        law_lookup_after_insert(none, "action"@, JsonView::Text(action), name);
        law_lookup_after_insert(one, "requested_by"@, JsonView::Text(requested_by), name);
        law_lookup_after_insert(two, "capabilities"@, texts_json(capabilities), name);
        law_lookup_after_insert(three, "args"@, args, name);
    }
    if let Some((handle, extension, origin)) = continuation {
        let audit = audit_json(handle, extension, origin);
        assert forall|name: Seq<char>| #[trigger]
            member(payload, name) == if name == "continuation"@ {
                Some(audit)
            } else {
                lookup(four, name)
            } by {
            law_lookup_after_insert(four, "continuation"@, audit, name);
        }
        let first = inserted(none, "id"@, JsonView::Text(handle));
        let second = inserted(first, "extension"@, JsonView::Text(extension));
        assert forall|name: Seq<char>| #[trigger]
            member(audit, name) == if name == "action"@ {
                Some(JsonView::Text(origin))
            } else if name == "extension"@ {
                Some(JsonView::Text(extension))
            } else if name == "id"@ {
                Some(JsonView::Text(handle))
            } else {
                None
            } by {
            law_lookup_after_insert(none, "id"@, JsonView::Text(handle), name);
            law_lookup_after_insert(first, "extension"@, JsonView::Text(extension), name);
            law_lookup_after_insert(second, "action"@, JsonView::Text(origin), name);
        }
    } else {
        assert forall|name: Seq<char>| #[trigger]
            member(payload, name) == lookup(four, name) by {}
    }
}

/// A filter asks for an event exactly where the event has the type and the source
/// that the filter names, as far as it names them.
pub proof fn law_filter_asks_by_type_and_source(filter: EventFilter, event: EventView)
    ensures
        filter.selects(event) <==> {
            &&& filter.kind matches Some(kind) ==> event.kind == kind@
            &&& filter.source matches Some(source) ==> event.source == source@
        },
{
}

} // verus!
