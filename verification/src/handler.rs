//! What a request to the hub asks for.
use vstd::prelude::*;

use crate::continuation::{
    law_use_leaves_live_grants, store_after_validate, validated, ContinuationGrant,
    ContinuationStore, GrantView, StoreView,
};
use crate::dispatch::{ensure_produced_event, produced_check};
use crate::error::{checked, Checked, ErrorView, SpindleError};
use crate::event::{
    built, event_outcome, law_request_is_recorded, request_event, ActionRequest,
    ContinuationAudit, Event, EventFilter, EventView,
};
use crate::identity::{is_uuid_text, lemma_some_uuid, new_id};
use crate::json::{lemma_array_view, lemma_object_view, member, Json, JsonView};
use crate::name_map::{ascending, lookup, names, NameMap};
use crate::protocol::HubRequest;
use crate::registered::{RegisteredExtension, RegisteredView};
use crate::routes::{find_extension, law_position_of_id, position_of_id};
use crate::text::{
    is_ascii_alphanumeric, is_control, is_whitespace, optional_view, owned_texts, views,
};
use crate::validate::{is_name_char, name_check, text_check, validate_name};

verus! {

/// What is to be done for a request.
#[allow(inconsistent_fields)]
#[derive(Debug, PartialEq, Eq)]
pub enum RequestPlan {
    /// Append an event to the log, then dispatch it.
    Emit {
        /// The event.
        event: Event,
    },
    /// Append an event that records a request to the log, then dispatch the
    /// action.
    Invoke {
        /// The event.
        event: Event,
        /// Action name.
        action: String,
        /// Action arguments.
        args: Json,
        /// Capabilities that come with the request.
        capabilities: Vec<String>,
    },
    /// Emit an event on behalf of the extension that holds a grant.
    EmitFor {
        /// The grant.
        grant: ContinuationGrant,
        /// Event type.
        kind: String,
        /// Optional event subject.
        subject: Option<String>,
        /// Event payload.
        data: Json,
    },
    /// Read the log.
    Query {
        /// What to look for.
        filter: EventFilter,
    },
    /// Read and check a manifest.
    Validate {
        /// Manifest path.
        manifest: String,
    },
    /// Install a package.
    Install {
        /// Package directory.
        package: String,
        /// Whether its entrypoint is run to collect dynamic surface.
        trust_runtime: bool,
    },
    /// List the installed extensions.
    List,
}

/// What is to be done for a request, with its texts as characters.
#[allow(inconsistent_fields)]
pub enum PlanView {
    /// Append and dispatch an event.
    Emit {
        /// The event.
        event: EventView,
    },
    /// Append an event and dispatch an action.
    Invoke {
        /// The event.
        event: EventView,
        /// Action name.
        action: Seq<char>,
        /// Action arguments.
        args: JsonView,
        /// Capabilities that come with the request.
        capabilities: Seq<Seq<char>>,
    },
    /// Emit an event on behalf of an extension.
    EmitFor {
        /// The grant.
        grant: GrantView,
        /// Event type.
        kind: Seq<char>,
        /// Event subject.
        subject: Option<Seq<char>>,
        /// Event payload.
        data: JsonView,
    },
    /// Read the log.
    Query {
        /// Event type to match.
        kind: Option<Seq<char>>,
        /// Event source to match.
        source: Option<Seq<char>>,
        /// How many of the last events are wanted.
        limit: Option<usize>,
    },
    /// Read and check a manifest.
    Validate {
        /// Manifest path.
        manifest: Seq<char>,
    },
    /// Install a package.
    Install {
        /// Package directory.
        package: Seq<char>,
        /// Whether its entrypoint is run.
        trust_runtime: bool,
    },
    /// List the installed extensions.
    List,
}

impl View for RequestPlan {
    type V = PlanView;

    open spec fn view(&self) -> PlanView {
        match *self {
            RequestPlan::Emit { event } => PlanView::Emit { event: event@ },
            RequestPlan::Invoke { event, action, args, capabilities } => PlanView::Invoke {
                event: event@,
                action: action@,
                args: args@,
                capabilities: views(capabilities@),
            },
            RequestPlan::EmitFor { grant, kind, subject, data } => PlanView::EmitFor {
                grant: grant@,
                kind: kind@,
                subject: optional_view(subject),
                data: data@,
            },
            RequestPlan::Query { filter } => PlanView::Query {
                kind: optional_view(filter.kind),
                source: optional_view(filter.source),
                limit: filter.limit,
            },
            RequestPlan::Validate { manifest } => PlanView::Validate { manifest: manifest@ },
            RequestPlan::Install { package, trust_runtime } => PlanView::Install {
                package: package@,
                trust_runtime,
            },
            RequestPlan::List => PlanView::List,
        }
    }
}

/// The plan that an event makes, unless there is none.
pub open spec fn emit_plan(event: Result<EventView, ErrorView>) -> Result<PlanView, ErrorView> {
    match event {
        Ok(event) => Ok(PlanView::Emit { event }),
        Err(error) => Err(error),
    }
}

/// The plan that a recorded request makes, unless it cannot be recorded.
pub open spec fn invoke_plan(
    event: Result<EventView, ErrorView>,
    action: Seq<char>,
    args: JsonView,
    capabilities: Seq<Seq<char>>,
) -> Result<PlanView, ErrorView> {
    match event {
        Ok(event) => Ok(PlanView::Invoke { event, action, args, capabilities }),
        Err(error) => Err(error),
    }
}

/// The name under which an extension's deferred request is recorded.
pub open spec fn continuation_requester(extension: Seq<char>) -> Seq<char> {
    extension + ":continuation"@
}

/// The plan for an action that a grant is used for.
pub open spec fn granted_invoke(
    grant: GrantView,
    action: Seq<char>,
    args: JsonView,
    id: Seq<char>,
    now: u64,
) -> Result<PlanView, ErrorView> {
    invoke_plan(
        request_event(
            action,
            continuation_requester(grant.extension),
            grant.capabilities,
            args,
            Some((grant.id, grant.extension, grant.action)),
            id,
            now,
        ),
        action,
        args,
        grant.capabilities,
    )
}

/// The plan for a request, given the continuation handles that are out, or none
/// where no handles are handed out.
pub open spec fn request_plan(
    request: HubRequest,
    grants: Option<StoreView>,
    id: Seq<char>,
    now: u64,
) -> Result<PlanView, ErrorView> {
    match request {
        HubRequest::Emit { kind, source, subject, data } => emit_plan(
            built(id, kind@, source@, optional_view(subject), data@, now),
        ),
        HubRequest::QueryEvents { kind, source, limit } => Ok(
            PlanView::Query { kind: optional_view(kind), source: optional_view(source), limit },
        ),
        HubRequest::Invoke { action, source, args } => invoke_plan(
            request_event(action@, source@, Seq::empty(), args@, None, id, now),
            action@,
            args@,
            Seq::empty(),
        ),
        HubRequest::ContinuationInvoke { continuation, action, args } => match grants {
            None => Err(ErrorView::ContinuationInvalid),
            Some(store) => match validated(store, continuation@, now) {
                Err(error) => Err(error),
                Ok(grant) => granted_invoke(grant, action@, args@, id, now),
            },
        },
        HubRequest::ContinuationEmit { continuation, kind, subject, data } => match grants {
            None => Err(ErrorView::ContinuationInvalid),
            Some(store) => match validated(store, continuation@, now) {
                Err(error) => Err(error),
                Ok(grant) => Ok(
                    PlanView::EmitFor {
                        grant,
                        kind: kind@,
                        subject: optional_view(subject),
                        data: data@,
                    },
                ),
            },
        },
        HubRequest::ValidateExtension { manifest } => Ok(
            PlanView::Validate { manifest: manifest@ },
        ),
        HubRequest::InstallExtension { package, trust_runtime } => Ok(
            PlanView::Install { package: package@, trust_runtime },
        ),
        HubRequest::ListExtensions => Ok(PlanView::List),
    }
}

/// The continuation handles that are out after a request: one that was used is
/// gone.
pub open spec fn grants_after(request: HubRequest, grants: StoreView, now: u64) -> StoreView {
    match request {
        HubRequest::ContinuationInvoke { continuation, .. } => store_after_validate(
            grants,
            continuation@,
            now,
        ),
        HubRequest::ContinuationEmit { continuation, .. } => store_after_validate(
            grants,
            continuation@,
            now,
        ),
        _ => grants,
    }
}

/// Whether planning a request may make an event, where continuation handles are
/// handed out or not.
pub open spec fn makes_event(request: HubRequest, handles: bool) -> bool {
    match request {
        HubRequest::Emit { .. } => true,
        HubRequest::Invoke { .. } => true,
        HubRequest::ContinuationInvoke { .. } => handles,
        _ => false,
    }
}

/// Whether the plan for a request rests on the time: an event is made, or a
/// well-formed continuation handle is used.
pub open spec fn rests_on_time(request: HubRequest, handles: bool) -> bool {
    match request {
        HubRequest::Emit { .. } => true,
        HubRequest::Invoke { .. } => true,
        HubRequest::ContinuationInvoke { continuation, .. } => handles && name_check(
            "continuation"@,
            continuation@,
        ) is Ok,
        HubRequest::ContinuationEmit { continuation, .. } => handles && name_check(
            "continuation"@,
            continuation@,
        ) is Ok,
        _ => false,
    }
}

/// A request that makes no event gets the same plan under any drawn identifier.
pub proof fn law_identifiers_are_for_events(
    request: HubRequest,
    grants: Option<StoreView>,
    id: Seq<char>,
    other_id: Seq<char>,
    now: u64,
)
    requires
        !makes_event(request, grants is Some),
    ensures
        request_plan(request, grants, id, now) == request_plan(request, grants, other_id, now),
{
}

/// A request that does not rest on the time gets the same plan, and leaves the
/// same continuation handles, at any time and under any drawn identifier.
pub proof fn law_timeless_requests(
    request: HubRequest,
    grants: Option<StoreView>,
    id: Seq<char>,
    other_id: Seq<char>,
    now: u64,
    other_now: u64,
)
    requires
        !rests_on_time(request, grants is Some),
    ensures
        request_plan(request, grants, id, now) == request_plan(
            request,
            grants,
            other_id,
            other_now,
        ),
        grants matches Some(store) ==> grants_after(request, store, now) == store,
{
}

/// The view of a plan or an error.
pub open spec fn plan_outcome(result: Result<RequestPlan, SpindleError>) -> Result<
    PlanView,
    ErrorView,
> {
    match result {
        Ok(plan) => Ok(plan@),
        Err(error) => Err(error@),
    }
}

/// The rule for an event that deferred work emits: the extension is installed, and
/// declares the event.
pub open spec fn continuation_emit_check(
    extensions: Seq<RegisteredView>,
    extension: Seq<char>,
    kind: Seq<char>,
) -> Checked {
    let at = position_of_id(extensions, extension);
    if 0 <= at < extensions.len() {
        produced_check(extensions[at], "continuation.emit"@, kind)
    } else {
        Err(ErrorView::ContinuationInvalid)
    }
}

/// The plan for an event that is emitted on behalf of the extension that holds a
/// grant: the event comes from that extension.
pub open spec fn granted_emit(
    extensions: Seq<RegisteredView>,
    grant: GrantView,
    kind: Seq<char>,
    subject: Option<Seq<char>>,
    data: JsonView,
    id: Seq<char>,
    now: u64,
) -> Result<PlanView, ErrorView> {
    match continuation_emit_check(extensions, grant.extension, kind) {
        Err(error) => Err(error),
        Ok(_) => emit_plan(built(id, kind, grant.extension, subject, data, now)),
    }
}

/// The name under which a deferred request is recorded is valid where that of the
/// extension is.
pub proof fn law_continuation_requester_is_name(field: Seq<char>, extension: Seq<char>)
    requires
        name_check(field, extension) is Ok,
    ensures
        name_check(field, continuation_requester(extension)) is Ok,
{
    reveal_strlit(":continuation");
    let tail = ":continuation"@;
    let whole = continuation_requester(extension);
    assert(whole[0] == extension[0]);
    assert(!is_whitespace(whole[0]));
    assert forall|i: int| 0 <= i < whole.len() implies !is_control(#[trigger] whole[i]) && (i >= 1
        ==> is_name_char(whole[i])) by {
        if i < extension.len() {
            assert(whole[i] == extension[i]);
        } else {
            assert(whole[i] == tail[i - extension.len()]);
            assert(is_ascii_alphanumeric(tail[i - extension.len()]) || tail[i - extension.len()]
                == ':');
        }
    }
}

/// A direct invocation is dispatched without capabilities, whatever the request.
pub proof fn law_direct_invoke_carries_no_capability(
    request: HubRequest,
    grants: Option<StoreView>,
    id: Seq<char>,
    now: u64,
)
    requires
        request is Invoke,
    ensures
        request_plan(request, grants, id, now) matches Ok(plan) ==> plan is Invoke
            && plan->capabilities.len() == 0 && plan->args == request->Invoke_args@,
{
}

/// A deferred request is planned only with a handle that is out and has not
/// expired, and with just the capabilities of its grant.
pub proof fn law_deferred_requests_need_a_grant(
    request: HubRequest,
    grants: Option<StoreView>,
    id: Seq<char>,
    now: u64,
)
    requires
        request is ContinuationInvoke || request is ContinuationEmit,
    ensures
        ({
            let handle = match request {
                HubRequest::ContinuationInvoke { continuation, .. } => continuation@,
                HubRequest::ContinuationEmit { continuation, .. } => continuation@,
                _ => Seq::empty(),
            };
            request_plan(request, grants, id, now) matches Ok(plan) ==> {
                &&& grants is Some
                &&& validated(grants->0, handle, now) is Ok
                &&& plan is Invoke ==> plan->capabilities == validated(
                    grants->0,
                    handle,
                    now,
                )->Ok_0.capabilities
                &&& plan is EmitFor ==> plan->grant == validated(grants->0, handle, now)->Ok_0
            }
        }),
{
}

/// An event that deferred work emits comes from the extension that was granted the
/// handle, and that extension declares it.
pub proof fn law_deferred_events_are_declared(
    extensions: Seq<RegisteredView>,
    grant: GrantView,
    kind: Seq<char>,
    subject: Option<Seq<char>>,
    data: JsonView,
    id: Seq<char>,
    now: u64,
)
    ensures
        granted_emit(extensions, grant, kind, subject, data, id, now) matches Ok(plan) ==> {
            let at = position_of_id(extensions, grant.extension);
            &&& plan is Emit
            &&& plan->Emit_event.source == grant.extension
            &&& 0 <= at < extensions.len()
            &&& extensions[at].produces.contains(plan->Emit_event.kind)
        },
{
}

fn plan_event(built_event: Result<Event, SpindleError>) -> (result: Result<
    RequestPlan,
    SpindleError,
>)
    ensures
        plan_outcome(result) == emit_plan(event_outcome(built_event)),
{
    match built_event {
        Ok(event) => Ok(RequestPlan::Emit { event }),
        Err(error) => Err(error),
    }
}

fn plan_invoke(
    action: String,
    requested_by: String,
    capabilities: Vec<String>,
    args: Json,
    audit: Option<ContinuationAudit>,
    id: String,
    now: u64,
) -> (result: Result<RequestPlan, SpindleError>)
    ensures
        plan_outcome(result) == invoke_plan(
            request_event(
                action@,
                requested_by@,
                views(capabilities@),
                args@,
                optional_view(audit),
                id@,
                now,
            ),
            action@,
            args@,
            views(capabilities@),
        ),
{
    let request: ActionRequest = ActionRequest {
        action: action.clone(),
        requested_by,
        capabilities: owned_texts(capabilities.as_slice()),
        args: args.clone(),
        continuation: audit,
    };
    match request.into_event_with(id, now) {
        Ok(event) => Ok(RequestPlan::Invoke { event, action, args, capabilities }),
        Err(error) => Err(error),
    }
}

/// Plan an action that a grant is used for.
pub fn continuation_invoke(
    grant: ContinuationGrant,
    action: String,
    args: Json,
    id: String,
    now: u64,
) -> (result: Result<RequestPlan, SpindleError>)
    ensures
        plan_outcome(result) == granted_invoke(grant@, action@, args@, id@, now),
{
    let mut requested_by: String = grant.extension.clone();
    requested_by.append(":continuation");
    let audit: ContinuationAudit = ContinuationAudit {
        id: grant.id,
        extension: grant.extension,
        action: grant.action,
    };
    plan_invoke(action, requested_by, grant.capabilities, args, Some(audit), id, now)
}

/// Check that deferred work of an extension may emit an event.
pub fn ensure_continuation_emit_allowed(
    extensions: &[RegisteredExtension],
    extension_id: &str,
    kind: &str,
) -> (result: Result<(), SpindleError>)
    ensures
        checked(result) == continuation_emit_check(views(extensions@), extension_id@, kind@),
{
    let at: usize = find_extension(extensions, extension_id);
    if at < extensions.len() {
        assert(views(extensions@)[at as int] == extensions@[at as int]@);
        ensure_produced_event(&extensions[at], "continuation.emit", kind)
    } else {
        Err(SpindleError::ContinuationInvalid)
    }
}

/// Plan an event that is emitted on behalf of the extension that holds a grant.
pub fn continuation_emit(
    extensions: &[RegisteredExtension],
    grant: ContinuationGrant,
    kind: String,
    subject: Option<String>,
    data: Json,
    now: u64,
) -> (result: Result<RequestPlan, SpindleError>)
    ensures
        exists|id: Seq<char>|
            is_uuid_text(id) && plan_outcome(result) == #[trigger] granted_emit(
                views(extensions@),
                grant@,
                kind@,
                optional_view(subject),
                data@,
                id,
                now,
            ),
{
    match ensure_continuation_emit_allowed(
        extensions,
        grant.extension.as_str(),
        kind.as_str(),
    ) {
        Ok(()) => {
            let id: String = new_id();
            continuation_emit_with(extensions, grant, kind, subject, data, id, now)
        },
        Err(error) => {
            proof {
                let id = lemma_some_uuid();
                assert(is_uuid_text(id) && granted_emit(
                    views(extensions@),
                    grant@,
                    kind@,
                    optional_view(subject),
                    data@,
                    id,
                    now,
                ) == Err::<PlanView, ErrorView>(error@));
            }
            Err(error)
        },
    }
}

/// Plan an event, with the given identifier, that is emitted on behalf of the
/// extension that holds a grant.
pub fn continuation_emit_with(
    extensions: &[RegisteredExtension],
    grant: ContinuationGrant,
    kind: String,
    subject: Option<String>,
    data: Json,
    id: String,
    now: u64,
) -> (result: Result<RequestPlan, SpindleError>)
    ensures
        plan_outcome(result) == granted_emit(
            views(extensions@),
            grant@,
            kind@,
            optional_view(subject),
            data@,
            id@,
            now,
        ),
{
    match ensure_continuation_emit_allowed(
        extensions,
        grant.extension.as_str(),
        kind.as_str(),
    ) {
        Ok(()) => {},
        Err(error) => {
            return Err(error);
        },
    }
    plan_event(Event::builder(kind, grant.extension).subject(subject).data(data).build_with(id, now))
}

/// Whether the plan for a request rests on the time, where continuation handles
/// are handed out or not.
pub fn request_needs_time(request: &HubRequest, handles: bool) -> (needs: bool)
    ensures
        needs == rests_on_time(*request, handles),
{
    match request {
        HubRequest::Emit { .. } => true,
        HubRequest::Invoke { .. } => true,
        HubRequest::ContinuationInvoke { continuation, .. } => handles && validate_name(
            "continuation",
            continuation.as_str(),
        ).is_ok(),
        HubRequest::ContinuationEmit { continuation, .. } => handles && validate_name(
            "continuation",
            continuation.as_str(),
        ).is_ok(),
        _ => false,
    }
}

/// The answer to a request that made an event: the event, and the reports of the
/// actions that ran for it.
pub fn dispatch_answer(event: Json, dispatches: Vec<Json>) -> (answer: Json)
    ensures
        answer@ == JsonView::Object(
            seq![("dispatches"@, JsonView::Array(views(dispatches@))), ("event"@, event@)],
        ),
{
    let ghost reports = views(dispatches@);
    proof {
        lemma_array_view(dispatches);
    }
    let members: NameMap<Json> = NameMap {
        entries: vec![
            ("dispatches".to_owned(), Json::Array(dispatches)),
            ("event".to_owned(), event),
        ],
    };
    proof {
        lemma_object_view(members);
        assert(members@ =~= seq![
            ("dispatches"@, JsonView::Array(reports)),
            ("event"@, event@),
        ]);
    }
    Json::Object(members)
}

fn plan_without_event(request: HubRequest) -> (result: Result<RequestPlan, SpindleError>)
    requires
        !makes_event(request, false),
    ensures
        forall|id: Seq<char>, now: u64|
            plan_outcome(result) == #[trigger] request_plan(request, None, id, now),
{
    match request {
        HubRequest::QueryEvents { kind, source, limit } => Ok(
            RequestPlan::Query { filter: EventFilter { kind, source, limit } },
        ),
        HubRequest::ValidateExtension { manifest } => Ok(RequestPlan::Validate { manifest }),
        HubRequest::InstallExtension { package, trust_runtime } => Ok(
            RequestPlan::Install { package, trust_runtime },
        ),
        HubRequest::ListExtensions => Ok(RequestPlan::List),
        _ => Err(SpindleError::ContinuationInvalid),
    }
}

/// Plan a request where no continuation handles are handed out. A fresh identifier
/// is drawn where the request makes an event.
pub fn execute_request(request: HubRequest, now: u64) -> (result: Result<
    RequestPlan,
    SpindleError,
>)
    ensures
        exists|id: Seq<char>|
            is_uuid_text(id) && plan_outcome(result) == #[trigger] request_plan(
                request,
                None,
                id,
                now,
            ),
        !makes_event(request, false) ==> forall|id: Seq<char>, time: u64|
            plan_outcome(result) == #[trigger] request_plan(request, None, id, time),
{
    match request {
        HubRequest::Emit { .. } | HubRequest::Invoke { .. } => {
            let id: String = new_id();
            plan_request(request, id, now)
        },
        _ => {
            let result: Result<RequestPlan, SpindleError> = plan_without_event(request);
            proof {
                let id = lemma_some_uuid();
                assert(is_uuid_text(id) && plan_outcome(result) == request_plan(
                    request,
                    None,
                    id,
                    now,
                ));
            }
            result
        },
    }
}

/// Plan a request with the continuation handles that are out. A fresh identifier
/// is drawn where the request makes an event.
pub fn execute_request_with_continuations(
    request: HubRequest,
    store: &mut ContinuationStore,
    now: u64,
) -> (result: Result<RequestPlan, SpindleError>)
    ensures
        old(store).well_formed() ==> final(store).well_formed(),
        final(store)@ == grants_after(request, old(store)@, now),
        exists|id: Seq<char>|
            is_uuid_text(id) && plan_outcome(result) == #[trigger] request_plan(
                request,
                Some(old(store)@),
                id,
                now,
            ),
        !makes_event(request, true) ==> forall|id: Seq<char>|
            plan_outcome(result) == #[trigger] request_plan(request, Some(old(store)@), id, now),
{
    let ghost asked = request;
    let ghost grants = Some(store@);
    let ghost spare = lemma_some_uuid();
    match request {
        HubRequest::ContinuationInvoke { continuation, action, args } => {
            match store.validate(continuation.as_str(), now) {
                Ok(grant) => {
                    let id: String = new_id();
                    let ghost drawn = id@;
                    let result: Result<RequestPlan, SpindleError> = continuation_invoke(
                        grant,
                        action,
                        args,
                        id,
                        now,
                    );
                    assert(plan_outcome(result) == request_plan(asked, grants, drawn, now));
                    result
                },
                Err(error) => {
                    assert(request_plan(asked, grants, spare, now) == Err::<PlanView, ErrorView>(
                        error@,
                    ));
                    Err(error)
                },
            }
        },
        HubRequest::ContinuationEmit { continuation, kind, subject, data } => {
            let result: Result<RequestPlan, SpindleError> = plan_deferred_emit(
                store,
                continuation,
                kind,
                subject,
                data,
                now,
            );
            assert(plan_outcome(result) == request_plan(asked, grants, spare, now));
            result
        },
        _ => {
            let result: Result<RequestPlan, SpindleError> = execute_request(request, now);
            proof {
                let id = choose|id: Seq<char>|
                    is_uuid_text(id) && plan_outcome(result) == #[trigger] request_plan(
                        asked,
                        None,
                        id,
                        now,
                    );
                assert(plan_outcome(result) == request_plan(asked, grants, id, now));
                assert forall|id: Seq<char>| !makes_event(asked, true) implies plan_outcome(result)
                    == #[trigger] request_plan(asked, grants, id, now) by {
                    assert(plan_outcome(result) == request_plan(asked, None, id, now));
                }
            }
            result
        },
    }
}

fn plan_deferred_emit(
    store: &mut ContinuationStore,
    continuation: String,
    kind: String,
    subject: Option<String>,
    data: Json,
    now: u64,
) -> (result: Result<RequestPlan, SpindleError>)
    ensures
        old(store).well_formed() ==> final(store).well_formed(),
        final(store)@ == store_after_validate(old(store)@, continuation@, now),
        plan_outcome(result) == match validated(old(store)@, continuation@, now) {
            Err(error) => Err(error),
            Ok(grant) => Ok(
                PlanView::EmitFor {
                    grant,
                    kind: kind@,
                    subject: optional_view(subject),
                    data: data@,
                },
            ),
        },
{
    match store.validate(continuation.as_str(), now) {
        Ok(grant) => Ok(RequestPlan::EmitFor { grant, kind, subject, data }),
        Err(error) => Err(error),
    }
}

/// Plan a request, with the given identifier for its event, where no continuation
/// handles are handed out.
pub fn plan_request(request: HubRequest, id: String, now: u64) -> (result: Result<
    RequestPlan,
    SpindleError,
>)
    ensures
        plan_outcome(result) == request_plan(request, None, id@, now),
{
    match request {
        HubRequest::Emit { kind, source, subject, data } => plan_event(
            Event::builder(kind, source).subject(subject).data(data).build_with(id, now),
        ),
        HubRequest::Invoke { action, source, args } => {
            let capabilities: Vec<String> = Vec::new();
            assert(views(capabilities@) =~= Seq::<Seq<char>>::empty());
            plan_invoke(action, source, capabilities, args, None, id, now)
        },
        _ => plan_without_event(request),
    }
}

/// Plan a request, with the given identifier for its event, with the continuation
/// handles that are out.
pub fn plan_request_with_continuations(
    request: HubRequest,
    store: &mut ContinuationStore,
    id: String,
    now: u64,
) -> (result: Result<RequestPlan, SpindleError>)
    ensures
        old(store).well_formed() ==> final(store).well_formed(),
        final(store)@ == grants_after(request, old(store)@, now),
        plan_outcome(result) == request_plan(request, Some(old(store)@), id@, now),
{
    match request {
        HubRequest::ContinuationInvoke { continuation, action, args } => {
            match store.validate(continuation.as_str(), now) {
                Ok(grant) => continuation_invoke(grant, action, args, id, now),
                Err(error) => Err(error),
            }
        },
        HubRequest::ContinuationEmit { continuation, kind, subject, data } => plan_deferred_emit(
            store,
            continuation,
            kind,
            subject,
            data,
            now,
        ),
        _ => plan_request(request, id, now),
    }
}

/// A request to emit makes the event that it describes, with its type, source,
/// subject and payload, or is refused.
pub proof fn law_emit_makes_the_event(
    kind: String,
    source: String,
    subject: Option<String>,
    data: Json,
    grants: Option<StoreView>,
    id: Seq<char>,
    now: u64,
    result: Result<RequestPlan, SpindleError>,
)
    requires
        plan_outcome(result) == request_plan(
            HubRequest::Emit { kind, source, subject, data },
            grants,
            id,
            now,
        ),
    ensures
        result is Ok <==> {
            &&& name_check("type"@, kind@) is Ok
            &&& name_check("source"@, source@) is Ok
            &&& subject matches Some(text) ==> text_check("subject"@, text@) is Ok
            &&& data is Object
        },
        result matches Ok(plan) ==> {
            &&& plan matches RequestPlan::Emit { event }
            &&& event.kind@ == kind@
            &&& event.source@ == source@
            &&& subject matches Some(text) ==> event.subject is Some && event.subject->0@ == text@
            &&& subject is None ==> event.subject is None
            &&& event.data@ == data@
            &&& event.id@ == id
            &&& event.time_unix_ms == now
        },
{
    assert(data@ is Object <==> data is Object);
}

/// A direct invocation dispatches the action that it names with the arguments that
/// it gives, and records just that in the name of who asked.
pub proof fn law_invoke_runs_what_it_names(
    action: String,
    source: String,
    args: Json,
    grants: Option<StoreView>,
    id: Seq<char>,
    now: u64,
    result: Result<RequestPlan, SpindleError>,
)
    requires
        plan_outcome(result) == request_plan(
            HubRequest::Invoke { action, source, args },
            grants,
            id,
            now,
        ),
    ensures
        result is Ok <==> name_check("source"@, source@) is Ok,
        result matches Ok(plan) ==> {
            &&& plan matches RequestPlan::Invoke {
                event,
                action: run,
                args: with,
                capabilities,
            }
            &&& run@ == action@
            &&& with@ == args@
            &&& capabilities@.len() == 0
            &&& event.id@ == id
            &&& event.time_unix_ms == now
            &&& event.kind@ == "action.requested"@
            &&& event.source@ == source@
            &&& member(event.data@, "action"@) == Some(JsonView::Text(action@))
            &&& member(event.data@, "requested_by"@) == Some(JsonView::Text(source@))
            &&& member(event.data@, "args"@) == Some(args@)
            &&& member(event.data@, "continuation"@) is None
        },
{
    law_request_is_recorded(action@, source@, Seq::empty(), args@, None, id, now);
    if let Ok(plan) = result {
        assert(plan@->capabilities.len() == 0);
    }
}

/// Deferred work with a good handle dispatches the action that it names with the
/// arguments that it gives and the capabilities of the grant, and is recorded as
/// deferred work of the extension that was granted the handle. Without a good handle
/// it is refused as the handle is.
pub proof fn law_deferred_invoke_runs_what_it_names(
    continuation: String,
    action: String,
    args: Json,
    store: StoreView,
    id: Seq<char>,
    now: u64,
    result: Result<RequestPlan, SpindleError>,
)
    requires
        plan_outcome(result) == request_plan(
            HubRequest::ContinuationInvoke { continuation, action, args },
            Some(store),
            id,
            now,
        ),
    ensures
        validated(store, continuation@, now) matches Err(error) ==> result is Err
            && result->Err_0@ == error,
        validated(store, continuation@, now) matches Ok(grant) ==> {
            &&& result is Ok <==> name_check("source"@, grant.extension + ":continuation"@) is Ok
            &&& result matches Ok(plan) ==> {
                &&& plan matches RequestPlan::Invoke {
                    event,
                    action: run,
                    args: with,
                    capabilities,
                }
                &&& run@ == action@
                &&& with@ == args@
                &&& views(capabilities@) == grant.capabilities
                &&& event.id@ == id
                &&& event.time_unix_ms == now
                &&& event.kind@ == "action.requested"@
                &&& event.source@ == grant.extension + ":continuation"@
                &&& member(event.data@, "action"@) == Some(JsonView::Text(action@))
                &&& member(event.data@, "args"@) == Some(args@)
                &&& member(event.data@, "continuation"@) matches Some(audit) && member(
                    audit,
                    "id"@,
                ) == Some(JsonView::Text(grant.id)) && member(audit, "extension"@) == Some(
                    JsonView::Text(grant.extension),
                ) && member(audit, "action"@) == Some(JsonView::Text(grant.action))
            }
        },
{
    if let Ok(grant) = validated(store, continuation@, now) {
        law_request_is_recorded(
            action@,
            grant.extension + ":continuation"@,
            grant.capabilities,
            args@,
            Some((grant.id, grant.extension, grant.action)),
            id,
            now,
        );
    }
}

/// A deferred event with a good handle is to be emitted for the grant of that handle,
/// with the type, subject and payload that it gives. Without a good handle it is
/// refused as the handle is.
pub proof fn law_deferred_emit_is_for_its_grant(
    continuation: String,
    kind: String,
    subject: Option<String>,
    data: Json,
    store: StoreView,
    id: Seq<char>,
    now: u64,
    result: Result<RequestPlan, SpindleError>,
)
    requires
        plan_outcome(result) == request_plan(
            HubRequest::ContinuationEmit { continuation, kind, subject, data },
            Some(store),
            id,
            now,
        ),
    ensures
        validated(store, continuation@, now) matches Err(error) ==> result is Err
            && result->Err_0@ == error,
        validated(store, continuation@, now) matches Ok(found) ==> {
            &&& result matches Ok(RequestPlan::EmitFor {
                grant,
                kind: emitted,
                subject: about,
                data: payload,
            })
            &&& grant.extension@ == found.extension
            &&& grant@ == found
            &&& emitted@ == kind@
            &&& subject matches Some(text) ==> about is Some && about->0@ == text@
            &&& subject is None ==> about is None
            &&& payload@ == data@
        },
{
}

/// An event that deferred work emits is the one that was asked for, in the name of
/// the extension that was granted the handle.
pub proof fn law_deferred_event_is_the_one_asked_for(
    extensions: Seq<RegisteredView>,
    grant: GrantView,
    kind: Seq<char>,
    subject: Option<Seq<char>>,
    data: JsonView,
    id: Seq<char>,
    now: u64,
    result: Result<RequestPlan, SpindleError>,
)
    requires
        plan_outcome(result) == granted_emit(extensions, grant, kind, subject, data, id, now),
    ensures
        result matches Ok(plan) ==> {
            &&& plan matches RequestPlan::Emit { event }
            &&& event.kind@ == kind
            &&& event.source@ == grant.extension
            &&& subject matches Some(text) ==> event.subject is Some && event.subject->0@ == text
            &&& subject is None ==> event.subject is None
            &&& event.data@ == data
            &&& event.id@ == id
            &&& event.time_unix_ms == now
        },
        result is Ok <==> {
            &&& exists|i: int|
                {
                    &&& 0 <= i < extensions.len()
                    &&& (#[trigger] extensions[i]).id == grant.extension
                    &&& forall|j: int|
                        0 <= j < i ==> (#[trigger] extensions[j]).id != grant.extension
                    &&& extensions[i].produces.contains(kind)
                }
            &&& name_check("type"@, kind) is Ok
            &&& name_check("source"@, grant.extension) is Ok
            &&& subject matches Some(text) ==> text_check("subject"@, text) is Ok
            &&& data is Object
        },
{
    law_position_of_id(extensions, grant.extension);
    let at = position_of_id(extensions, grant.extension);
    if at < extensions.len() {
        assert(extensions[at].id == grant.extension);
    }
    if exists|i: int|
        {
            &&& 0 <= i < extensions.len()
            &&& (#[trigger] extensions[i]).id == grant.extension
            &&& forall|j: int| 0 <= j < i ==> (#[trigger] extensions[j]).id != grant.extension
            &&& extensions[i].produces.contains(kind)
        } {
        let i = choose|i: int|
            {
                &&& 0 <= i < extensions.len()
                &&& (#[trigger] extensions[i]).id == grant.extension
                &&& forall|j: int| 0 <= j < i ==> (#[trigger] extensions[j]).id != grant.extension
                &&& extensions[i].produces.contains(kind)
            };
        assert(extensions[i].id == grant.extension);
        assert(at == i);
    }
}

/// A query reads the log with a filter that asks for just the events of the requested
/// type, if one is given, and of the requested source, if one is given, and for no
/// more of the last of them than requested.
pub proof fn law_query_asks_for_what_was_requested(
    kind: Option<String>,
    source: Option<String>,
    limit: Option<usize>,
    grants: Option<StoreView>,
    id: Seq<char>,
    now: u64,
    result: Result<RequestPlan, SpindleError>,
    event: EventView,
)
    requires
        plan_outcome(result) == request_plan(
            HubRequest::QueryEvents { kind, source, limit },
            grants,
            id,
            now,
        ),
    ensures
        result matches Ok(RequestPlan::Query { filter }) && filter.limit == limit && (
        filter.selects(event) <==> {
            &&& kind matches Some(wanted) ==> event.kind == wanted@
            &&& source matches Some(wanted) ==> event.source == wanted@
        }),
{
    let plan = result->Ok_0;
    assert(plan is Query);
}

/// The requests about extensions are carried out on the manifest or the package that
/// they name; runtime surface is collected exactly where that is asked for.
pub proof fn law_extension_requests_name_their_subject(
    manifest: String,
    package: String,
    trust_runtime: bool,
    grants: Option<StoreView>,
    id: Seq<char>,
    now: u64,
    validated_as: Result<RequestPlan, SpindleError>,
    installed_as: Result<RequestPlan, SpindleError>,
    listed_as: Result<RequestPlan, SpindleError>,
)
    requires
        plan_outcome(validated_as) == request_plan(
            HubRequest::ValidateExtension { manifest },
            grants,
            id,
            now,
        ),
        plan_outcome(installed_as) == request_plan(
            HubRequest::InstallExtension { package, trust_runtime },
            grants,
            id,
            now,
        ),
        plan_outcome(listed_as) == request_plan(HubRequest::ListExtensions, grants, id, now),
    ensures
        validated_as matches Ok(RequestPlan::Validate { manifest: path }) && path@ == manifest@,
        installed_as matches Ok(RequestPlan::Install { package: path, trust_runtime: trusted })
            && path@ == package@ && trusted == trust_runtime,
        listed_as matches Ok(RequestPlan::List),
{
}

/// Deferred requests use up their handle, and leave the other grants that have not
/// expired; no other request touches a grant. Where no handles are handed out,
/// deferred requests are refused.
pub proof fn law_requests_use_up_handles(
    request: HubRequest,
    store: StoreView,
    other: Seq<char>,
    id: Seq<char>,
    now: u64,
)
    requires
        ascending(names(store)),
    ensures
        !(request is ContinuationInvoke || request is ContinuationEmit) ==> grants_after(
            request,
            store,
            now,
        ) == store,
        request is ContinuationInvoke || request is ContinuationEmit ==> {
            let handle = match request {
                HubRequest::ContinuationInvoke { continuation, .. } => continuation@,
                HubRequest::ContinuationEmit { continuation, .. } => continuation@,
                _ => Seq::empty(),
            };
            &&& request_plan(request, None, id, now) == Err::<PlanView, ErrorView>(
                ErrorView::ContinuationInvalid,
            )
            &&& name_check("continuation"@, handle) is Err ==> grants_after(request, store, now)
                == store
            &&& name_check("continuation"@, handle) is Ok ==> (lookup(
                grants_after(request, store, now),
                other,
            ) is Some <==> other != handle && lookup(store, other) is Some && now < lookup(
                store,
                other,
            )->0.expires_unix_ms)
        },
{
    match request {
        HubRequest::ContinuationInvoke { continuation, .. } => {
            law_use_leaves_live_grants(store, continuation@, other, now);
        },
        HubRequest::ContinuationEmit { continuation, .. } => {
            law_use_leaves_live_grants(store, continuation@, other, now);
        },
        _ => {},
    }
}

} // verus!
