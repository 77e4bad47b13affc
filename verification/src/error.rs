//! The error type shared by the kernel and its command line.
use vstd::prelude::*;

use crate::text::views;

verus! {

/// Classes of I/O failures that the kernel tells apart.
#[derive(Debug, Clone, Copy, PartialEq, Eq, Structural)]
pub enum IoKind {
    /// Something that was looked for is not there.
    NotFound,
    /// Something that was to be created is there already.
    AlreadyExists,
    /// Input is not valid text.
    InvalidData,
    /// Input ended in the middle of a message.
    UnexpectedEof,
    /// Waiting took too long.
    TimedOut,
    /// Any other failure.
    Other,
}

/// Error type shared by the spindle kernel and CLI.
#[derive(Debug, PartialEq, Eq)]
pub enum SpindleError {
    /// A named field failed validation.
    InvalidField {
        /// Field name.
        field: &'static str,
        /// Validation failure reason.
        reason: &'static str,
    },
    /// A dispatch request did not grant a capability required by an action.
    MissingActionCapability {
        /// Action name.
        action: String,
        /// Missing capability.
        capability: String,
    },
    /// An extension surface is already owned by another installed extension.
    SurfaceConflict {
        /// Surface kind.
        surface: &'static str,
        /// Surface name.
        name: String,
        /// Extension that already owns the surface.
        existing_extension: String,
        /// Extension being registered.
        new_extension: String,
    },
    /// A client or route attempted to grant an unauthorized capability.
    CapabilityGrantDenied {
        /// Grant kind.
        grant_kind: &'static str,
        /// Client source or extension id trying to grant a capability.
        grantor: String,
        /// Capability being granted.
        capability: String,
    },
    /// A direct client attempted to emit an unauthorized event.
    EventEmitDenied {
        /// Event source.
        event_source: String,
        /// Event kind.
        kind: String,
    },
    /// A route references an event kind that no installed extension owns.
    UnknownRouteEvent {
        /// Route-owning extension identifier.
        extension: String,
        /// Unknown event kind.
        event: String,
    },
    /// A route references an unknown event source extension.
    UnknownRouteSource {
        /// Route-owning extension identifier.
        extension: String,
        /// Unknown source extension identifier.
        route_source: String,
    },
    /// A route references an action that no installed extension exposes.
    UnknownRouteAction {
        /// Route-owning extension identifier.
        extension: String,
        /// Unknown action name.
        action: String,
    },
    /// A route grant policy references an unknown route-owning extension.
    UnknownPolicyGrantor {
        /// Route grant policy grantor.
        grantor: String,
    },
    /// A route grant policy references an unknown event source extension.
    UnknownPolicyGrantSource {
        /// Route grant policy grantor.
        grantor: String,
        /// Unknown source extension identifier.
        grant_source: String,
    },
    /// A route grant policy references an unknown event kind.
    UnknownPolicyGrantEvent {
        /// Route grant policy grantor.
        grantor: String,
        /// Unknown event kind.
        event: String,
    },
    /// A route grant policy does not match any route owned by the grantor extension.
    OrphanPolicyGrant {
        /// Route grant policy grantor.
        grantor: String,
        /// Event source in the grant policy.
        grant_source: String,
        /// Event kind in the grant policy.
        event: String,
    },
    /// A legacy route grant policy shape was used instead of route grant objects.
    LegacyRouteGrantPolicy {
        /// Route grant policy grantor.
        grantor: String,
    },
    /// Installed routes reference unresolved surface.
    RegistryValidationFailed {
        /// One message for each extension that failed.
        messages: Vec<String>,
    },
    /// An extension action produced an undeclared event kind.
    UndeclaredProducedEvent {
        /// Extension identifier.
        extension: String,
        /// Action name.
        action: String,
        /// Event kind.
        kind: String,
    },
    /// A stdio extension requires trusted runtime execution to discover surface.
    RuntimeTrustRequired {
        /// Extension identifier.
        extension: String,
    },
    /// A JSONL protocol message exceeded the configured byte limit.
    MessageTooLarge {
        /// Maximum accepted bytes.
        limit: usize,
    },
    /// A trusted runtime entrypoint changed after registration.
    ExtensionTrustChanged {
        /// Extension identifier.
        extension: String,
        /// Trusted entrypoint path.
        entrypoint: String,
    },
    /// The entrypoint of an extension package is missing.
    EntrypointNotFound {
        /// Extension identifier.
        extension: String,
        /// Expected entrypoint path.
        path: String,
    },
    /// The entrypoint of an extension package is not executable.
    EntrypointNotExecutable {
        /// Extension identifier.
        extension: String,
        /// Entrypoint path.
        path: String,
    },
    /// The user's home directory could not be resolved.
    MissingHome,
    /// A Unix socket already has a live server.
    SocketInUse {
        /// Socket path.
        path: String,
    },
    /// No installed extension exposes the requested action.
    ActionNotInstalled {
        /// Requested action.
        action: String,
    },
    /// An installed extension exposes an action but has no entrypoint.
    MissingExtensionEntrypoint {
        /// Extension identifier.
        extension: String,
    },
    /// An extension action process failed.
    ExtensionActionFailed {
        /// Extension identifier.
        extension: String,
        /// Action name.
        action: String,
        /// Process exit code.
        status: Option<i32>,
        /// Standard error output.
        stderr: String,
    },
    /// Extension registration process failed.
    ExtensionRegistrationFailed {
        /// Extension identifier.
        extension: String,
        /// Process exit code.
        status: Option<i32>,
        /// Standard error output.
        stderr: String,
    },
    /// Extension registration returned invalid structured output.
    ExtensionRegistrationInvalid {
        /// Extension identifier.
        extension: String,
        /// Parser message.
        detail: String,
    },
    /// Extension host returned an invalid JSONL protocol message.
    ExtensionHostProtocolInvalid {
        /// Extension identifier.
        extension: String,
        /// Parser message.
        detail: String,
    },
    /// Extension host closed unexpectedly.
    ExtensionHostClosed {
        /// Extension identifier.
        extension: String,
    },
    /// Extension host returned an unexpected protocol response.
    ExtensionHostError {
        /// Extension identifier.
        extension: String,
        /// Failure message.
        message: String,
    },
    /// Extension host did not answer before the request timeout.
    ExtensionHostTimedOut {
        /// Extension identifier.
        extension: String,
        /// Timeout in milliseconds.
        timeout_ms: u64,
    },
    /// Process-extension contract serialization failed.
    ExtensionContract {
        /// Message of the contract error.
        detail: String,
    },
    /// An extension action returned invalid structured output.
    ExtensionOutputInvalid {
        /// Extension identifier.
        extension: String,
        /// Action name.
        action: String,
        /// Parser message.
        detail: String,
    },
    /// Continuation handle is unknown or malformed.
    ContinuationInvalid,
    /// Continuation handle is expired.
    ContinuationExpired,
    /// Event dispatch recursed too deeply.
    DispatchDepthExceeded,
    /// System clock returned a time before the Unix epoch.
    Clock,
    /// Filesystem or stream I/O failed.
    Io {
        /// Class of the failure.
        class: IoKind,
        /// Message of the failure.
        message: String,
    },
    /// JSON parsing or serialization failed.
    Json {
        /// Message of the parser.
        message: String,
    },
}

/// An error with its texts as characters.
pub enum ErrorView {
    /// A named field failed validation.
    InvalidField {
        /// Field name.
        field: Seq<char>,
        /// Validation failure reason.
        reason: Seq<char>,
    },
    /// A dispatch request did not grant a capability required by an action.
    MissingActionCapability {
        /// Action name.
        action: Seq<char>,
        /// Missing capability.
        capability: Seq<char>,
    },
    /// An extension surface is already owned by another installed extension.
    SurfaceConflict {
        /// Surface kind.
        surface: Seq<char>,
        /// Surface name.
        name: Seq<char>,
        /// Extension that already owns the surface.
        existing_extension: Seq<char>,
        /// Extension being registered.
        new_extension: Seq<char>,
    },
    /// A client or route attempted to grant an unauthorized capability.
    CapabilityGrantDenied {
        /// Grant kind.
        grant_kind: Seq<char>,
        /// Client source or extension id trying to grant a capability.
        grantor: Seq<char>,
        /// Capability being granted.
        capability: Seq<char>,
    },
    /// A direct client attempted to emit an unauthorized event.
    EventEmitDenied {
        /// Event source.
        event_source: Seq<char>,
        /// Event kind.
        kind: Seq<char>,
    },
    /// A route references an event kind that no installed extension owns.
    UnknownRouteEvent {
        /// Route-owning extension identifier.
        extension: Seq<char>,
        /// Unknown event kind.
        event: Seq<char>,
    },
    /// A route references an unknown event source extension.
    UnknownRouteSource {
        /// Route-owning extension identifier.
        extension: Seq<char>,
        /// Unknown source extension identifier.
        route_source: Seq<char>,
    },
    /// A route references an action that no installed extension exposes.
    UnknownRouteAction {
        /// Route-owning extension identifier.
        extension: Seq<char>,
        /// Unknown action name.
        action: Seq<char>,
    },
    /// A route grant policy references an unknown route-owning extension.
    UnknownPolicyGrantor {
        /// Route grant policy grantor.
        grantor: Seq<char>,
    },
    /// A route grant policy references an unknown event source extension.
    UnknownPolicyGrantSource {
        /// Route grant policy grantor.
        grantor: Seq<char>,
        /// Unknown source extension identifier.
        grant_source: Seq<char>,
    },
    /// A route grant policy references an unknown event kind.
    UnknownPolicyGrantEvent {
        /// Route grant policy grantor.
        grantor: Seq<char>,
        /// Unknown event kind.
        event: Seq<char>,
    },
    /// A route grant policy does not match any route owned by the grantor extension.
    OrphanPolicyGrant {
        /// Route grant policy grantor.
        grantor: Seq<char>,
        /// Event source in the grant policy.
        grant_source: Seq<char>,
        /// Event kind in the grant policy.
        event: Seq<char>,
    },
    /// A legacy route grant policy shape was used instead of route grant objects.
    LegacyRouteGrantPolicy {
        /// Route grant policy grantor.
        grantor: Seq<char>,
    },
    /// Installed routes reference unresolved surface.
    RegistryValidationFailed {
        /// One message for each extension that failed.
        messages: Seq<Seq<char>>,
    },
    /// An extension action produced an undeclared event kind.
    UndeclaredProducedEvent {
        /// Extension identifier.
        extension: Seq<char>,
        /// Action name.
        action: Seq<char>,
        /// Event kind.
        kind: Seq<char>,
    },
    /// A stdio extension requires trusted runtime execution to discover surface.
    RuntimeTrustRequired {
        /// Extension identifier.
        extension: Seq<char>,
    },
    /// A JSONL protocol message exceeded the configured byte limit.
    MessageTooLarge {
        /// Maximum accepted bytes.
        limit: nat,
    },
    /// A trusted runtime entrypoint changed after registration.
    ExtensionTrustChanged {
        /// Extension identifier.
        extension: Seq<char>,
        /// Trusted entrypoint path.
        entrypoint: Seq<char>,
    },
    /// The entrypoint of an extension package is missing.
    EntrypointNotFound {
        /// Extension identifier.
        extension: Seq<char>,
        /// Expected entrypoint path.
        path: Seq<char>,
    },
    /// The entrypoint of an extension package is not executable.
    EntrypointNotExecutable {
        /// Extension identifier.
        extension: Seq<char>,
        /// Entrypoint path.
        path: Seq<char>,
    },
    /// The user's home directory could not be resolved.
    MissingHome,
    /// A Unix socket already has a live server.
    SocketInUse {
        /// Socket path.
        path: Seq<char>,
    },
    /// No installed extension exposes the requested action.
    ActionNotInstalled {
        /// Requested action.
        action: Seq<char>,
    },
    /// An installed extension exposes an action but has no entrypoint.
    MissingExtensionEntrypoint {
        /// Extension identifier.
        extension: Seq<char>,
    },
    /// An extension action process failed.
    ExtensionActionFailed {
        /// Extension identifier.
        extension: Seq<char>,
        /// Action name.
        action: Seq<char>,
        /// Process exit code.
        status: Option<i32>,
        /// Standard error output.
        stderr: Seq<char>,
    },
    /// Extension registration process failed.
    ExtensionRegistrationFailed {
        /// Extension identifier.
        extension: Seq<char>,
        /// Process exit code.
        status: Option<i32>,
        /// Standard error output.
        stderr: Seq<char>,
    },
    /// Extension registration returned invalid structured output.
    ExtensionRegistrationInvalid {
        /// Extension identifier.
        extension: Seq<char>,
        /// Parser message.
        detail: Seq<char>,
    },
    /// Extension host returned an invalid JSONL protocol message.
    ExtensionHostProtocolInvalid {
        /// Extension identifier.
        extension: Seq<char>,
        /// Parser message.
        detail: Seq<char>,
    },
    /// Extension host closed unexpectedly.
    ExtensionHostClosed {
        /// Extension identifier.
        extension: Seq<char>,
    },
    /// Extension host returned an unexpected protocol response.
    ExtensionHostError {
        /// Extension identifier.
        extension: Seq<char>,
        /// Failure message.
        message: Seq<char>,
    },
    /// Extension host did not answer before the request timeout.
    ExtensionHostTimedOut {
        /// Extension identifier.
        extension: Seq<char>,
        /// Timeout in milliseconds.
        timeout_ms: nat,
    },
    /// Process-extension contract serialization failed.
    ExtensionContract {
        /// Message of the contract error.
        detail: Seq<char>,
    },
    /// An extension action returned invalid structured output.
    ExtensionOutputInvalid {
        /// Extension identifier.
        extension: Seq<char>,
        /// Action name.
        action: Seq<char>,
        /// Parser message.
        detail: Seq<char>,
    },
    /// Continuation handle is unknown or malformed.
    ContinuationInvalid,
    /// Continuation handle is expired.
    ContinuationExpired,
    /// Event dispatch recursed too deeply.
    DispatchDepthExceeded,
    /// System clock returned a time before the Unix epoch.
    Clock,
    /// Filesystem or stream I/O failed.
    Io {
        /// Class of the failure.
        class: IoKind,
        /// Message of the failure.
        message: Seq<char>,
    },
    /// JSON parsing or serialization failed.
    Json {
        /// Message of the parser.
        message: Seq<char>,
    },
}

impl View for SpindleError {
    type V = ErrorView;

    open spec fn view(&self) -> ErrorView {
        match self {
            SpindleError::InvalidField { field, reason } => ErrorView::InvalidField {
                field: field@,
                reason: reason@,
            },
            SpindleError::MissingActionCapability { action, capability } =>
                ErrorView::MissingActionCapability {
                    action: action@,
                    capability: capability@,
                },
            SpindleError::SurfaceConflict { surface, name, existing_extension, new_extension } =>
                ErrorView::SurfaceConflict {
                    surface: surface@,
                    name: name@,
                    existing_extension: existing_extension@,
                    new_extension: new_extension@,
                },
            SpindleError::CapabilityGrantDenied { grant_kind, grantor, capability } =>
                ErrorView::CapabilityGrantDenied {
                    grant_kind: grant_kind@,
                    grantor: grantor@,
                    capability: capability@,
                },
            SpindleError::EventEmitDenied { event_source, kind } => ErrorView::EventEmitDenied {
                event_source: event_source@,
                kind: kind@,
            },
            SpindleError::UnknownRouteEvent { extension, event } => ErrorView::UnknownRouteEvent {
                extension: extension@,
                event: event@,
            },
            SpindleError::UnknownRouteSource { extension, route_source } =>
                ErrorView::UnknownRouteSource {
                    extension: extension@,
                    route_source: route_source@,
                },
            SpindleError::UnknownRouteAction { extension, action } =>
                ErrorView::UnknownRouteAction {
                    extension: extension@,
                    action: action@,
                },
            SpindleError::UnknownPolicyGrantor { grantor } => ErrorView::UnknownPolicyGrantor {
                grantor: grantor@,
            },
            SpindleError::UnknownPolicyGrantSource { grantor, grant_source } =>
                ErrorView::UnknownPolicyGrantSource {
                    grantor: grantor@,
                    grant_source: grant_source@,
                },
            SpindleError::UnknownPolicyGrantEvent { grantor, event } =>
                ErrorView::UnknownPolicyGrantEvent {
                    grantor: grantor@,
                    event: event@,
                },
            SpindleError::OrphanPolicyGrant { grantor, grant_source, event } =>
                ErrorView::OrphanPolicyGrant {
                    grantor: grantor@,
                    grant_source: grant_source@,
                    event: event@,
                },
            SpindleError::LegacyRouteGrantPolicy { grantor } => ErrorView::LegacyRouteGrantPolicy {
                grantor: grantor@,
            },
            SpindleError::RegistryValidationFailed { messages } =>
                ErrorView::RegistryValidationFailed {
                    messages: views(messages@),
                },
            SpindleError::UndeclaredProducedEvent { extension, action, kind } =>
                ErrorView::UndeclaredProducedEvent {
                    extension: extension@,
                    action: action@,
                    kind: kind@,
                },
            SpindleError::RuntimeTrustRequired { extension } => ErrorView::RuntimeTrustRequired {
                extension: extension@,
            },
            SpindleError::MessageTooLarge { limit } => ErrorView::MessageTooLarge {
                limit: *limit as nat,
            },
            SpindleError::ExtensionTrustChanged { extension, entrypoint } =>
                ErrorView::ExtensionTrustChanged {
                    extension: extension@,
                    entrypoint: entrypoint@,
                },
            SpindleError::EntrypointNotFound { extension, path } => ErrorView::EntrypointNotFound {
                extension: extension@,
                path: path@,
            },
            SpindleError::EntrypointNotExecutable { extension, path } =>
                ErrorView::EntrypointNotExecutable {
                    extension: extension@,
                    path: path@,
                },
            SpindleError::MissingHome => ErrorView::MissingHome,
            SpindleError::SocketInUse { path } => ErrorView::SocketInUse { path: path@ },
            SpindleError::ActionNotInstalled { action } => ErrorView::ActionNotInstalled {
                action: action@,
            },
            SpindleError::MissingExtensionEntrypoint { extension } =>
                ErrorView::MissingExtensionEntrypoint {
                    extension: extension@,
                },
            SpindleError::ExtensionActionFailed { extension, action, status, stderr } =>
                ErrorView::ExtensionActionFailed {
                    extension: extension@,
                    action: action@,
                    status: *status,
                    stderr: stderr@,
                },
            SpindleError::ExtensionRegistrationFailed { extension, status, stderr } =>
                ErrorView::ExtensionRegistrationFailed {
                    extension: extension@,
                    status: *status,
                    stderr: stderr@,
                },
            SpindleError::ExtensionRegistrationInvalid { extension, detail } =>
                ErrorView::ExtensionRegistrationInvalid {
                    extension: extension@,
                    detail: detail@,
                },
            SpindleError::ExtensionHostProtocolInvalid { extension, detail } =>
                ErrorView::ExtensionHostProtocolInvalid {
                    extension: extension@,
                    detail: detail@,
                },
            SpindleError::ExtensionHostClosed { extension } => ErrorView::ExtensionHostClosed {
                extension: extension@,
            },
            SpindleError::ExtensionHostError { extension, message } =>
                ErrorView::ExtensionHostError {
                    extension: extension@,
                    message: message@,
                },
            SpindleError::ExtensionHostTimedOut { extension, timeout_ms } =>
                ErrorView::ExtensionHostTimedOut {
                    extension: extension@,
                    timeout_ms: *timeout_ms as nat,
                },
            SpindleError::ExtensionContract { detail } => ErrorView::ExtensionContract {
                detail: detail@,
            },
            SpindleError::ExtensionOutputInvalid { extension, action, detail } =>
                ErrorView::ExtensionOutputInvalid {
                    extension: extension@,
                    action: action@,
                    detail: detail@,
                },
            SpindleError::ContinuationInvalid => ErrorView::ContinuationInvalid,
            SpindleError::ContinuationExpired => ErrorView::ContinuationExpired,
            SpindleError::DispatchDepthExceeded => ErrorView::DispatchDepthExceeded,
            SpindleError::Clock => ErrorView::Clock,
            SpindleError::Io { class, message } => ErrorView::Io {
                class: *class,
                message: message@,
            },
            SpindleError::Json { message } => ErrorView::Json { message: message@ },
        }
    }
}

/// The outcome of a check, with its error as characters.
pub type Checked = Result<(), ErrorView>;

/// The outcome of a check.
pub open spec fn checked(result: Result<(), SpindleError>) -> Checked {
    match result {
        Ok(_) => Ok(()),
        Err(error) => Err(error@),
    }
}

/// The first of two outcomes that is an error, if any.
pub open spec fn first_error(first: Checked, second: Checked) -> Checked {
    match first {
        Ok(_) => second,
        Err(error) => Err(error),
    }
}

/// The outcome of checking the items of a sequence in order: the error of the
/// first item that has one.
pub open spec fn each_checked<T>(items: Seq<T>, check: spec_fn(T) -> Checked) -> Checked
    decreases items.len(),
{
    if items.len() == 0 {
        Ok(())
    } else {
        first_error(each_checked(items.drop_last(), check), check(items.last()))
    }
}

/// The outcome of a sequence whose first items pass and whose next item fails.
pub proof fn lemma_each_fails_at<T>(items: Seq<T>, check: spec_fn(T) -> Checked, at: int)
    requires
        0 <= at < items.len(),
        each_checked(items.take(at), check) is Ok,
        check(items[at]) is Err,
    ensures
        each_checked(items, check) == check(items[at]),
    decreases items.len(),
{
    if at == items.len() - 1 {
        assert(items.drop_last() =~= items.take(at));
    } else {
        assert(items.drop_last().take(at) =~= items.take(at));
        lemma_each_fails_at(items.drop_last(), check, at);
    }
}

/// The outcome of one more item behind items that pass.
pub proof fn lemma_each_next<T>(items: Seq<T>, check: spec_fn(T) -> Checked, at: int)
    requires
        0 <= at < items.len(),
        each_checked(items.take(at), check) is Ok,
    ensures
        each_checked(items.take(at + 1), check) == check(items[at]),
{
    assert(items.take(at + 1).drop_last() =~= items.take(at));
}

/// A sequence passes exactly when each of its items does.
pub proof fn lemma_each_passes<T>(items: Seq<T>, check: spec_fn(T) -> Checked)
    ensures
        each_checked(items, check) is Ok <==> forall|i: int|
            0 <= i < items.len() ==> check(#[trigger] items[i]) is Ok,
    decreases items.len(),
{
    if items.len() > 0 {
        let front = items.drop_last();
        lemma_each_passes(front, check);
        if each_checked(items, check) is Ok {
            assert forall|i: int| 0 <= i < items.len() implies check(#[trigger] items[i]) is Ok by {
                if i < front.len() {
                    assert(front[i] == items[i]);
                }
            }
        } else {
            if forall|i: int| 0 <= i < items.len() ==> check(#[trigger] items[i]) is Ok {
                assert forall|i: int| 0 <= i < front.len() implies check(
                    #[trigger] front[i],
                ) is Ok by {
                    assert(front[i] == items[i]);
                }
                assert(check(items[items.len() - 1]) is Ok);
            }
        }
    }
}

/// A number in decimal digits.
pub open spec fn decimal(number: nat) -> Seq<char>
    decreases number,
{
    if number < 10 {
        seq![digit(number)]
    } else {
        decimal(number / 10).push(digit(number % 10))
    }
}

/// A decimal digit.
pub open spec fn digit(number: nat) -> char {
    (number + 48) as char
}

/// Texts on lines of their own.
pub open spec fn lines_joined(lines: Seq<Seq<char>>) -> Seq<char>
    decreases lines.len(),
{
    if lines.len() == 0 {
        Seq::empty()
    } else if lines.len() == 1 {
        lines[0]
    } else {
        lines_joined(lines.drop_last()) + "\n"@ + lines.last()
    }
}

/// The message of an error.
pub open spec fn error_message(error: ErrorView) -> Seq<char> {
    match error {
        ErrorView::InvalidField { field, reason } => "invalid "@ + field + ": "@ + reason,
        ErrorView::MissingActionCapability { action, capability } => {
            "action "@ + action + " requires capability "@ + capability
        },
        ErrorView::SurfaceConflict { surface, name, existing_extension, new_extension } => {
            surface + " "@ + name + " is already owned by extension "@ + existing_extension
                + ", cannot register extension "@ + new_extension
        },
        ErrorView::CapabilityGrantDenied { grant_kind, grantor, capability } => {
            grant_kind + " "@ + grantor + " is not allowed to grant capability "@ + capability
        },
        ErrorView::EventEmitDenied { event_source, kind } => {
            "source "@ + event_source + " is not allowed to emit event "@ + kind
        },
        ErrorView::UnknownRouteEvent { extension, event } => {
            "extension "@ + extension + " route references unknown event "@ + event
        },
        ErrorView::UnknownRouteSource { extension, route_source } => {
            "extension "@ + extension + " route references unknown source "@ + route_source
        },
        ErrorView::UnknownRouteAction { extension, action } => {
            "extension "@ + extension + " route references unknown action "@ + action
        },
        ErrorView::UnknownPolicyGrantor { grantor } => {
            "capabilities.json routes grantor "@ + grantor + " is not an installed extension"@
        },
        ErrorView::UnknownPolicyGrantSource { grantor, grant_source } => {
            "capabilities.json routes["@ + grantor + "] references unknown source extension "@
                + grant_source
        },
        ErrorView::UnknownPolicyGrantEvent { grantor, event } => {
            "capabilities.json routes["@ + grantor + "] references unknown event "@ + event
        },
        ErrorView::OrphanPolicyGrant { grantor, grant_source, event } => {
            "capabilities.json routes["@ + grantor + "] has no matching route for source "@
                + grant_source + " and event "@ + event
        },
        ErrorView::LegacyRouteGrantPolicy { grantor } => {
            "capabilities.json routes["@ + grantor
                + "] must be an array of objects with source, event, and capabilities fields; legacy capability string lists are not supported"@
        },
        ErrorView::RegistryValidationFailed { messages } => {
            "registry validation failed:\n"@ + lines_joined(messages)
        },
        ErrorView::UndeclaredProducedEvent { extension, action, kind } => {
            "extension "@ + extension + " action "@ + action + " produced undeclared event "@
                + kind
        },
        ErrorView::RuntimeTrustRequired { extension } => {
            "extension "@ + extension
                + " requires --trust-runtime to execute its entrypoint for registration"@
        },
        ErrorView::MessageTooLarge { limit } => {
            "protocol message exceeded "@ + decimal(limit) + " bytes"@
        },
        ErrorView::ExtensionTrustChanged { extension, entrypoint } => {
            "extension "@ + extension + " trusted entrypoint changed: "@ + entrypoint
        },
        ErrorView::EntrypointNotFound { extension, path } => {
            "extension "@ + extension + " entrypoint not found: "@ + path
        },
        ErrorView::EntrypointNotExecutable { extension, path } => {
            "extension "@ + extension + " entrypoint is not executable: "@ + path
        },
        ErrorView::MissingHome => "HOME is not set and SPINDLE_STATE_DIR was not provided"@,
        ErrorView::SocketInUse { path } => "socket is already in use: "@ + path,
        ErrorView::ActionNotInstalled { action } => {
            "no installed extension exposes action "@ + action
        },
        ErrorView::MissingExtensionEntrypoint { extension } => {
            "extension "@ + extension + " has no entrypoint"@
        },
        ErrorView::ExtensionActionFailed { extension, action, stderr, .. } => {
            "extension "@ + extension + " action "@ + action + " failed: "@ + stderr
        },
        ErrorView::ExtensionRegistrationFailed { extension, stderr, .. } => {
            "extension "@ + extension + " registration failed: "@ + stderr
        },
        ErrorView::ExtensionRegistrationInvalid { extension, detail } => {
            "extension "@ + extension + " returned invalid registration: "@ + detail
        },
        ErrorView::ExtensionHostProtocolInvalid { extension, detail } => {
            "extension "@ + extension + " returned invalid host protocol: "@ + detail
        },
        ErrorView::ExtensionHostClosed { extension } => {
            "extension "@ + extension + " host closed unexpectedly"@
        },
        ErrorView::ExtensionHostError { extension, message } => {
            "extension "@ + extension + " host failed: "@ + message
        },
        ErrorView::ExtensionHostTimedOut { extension, timeout_ms } => {
            "extension "@ + extension + " host timed out after "@ + decimal(timeout_ms) + "ms"@
        },
        ErrorView::ExtensionContract { detail } => detail,
        ErrorView::ExtensionOutputInvalid { extension, action, detail } => {
            "extension "@ + extension + " action "@ + action + " returned invalid output: "@
                + detail
        },
        ErrorView::ContinuationInvalid => "continuation handle is invalid"@,
        ErrorView::ContinuationExpired => "continuation handle is expired"@,
        ErrorView::DispatchDepthExceeded => "extension dispatch exceeded maximum depth"@,
        ErrorView::Clock => "system clock is before the Unix epoch"@,
        ErrorView::Io { message, .. } => message,
        ErrorView::Json { message } => message,
    }
}

fn digit_text(number: u64) -> (text: &'static str)
    requires
        number < 10,
    ensures
        text@ == seq![digit(number as nat)],
{
    proof {
        reveal_strlit("0");
        reveal_strlit("1");
        reveal_strlit("2");
        reveal_strlit("3");
        reveal_strlit("4");
        reveal_strlit("5");
        reveal_strlit("6");
        reveal_strlit("7");
        reveal_strlit("8");
        reveal_strlit("9");
    }
    let text: &'static str = match number {
        0 => "0",
        1 => "1",
        2 => "2",
        3 => "3",
        4 => "4",
        5 => "5",
        6 => "6",
        7 => "7",
        8 => "8",
        _ => "9",
    };
    assert(text@ =~= seq![digit(number as nat)]);
    text
}

/// A number in decimal digits.
pub fn decimal_text(number: u64) -> (text: String)
    ensures
        text@ == decimal(number as nat),
    decreases number,
{
    if number < 10 {
        digit_text(number).to_owned()
    } else {
        let mut text: String = decimal_text(number / 10);
        text.append(digit_text(number % 10));
        assert(text@ =~= decimal(number as nat));
        text
    }
}

/// An error for a field that failed validation.
pub fn invalid_field(field: &'static str, reason: &'static str) -> (error: SpindleError)
    ensures
        error@ == (ErrorView::InvalidField { field: field@, reason: reason@ }),
{
    SpindleError::InvalidField { field, reason }
}

impl SpindleError {
    /// The message of this error.
    pub fn message(&self) -> (message: String)
        ensures
            message@ == error_message(self@),
    {
        match self {
            SpindleError::InvalidField { field, reason } => {
                let mut text: String = "invalid ".to_owned();
                text.append(field);
                text.append(": ");
                text.append(reason);
                text
            },
            SpindleError::MissingActionCapability { action, capability } => {
                let mut text: String = "action ".to_owned();
                text.append(action.as_str());
                text.append(" requires capability ");
                text.append(capability.as_str());
                text
            },
            SpindleError::SurfaceConflict { surface, name, existing_extension, new_extension } => {
                let mut text: String = (*surface).to_owned();
                text.append(" ");
                text.append(name.as_str());
                text.append(" is already owned by extension ");
                text.append(existing_extension.as_str());
                text.append(", cannot register extension ");
                text.append(new_extension.as_str());
                text
            },
            SpindleError::CapabilityGrantDenied { grant_kind, grantor, capability } => {
                let mut text: String = (*grant_kind).to_owned();
                text.append(" ");
                text.append(grantor.as_str());
                text.append(" is not allowed to grant capability ");
                text.append(capability.as_str());
                text
            },
            SpindleError::EventEmitDenied { event_source, kind } => {
                let mut text: String = "source ".to_owned();
                text.append(event_source.as_str());
                text.append(" is not allowed to emit event ");
                text.append(kind.as_str());
                text
            },
            SpindleError::UnknownRouteEvent { extension, event } => {
                let mut text: String = "extension ".to_owned();
                text.append(extension.as_str());
                text.append(" route references unknown event ");
                text.append(event.as_str());
                text
            },
            SpindleError::UnknownRouteSource { extension, route_source } => {
                let mut text: String = "extension ".to_owned();
                text.append(extension.as_str());
                text.append(" route references unknown source ");
                text.append(route_source.as_str());
                text
            },
            SpindleError::UnknownRouteAction { extension, action } => {
                let mut text: String = "extension ".to_owned();
                text.append(extension.as_str());
                text.append(" route references unknown action ");
                text.append(action.as_str());
                text
            },
            SpindleError::UnknownPolicyGrantor { grantor } => {
                let mut text: String = "capabilities.json routes grantor ".to_owned();
                text.append(grantor.as_str());
                text.append(" is not an installed extension");
                text
            },
            SpindleError::UnknownPolicyGrantSource { grantor, grant_source } => {
                let mut text: String = "capabilities.json routes[".to_owned();
                text.append(grantor.as_str());
                text.append("] references unknown source extension ");
                text.append(grant_source.as_str());
                text
            },
            SpindleError::UnknownPolicyGrantEvent { grantor, event } => {
                let mut text: String = "capabilities.json routes[".to_owned();
                text.append(grantor.as_str());
                text.append("] references unknown event ");
                text.append(event.as_str());
                text
            },
            SpindleError::OrphanPolicyGrant { grantor, grant_source, event } => {
                let mut text: String = "capabilities.json routes[".to_owned();
                text.append(grantor.as_str());
                text.append("] has no matching route for source ");
                text.append(grant_source.as_str());
                text.append(" and event ");
                text.append(event.as_str());
                text
            },
            SpindleError::LegacyRouteGrantPolicy { grantor } => {
                let mut text: String = "capabilities.json routes[".to_owned();
                text.append(grantor.as_str());
                text.append("] must be an array of objects with source, event, and capabilities fields; legacy capability string lists are not supported");
                text
            },
            SpindleError::RegistryValidationFailed { messages } => {
                let mut text: String = "registry validation failed:\n".to_owned();
                text.append(join_lines(messages.as_slice()).as_str());
                text
            },
            SpindleError::UndeclaredProducedEvent { extension, action, kind } => {
                let mut text: String = "extension ".to_owned();
                text.append(extension.as_str());
                text.append(" action ");
                text.append(action.as_str());
                text.append(" produced undeclared event ");
                text.append(kind.as_str());
                text
            },
            SpindleError::RuntimeTrustRequired { extension } => {
                let mut text: String = "extension ".to_owned();
                text.append(extension.as_str());
                text.append(" requires --trust-runtime to execute its entrypoint for registration");
                text
            },
            SpindleError::MessageTooLarge { limit } => {
                let mut text: String = "protocol message exceeded ".to_owned();
                text.append(decimal_text(*limit as u64).as_str());
                text.append(" bytes");
                text
            },
            SpindleError::ExtensionTrustChanged { extension, entrypoint } => {
                let mut text: String = "extension ".to_owned();
                text.append(extension.as_str());
                text.append(" trusted entrypoint changed: ");
                text.append(entrypoint.as_str());
                text
            },
            SpindleError::EntrypointNotFound { extension, path } => {
                let mut text: String = "extension ".to_owned();
                text.append(extension.as_str());
                text.append(" entrypoint not found: ");
                text.append(path.as_str());
                text
            },
            SpindleError::EntrypointNotExecutable { extension, path } => {
                let mut text: String = "extension ".to_owned();
                text.append(extension.as_str());
                text.append(" entrypoint is not executable: ");
                text.append(path.as_str());
                text
            },
            SpindleError::MissingHome => {
                "HOME is not set and SPINDLE_STATE_DIR was not provided".to_owned()
            },
            SpindleError::SocketInUse { path } => {
                let mut text: String = "socket is already in use: ".to_owned();
                text.append(path.as_str());
                text
            },
            SpindleError::ActionNotInstalled { action } => {
                let mut text: String = "no installed extension exposes action ".to_owned();
                text.append(action.as_str());
                text
            },
            SpindleError::MissingExtensionEntrypoint { extension } => {
                let mut text: String = "extension ".to_owned();
                text.append(extension.as_str());
                text.append(" has no entrypoint");
                text
            },
            SpindleError::ExtensionActionFailed { extension, action, stderr, .. } => {
                let mut text: String = "extension ".to_owned();
                text.append(extension.as_str());
                text.append(" action ");
                text.append(action.as_str());
                text.append(" failed: ");
                text.append(stderr.as_str());
                text
            },
            SpindleError::ExtensionRegistrationFailed { extension, stderr, .. } => {
                let mut text: String = "extension ".to_owned();
                text.append(extension.as_str());
                text.append(" registration failed: ");
                text.append(stderr.as_str());
                text
            },
            SpindleError::ExtensionRegistrationInvalid { extension, detail } => {
                let mut text: String = "extension ".to_owned();
                text.append(extension.as_str());
                text.append(" returned invalid registration: ");
                text.append(detail.as_str());
                text
            },
            SpindleError::ExtensionHostProtocolInvalid { extension, detail } => {
                let mut text: String = "extension ".to_owned();
                text.append(extension.as_str());
                text.append(" returned invalid host protocol: ");
                text.append(detail.as_str());
                text
            },
            SpindleError::ExtensionHostClosed { extension } => {
                let mut text: String = "extension ".to_owned();
                text.append(extension.as_str());
                text.append(" host closed unexpectedly");
                text
            },
            SpindleError::ExtensionHostError { extension, message } => {
                let mut text: String = "extension ".to_owned();
                text.append(extension.as_str());
                text.append(" host failed: ");
                text.append(message.as_str());
                text
            },
            SpindleError::ExtensionHostTimedOut { extension, timeout_ms } => {
                let mut text: String = "extension ".to_owned();
                text.append(extension.as_str());
                text.append(" host timed out after ");
                text.append(decimal_text(*timeout_ms).as_str());
                text.append("ms");
                text
            },
            SpindleError::ExtensionContract { detail } => {
                detail.clone()
            },
            SpindleError::ExtensionOutputInvalid { extension, action, detail } => {
                let mut text: String = "extension ".to_owned();
                text.append(extension.as_str());
                text.append(" action ");
                text.append(action.as_str());
                text.append(" returned invalid output: ");
                text.append(detail.as_str());
                text
            },
            SpindleError::ContinuationInvalid => {
                "continuation handle is invalid".to_owned()
            },
            SpindleError::ContinuationExpired => {
                "continuation handle is expired".to_owned()
            },
            SpindleError::DispatchDepthExceeded => {
                "extension dispatch exceeded maximum depth".to_owned()
            },
            SpindleError::Clock => {
                "system clock is before the Unix epoch".to_owned()
            },
            SpindleError::Io { message, .. } => {
                message.clone()
            },
            SpindleError::Json { message } => {
                message.clone()
            },
        }
    }
}

/// Texts on lines of their own.
pub fn join_lines(lines: &[String]) -> (text: String)
    ensures
        text@ == lines_joined(views(lines@)),
{
    let ghost all = views(lines@);
    if lines.len() == 0 {
        let text: String = String::new();
        assert(text@ =~= lines_joined(all));
        return text;
    }
    let mut text: String = lines[0].clone();
    let mut i: usize = 1;
    assert(all.take(1)[0] == lines@[0]@);
    while i < lines.len()
        invariant
            1 <= i <= lines@.len(),
            all == views(lines@),
            text@ == lines_joined(all.take(i as int)),
        decreases lines@.len() - i,
    {
        text.append("\n");
        text.append(lines[i].as_str());
        assert(all.take(i + 1).drop_last() =~= all.take(i as int));
        assert(all.take(i + 1).last() == lines@[i as int]@);
        i = i + 1;
    }
    assert(all.take(lines@.len() as int) =~= all);
    text
}

/// Checking items in order gives the error of an item where the items before it
/// pass, and passes where all of them do.
pub proof fn law_first_failing_item_decides<T>(items: Seq<T>, check: spec_fn(T) -> Checked)
    ensures
        each_checked(items, check) is Ok <==> forall|i: int|
            0 <= i < items.len() ==> check(#[trigger] items[i]) is Ok,
        each_checked(items, check) matches Err(error) ==> exists|i: int|
            {
                &&& 0 <= i < items.len()
                &&& check(#[trigger] items[i]) == Err::<(), ErrorView>(error)
                &&& forall|j: int| 0 <= j < i ==> check(#[trigger] items[j]) is Ok
            },
    decreases items.len(),
{
    lemma_each_passes(items, check);
    if items.len() > 0 && each_checked(items, check) is Err {
        let front = items.drop_last();
        law_first_failing_item_decides(front, check);
        let error = each_checked(items, check)->Err_0;
        if each_checked(front, check) is Err {
            let i = choose|i: int|
                {
                    &&& 0 <= i < front.len()
                    &&& check(#[trigger] front[i]) == Err::<(), ErrorView>(error)
                    &&& forall|j: int| 0 <= j < i ==> check(#[trigger] front[j]) is Ok
                };
            assert(items[i] == front[i]);
            assert forall|j: int| 0 <= j < i implies check(#[trigger] items[j]) is Ok by {
                assert(front[j] == items[j]);
            }
            assert(check(items[i]) == Err::<(), ErrorView>(error));
        } else {
            let i = items.len() - 1;
            assert forall|j: int| 0 <= j < i implies check(#[trigger] items[j]) is Ok by {
                assert(front[j] == items[j]);
            }
            assert(check(items[i]) == Err::<(), ErrorView>(error));
        }
    }
}

/// A number is written in decimal digits, at least one.
pub proof fn lemma_decimal_digits(number: nat)
    ensures
        decimal(number).len() > 0,
        forall|i: int| 0 <= i < decimal(number).len() ==> '0' <= #[trigger] decimal(number)[i] <= '9',
    decreases number,
{
    let last = digit(number % 10);
    assert('0' <= last <= '9');
    if number >= 10 {
        lemma_decimal_digits(number / 10);
        let front = decimal(number / 10);
        let text = decimal(number);
        assert forall|i: int| 0 <= i < text.len() implies '0' <= #[trigger] text[i] <= '9' by {
            if i < front.len() {
                assert(text[i] == front[i]);
            }
        }
    }
}

} // verus!
