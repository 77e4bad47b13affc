//! Extension host sessions: which one serves an action, and which ones are dropped.
use vstd::prelude::*;

use crate::context::{ActionOutput, OutputEventView};
use crate::error::{checked, ErrorView, IoKind, SpindleError};
use crate::host::HostResponse;
use crate::identity::timeout_millis;
use crate::manifest::{ExtensionManifest, ExtensionRuntime};
use crate::registered::{
    execution_path, extension_execution_path, package_binary, resolve_package_binary, trust_check,
    verify_runtime_trust, RegisteredExtension, RegisteredView,
};
use crate::registration::ExtensionRegistration;
use crate::text::{less_text, same_text, text_less};

verus! {

/// How long a host may take to answer unless told otherwise.
pub const DEFAULT_HOST_REQUEST_TIMEOUT_MS: u64 = 5_000;

/// How long to wait between looks at a host that is to exit.
pub const EXIT_POLL_INTERVAL_MS: u64 = 10;

/// What a host session is for.
#[derive(Debug, PartialEq, Eq)]
pub struct StdioSessionKey {
    /// Extension identifier.
    pub id: String,
    /// Extension version.
    pub version: String,
    /// Package root directory.
    pub package_root: String,
    /// Executable.
    pub execution_path: String,
}

/// What a host session is for, with its texts as characters.
pub struct KeyView {
    /// Extension identifier.
    pub id: Seq<char>,
    /// Extension version.
    pub version: Seq<char>,
    /// Package root directory.
    pub package_root: Seq<char>,
    /// Executable.
    pub execution_path: Seq<char>,
}

/// Sessions by what they are for.
pub type SessionsView = Seq<(KeyView, u64)>;

impl View for StdioSessionKey {
    type V = KeyView;

    open spec fn view(&self) -> KeyView {
        KeyView {
            id: self.id@,
            version: self.version@,
            package_root: self.package_root@,
            execution_path: self.execution_path@,
        }
    }
}

impl Clone for StdioSessionKey {
    fn clone(&self) -> (copy: Self)
        ensures
            copy@ == self@,
    {
        StdioSessionKey {
            id: self.id.clone(),
            version: self.version.clone(),
            package_root: self.package_root.clone(),
            execution_path: self.execution_path.clone(),
        }
    }
}

/// What the session of an extension is for.
pub open spec fn key_of(extension: RegisteredView) -> KeyView {
    KeyView {
        id: extension.id,
        version: extension.version,
        package_root: extension.package_root,
        execution_path: execution_path(extension),
    }
}

/// Whether a key comes before another one.
pub open spec fn key_less(left: KeyView, right: KeyView) -> bool {
    if left.id != right.id {
        less_text(left.id, right.id)
    } else if left.version != right.version {
        less_text(left.version, right.version)
    } else if left.package_root != right.package_root {
        less_text(left.package_root, right.package_root)
    } else {
        less_text(left.execution_path, right.execution_path)
    }
}

/// The session for a key.
pub open spec fn session_of(sessions: SessionsView, key: KeyView) -> Option<u64>
    decreases sessions.len(),
{
    if sessions.len() == 0 {
        None
    } else if sessions[0].0 == key {
        Some(sessions[0].1)
    } else {
        session_of(sessions.drop_first(), key)
    }
}

/// The sessions that are not for a key.
pub open spec fn without_key(sessions: SessionsView, key: KeyView) -> SessionsView
    decreases sessions.len(),
{
    if sessions.len() == 0 {
        Seq::empty()
    } else {
        let before = without_key(sessions.drop_last(), key);
        if sessions.last().0 == key {
            before
        } else {
            before.push(sessions.last())
        }
    }
}

/// How many sessions at the front come before a key.
pub open spec fn key_place(sessions: SessionsView, key: KeyView) -> int
    decreases sessions.len(),
{
    if sessions.len() == 0 || !key_less(sessions[0].0, key) {
        0
    } else {
        1 + key_place(sessions.drop_first(), key)
    }
}

/// The sessions with one set for a key.
pub open spec fn with_session(sessions: SessionsView, key: KeyView, session: u64) -> SessionsView {
    let others = without_key(sessions, key);
    others.insert(key_place(others, key), (key, session))
}

/// The sessions that are not for an extension.
pub open spec fn without_extension(sessions: SessionsView, extension: Seq<char>) -> SessionsView
    decreases sessions.len(),
{
    if sessions.len() == 0 {
        Seq::empty()
    } else {
        let before = without_extension(sessions.drop_last(), extension);
        if sessions.last().0.id == extension {
            before
        } else {
            before.push(sessions.last())
        }
    }
}

/// The sessions that are for an extension, by number.
pub open spec fn numbers_for(sessions: SessionsView, extension: Seq<char>) -> Seq<u64>
    decreases sessions.len(),
{
    if sessions.len() == 0 {
        Seq::empty()
    } else {
        let before = numbers_for(sessions.drop_last(), extension);
        if sessions.last().0.id == extension {
            before.push(sessions.last().1)
        } else {
            before
        }
    }
}

/// The numbers of sessions.
pub open spec fn numbers(sessions: SessionsView) -> Seq<u64> {
    Seq::new(sessions.len(), |i: int| sessions[i].1)
}

/// The epoch that follows.
pub open spec fn next_epoch(epoch: u64) -> u64 {
    if epoch == u64::MAX {
        0
    } else {
        (epoch + 1) as u64
    }
}

/// Owns the running extension host sessions: they are known by number, and the
/// epoch changes whenever sessions are dropped from outside an invocation.
#[derive(Debug, PartialEq, Eq)]
pub struct ExtensionRuntimeHost {
    /// The sessions.
    pub sessions: Vec<(StdioSessionKey, u64)>,
    /// How often sessions were dropped.
    pub session_epoch: u64,
    /// How long a host may take to answer, in milliseconds.
    pub host_request_timeout_ms: u64,
}

/// Session entries with their keys as characters.
pub open spec fn session_entries(entries: Seq<(StdioSessionKey, u64)>) -> SessionsView {
    Seq::new(entries.len(), |i: int| (entries[i].0@, entries[i].1))
}

impl View for ExtensionRuntimeHost {
    type V = SessionsView;

    open spec fn view(&self) -> SessionsView {
        session_entries(self.sessions@)
    }
}

proof fn lemma_session_found(sessions: SessionsView, key: KeyView, at: int)
    requires
        0 <= at <= sessions.len(),
        forall|j: int| 0 <= j < at ==> (#[trigger] sessions[j]).0 != key,
        at < sessions.len() ==> sessions[at].0 == key,
    ensures
        session_of(sessions, key) == if at < sessions.len() {
            Some(sessions[at].1)
        } else {
            None
        },
    decreases sessions.len(),
{
    if at > 0 {
        assert(sessions[0].0 != key);
        let rest = sessions.drop_first();
        assert forall|j: int| 0 <= j < at - 1 implies (#[trigger] rest[j]).0 != key by {
            assert(rest[j] == sessions[j + 1]);
        }
        lemma_session_found(rest, key, at - 1);
    }
}

/// The position of the first session for a key.
spec fn first_for(sessions: SessionsView, key: KeyView) -> int
    decreases sessions.len(),
{
    if sessions.len() == 0 || sessions[0].0 == key {
        0
    } else {
        1 + first_for(sessions.drop_first(), key)
    }
}

proof fn lemma_first_for(sessions: SessionsView, key: KeyView)
    ensures
        0 <= first_for(sessions, key) <= sessions.len(),
        forall|j: int|
            0 <= j < first_for(sessions, key) ==> (#[trigger] sessions[j]).0 != key,
        first_for(sessions, key) < sessions.len() ==> sessions[first_for(sessions, key)].0 == key,
    decreases sessions.len(),
{
    if sessions.len() > 0 && sessions[0].0 != key {
        let rest = sessions.drop_first();
        lemma_first_for(rest, key);
        assert forall|j: int| 0 <= j < first_for(sessions, key) implies (#[trigger] sessions[j]).0
            != key by {
            if j > 0 {
                assert(rest[j - 1] == sessions[j]);
            }
        }
    }
}

proof fn lemma_session_after_push(sessions: SessionsView, entry: (KeyView, u64), key: KeyView)
    ensures
        session_of(sessions.push(entry), key) == match session_of(sessions, key) {
            Some(session) => Some(session),
            None => if entry.0 == key {
                Some(entry.1)
            } else {
                None
            },
        },
{
    let after = sessions.push(entry);
    let at = first_for(sessions, key);
    lemma_first_for(sessions, key);
    lemma_session_found(sessions, key, at);
    assert forall|j: int| 0 <= j < at implies (#[trigger] after[j]).0 != key by {
        assert(after[j] == sessions[j]);
    }
    if at < sessions.len() || entry.0 == key {
        lemma_session_found(after, key, at);
    } else {
        lemma_session_found(after, key, after.len() as int);
    }
}

proof fn lemma_without_key(sessions: SessionsView, key: KeyView, other: KeyView)
    ensures
        session_of(without_key(sessions, key), other) == if other == key {
            None
        } else {
            session_of(sessions, other)
        },
    decreases sessions.len(),
{
    if sessions.len() > 0 {
        let front = sessions.drop_last();
        let last = sessions.last();
        lemma_without_key(front, key, other);
        assert(front.push(last) =~= sessions);
        lemma_session_after_push(front, last, other);
        lemma_session_after_push(without_key(front, key), last, other);
    }
}

proof fn lemma_without_extension(sessions: SessionsView, extension: Seq<char>, other: KeyView)
    ensures
        session_of(without_extension(sessions, extension), other) == if other.id == extension {
            None
        } else {
            session_of(sessions, other)
        },
    decreases sessions.len(),
{
    if sessions.len() > 0 {
        let front = sessions.drop_last();
        let last = sessions.last();
        lemma_without_extension(front, extension, other);
        assert(front.push(last) =~= sessions);
        lemma_session_after_push(front, last, other);
        lemma_session_after_push(without_extension(front, extension), last, other);
    }
}

proof fn lemma_key_place(sessions: SessionsView, key: KeyView)
    ensures
        0 <= key_place(sessions, key) <= sessions.len(),
    decreases sessions.len(),
{
    if sessions.len() > 0 && key_less(sessions[0].0, key) {
        lemma_key_place(sessions.drop_first(), key);
    }
}

proof fn lemma_key_place_is(sessions: SessionsView, key: KeyView, at: int)
    requires
        0 <= at <= sessions.len(),
        forall|j: int| 0 <= j < at ==> key_less((#[trigger] sessions[j]).0, key),
        at < sessions.len() ==> !key_less(sessions[at].0, key),
    ensures
        key_place(sessions, key) == at,
    decreases at,
{
    if at > 0 {
        assert(key_less(sessions[0].0, key));
        let rest = sessions.drop_first();
        assert forall|j: int| 0 <= j < at - 1 implies key_less((#[trigger] rest[j]).0, key) by {
            assert(rest[j] == sessions[j + 1]);
        }
        lemma_key_place_is(rest, key, at - 1);
    }
}

/// A session that is set for a key serves it from then on, and those for other
/// keys stay.
pub proof fn law_set_session_is_used(
    sessions: SessionsView,
    key: KeyView,
    session: u64,
    other: KeyView,
)
    ensures
        session_of(with_session(sessions, key, session), other) == if other == key {
            Some(session)
        } else {
            session_of(sessions, other)
        },
{
    let others = without_key(sessions, key);
    let spot = key_place(others, key);
    let after = with_session(sessions, key, session);
    lemma_without_key(sessions, key, key);
    lemma_without_key(sessions, key, other);
    lemma_key_place(others, key);
    lemma_first_for(others, key);
    lemma_session_found(others, key, first_for(others, key));
    let at = first_for(others, other);
    lemma_first_for(others, other);
    lemma_session_found(others, other, at);
    let moved = if other == key {
        spot
    } else if at < spot {
        at
    } else {
        at + 1
    };
    assert forall|j: int| 0 <= j < moved implies (#[trigger] after[j]).0 != other by {
        if j < spot {
            assert(after[j] == others[j]);
        } else if j > spot {
            assert(after[j] == others[j - 1]);
        }
    }
    if moved < after.len() && other != key {
        assert(after[moved] == others[at]);
    }
    lemma_session_found(after, other, moved);
}

/// A session that is dropped for a key serves it no more, and those for other keys
/// stay.
pub proof fn law_dropped_session_is_gone(sessions: SessionsView, key: KeyView, other: KeyView)
    ensures
        session_of(without_key(sessions, key), other) == if other == key {
            None
        } else {
            session_of(sessions, other)
        },
{
    lemma_without_key(sessions, key, other);
}

/// Invalidating an extension drops all its sessions, and no other.
pub proof fn law_invalidate_drops_sessions_of_extension(
    sessions: SessionsView,
    extension: Seq<char>,
    other: KeyView,
)
    ensures
        session_of(without_extension(sessions, extension), other) == if other.id == extension {
            None
        } else {
            session_of(sessions, other)
        },
{
    lemma_without_extension(sessions, extension, other);
}

/// No epoch is followed by itself: a session that was started before sessions were
/// dropped is told from one started after it.
pub proof fn law_epoch_changes(epoch: u64)
    ensures
        next_epoch(epoch) != epoch,
{
}

/// Whether an answer to an invocation shows that the session is out of step.
pub open spec fn out_of_step(response: HostResponse) -> bool {
    !(response is ActionOutput || response is Error)
}

/// Whether a failed request shows that the session is broken.
pub open spec fn is_breaking(error: SpindleError) -> bool {
    match error {
        SpindleError::ExtensionHostTimedOut { .. } => true,
        SpindleError::ExtensionHostClosed { .. } => true,
        SpindleError::ExtensionHostProtocolInvalid { .. } => true,
        SpindleError::MessageTooLarge { .. } => true,
        SpindleError::Io { class, .. } => class == IoKind::InvalidData,
        _ => false,
    }
}

/// Whether the outcome of a request to invoke an action ends the session.
pub open spec fn ends_session(response: Result<HostResponse, SpindleError>) -> bool {
    match response {
        Ok(answer) => out_of_step(answer),
        Err(error) => is_breaking(error),
    }
}

/// What a host that answers with the wrong kind of message is told of.
pub open spec fn unexpected(extension: Seq<char>, rendered: Seq<char>) -> ErrorView {
    ErrorView::ExtensionHostError { extension, message: "unexpected host response: "@ + rendered }
}

/// The output that an answer to an invocation carries, or why it carries none.
pub open spec fn action_outcome(
    extension: Seq<char>,
    action: Seq<char>,
    response: HostResponse,
    rendered: Seq<char>,
) -> Result<Seq<OutputEventView>, ErrorView> {
    match response {
        HostResponse::ActionOutput { output } => Ok(output@),
        HostResponse::Error { error } => Err(
            ErrorView::ExtensionActionFailed { extension, action, status: None, stderr: error@ },
        ),
        _ => Err(unexpected(extension, rendered)),
    }
}

/// The view of an output or an error.
pub open spec fn output_outcome(result: Result<ActionOutput, SpindleError>) -> Result<
    Seq<OutputEventView>,
    ErrorView,
> {
    match result {
        Ok(output) => Ok(output@),
        Err(error) => Err(error@),
    }
}

/// Whether an answer to an invocation shows that the session is out of step.
pub fn invoke_response_breaks_session(response: &HostResponse) -> (breaks: bool)
    ensures
        breaks == out_of_step(*response),
{
    match response {
        HostResponse::ActionOutput { .. } => false,
        HostResponse::Error { .. } => false,
        _ => true,
    }
}

/// Whether the outcome of a request shows that the session is broken.
pub fn response_breaks_session(response: &Result<HostResponse, SpindleError>) -> (breaks: bool)
    ensures
        breaks == (response is Err && is_breaking(response->Err_0)),
{
    match response {
        Ok(_) => false,
        Err(error) => match error {
            SpindleError::ExtensionHostTimedOut { .. } => true,
            SpindleError::ExtensionHostClosed { .. } => true,
            SpindleError::ExtensionHostProtocolInvalid { .. } => true,
            SpindleError::MessageTooLarge { .. } => true,
            SpindleError::Io { class, .. } => *class == IoKind::InvalidData,
            _ => false,
        },
    }
}

/// The error for an answer of the wrong kind, given how the answer is rendered.
pub fn unexpected_host_response(extension: &str, rendered: &str) -> (error: SpindleError)
    ensures
        error@ == unexpected(extension@, rendered@),
{
    let mut message: String = "unexpected host response: ".to_owned();
    message.append(rendered);
    SpindleError::ExtensionHostError { extension: extension.to_owned(), message }
}

/// The surface that an answer to a register request carries.
pub fn registration_response(extension: &str, response: HostResponse, rendered: &str) -> (result:
    Result<ExtensionRegistration, SpindleError>)
    ensures
        match response {
            HostResponse::Registration { registration } => result == Ok::<
                ExtensionRegistration,
                SpindleError,
            >(registration),
            HostResponse::Error { error } => result is Err && result->Err_0@ == (
            ErrorView::ExtensionRegistrationFailed {
                extension: extension@,
                status: None,
                stderr: error@,
            }),
            _ => result is Err && result->Err_0@ == unexpected(extension@, rendered@),
        },
{
    match response {
        HostResponse::Registration { registration } => Ok(registration),
        HostResponse::Error { error } => Err(
            SpindleError::ExtensionRegistrationFailed {
                extension: extension.to_owned(),
                status: None,
                stderr: error,
            },
        ),
        _ => Err(unexpected_host_response(extension, rendered)),
    }
}

/// The output that an answer to an invocation carries.
pub fn action_response(extension: &str, action: &str, response: HostResponse, rendered: &str) -> (
    result: Result<ActionOutput, SpindleError>)
    ensures
        output_outcome(result) == action_outcome(extension@, action@, response, rendered@),
{
    match response {
        HostResponse::ActionOutput { output } => Ok(output),
        HostResponse::Error { error } => Err(
            SpindleError::ExtensionActionFailed {
                extension: extension.to_owned(),
                action: action.to_owned(),
                status: None,
                stderr: error,
            },
        ),
        _ => Err(unexpected_host_response(extension, rendered)),
    }
}

/// Whether an answer acknowledges a shutdown.
pub fn shutdown_response(extension: &str, response: &HostResponse, rendered: &str) -> (result:
    Result<(), SpindleError>)
    ensures
        checked(result) == if *response is Shutdown {
            Ok::<(), ErrorView>(())
        } else {
            Err(unexpected(extension@, rendered@))
        },
{
    match response {
        HostResponse::Shutdown => Ok(()),
        _ => Err(unexpected_host_response(extension, rendered)),
    }
}

/// What came of a request to a host.
#[derive(Debug, PartialEq, Eq)]
pub enum HostReply {
    /// An answer.
    Answered {
        /// The answer.
        response: HostResponse,
    },
    /// A line that is no answer.
    Malformed {
        /// What the parser says.
        detail: String,
    },
    /// The host is gone.
    Ended,
    /// Nothing, in the time it may take.
    TimedOut,
    /// Something failed.
    Failed {
        /// What failed.
        error: SpindleError,
    },
}

/// The answer of a host, or the error that stands for what came instead.
pub fn host_result(extension: &str, reply: HostReply, timeout_ms: u128) -> (result: Result<
    HostResponse,
    SpindleError,
>)
    ensures
        match reply {
            HostReply::Answered { response } => result == Ok::<HostResponse, SpindleError>(response),
            HostReply::Malformed { detail } => result is Err && result->Err_0@ == (
            ErrorView::ExtensionHostProtocolInvalid { extension: extension@, detail: detail@ }),
            HostReply::Ended => result is Err && result->Err_0@ == (
            ErrorView::ExtensionHostClosed { extension: extension@ }),
            HostReply::TimedOut => result is Err && result->Err_0@ == (
            ErrorView::ExtensionHostTimedOut {
                extension: extension@,
                timeout_ms: if timeout_ms <= u64::MAX {
                    timeout_ms as nat
                } else {
                    u64::MAX as nat
                },
            }),
            HostReply::Failed { error } => result == Err::<HostResponse, SpindleError>(error),
        },
{
    match reply {
        HostReply::Answered { response } => Ok(response),
        HostReply::Malformed { detail } => Err(
            SpindleError::ExtensionHostProtocolInvalid { extension: extension.to_owned(), detail },
        ),
        HostReply::Ended => Err(
            SpindleError::ExtensionHostClosed { extension: extension.to_owned() },
        ),
        HostReply::TimedOut => Err(
            SpindleError::ExtensionHostTimedOut {
                extension: extension.to_owned(),
                timeout_ms: timeout_millis(timeout_ms),
            },
        ),
        HostReply::Failed { error } => Err(error),
    }
}

/// What to do about a host that was told to exit.
#[derive(Debug, Clone, Copy, PartialEq, Eq)]
pub enum ExitStep {
    /// It exited.
    Done,
    /// It had its time: kill it.
    Kill,
    /// Look again in a while.
    Wait {
        /// Milliseconds to wait.
        ms: u64,
    },
}

/// What to do about a host that was told to exit.
pub fn wait_for_child_exit_or_kill(exited: bool, elapsed_ms: u128, timeout_ms: u128) -> (step:
    ExitStep)
    ensures
        step == if exited {
            ExitStep::Done
        } else if elapsed_ms >= timeout_ms {
            ExitStep::Kill
        } else {
            ExitStep::Wait { ms: EXIT_POLL_INTERVAL_MS }
        },
{
    if exited {
        ExitStep::Done
    } else if elapsed_ms >= timeout_ms {
        ExitStep::Kill
    } else {
        ExitStep::Wait { ms: EXIT_POLL_INTERVAL_MS }
    }
}

/// How an action is run.
#[derive(Debug, PartialEq, Eq)]
pub enum InvokeStep {
    /// Not at all: this is its output.
    Answer {
        /// The output.
        output: ActionOutput,
    },
    /// By a session that runs.
    Use {
        /// What the session is for.
        key: StdioSessionKey,
        /// The session.
        session: u64,
    },
    /// By a session that is to be started first.
    Spawn {
        /// What the session is for.
        key: StdioSessionKey,
        /// The epoch it is started in.
        epoch: u64,
    },
}

/// What came of an action, and what to do about its session.
#[derive(Debug, PartialEq, Eq)]
pub struct InvokeOutcome {
    /// The output, or why there is none.
    pub result: Result<ActionOutput, SpindleError>,
    /// Whether the session was dropped, and is to be ended.
    pub terminate: bool,
}

impl StdioSessionKey {
    /// What the session of an extension is for.
    pub fn from_extension(extension: &RegisteredExtension) -> (key: Self)
        ensures
            key@ == key_of(extension@),
    {
        StdioSessionKey {
            id: extension.id.clone(),
            version: extension.version.clone(),
            package_root: extension.package_root.clone(),
            execution_path: extension_execution_path(extension),
        }
    }

    fn same(&self, other: &Self) -> (same: bool)
        ensures
            same == (self@ == other@),
    {
        self.id == other.id && self.version == other.version && self.package_root
            == other.package_root && self.execution_path == other.execution_path
    }

    fn comes_before(&self, other: &Self) -> (before: bool)
        ensures
            before == key_less(self@, other@),
    {
        if self.id != other.id {
            text_less(self.id.as_str(), other.id.as_str())
        } else if self.version != other.version {
            text_less(self.version.as_str(), other.version.as_str())
        } else if self.package_root != other.package_root {
            text_less(self.package_root.as_str(), other.package_root.as_str())
        } else {
            text_less(self.execution_path.as_str(), other.execution_path.as_str())
        }
    }
}

/// The executable whose contents are looked at before an extension runs: that of
/// an extension that runs and is trusted.
pub fn trusted_entrypoint(extension: &RegisteredExtension) -> (path: Option<String>)
    ensures
        match path {
            Some(text) => extension.runtime != ExtensionRuntime::Recipe
                && extension.runtime_trust is Some && text@
                == extension.runtime_trust->0.entrypoint_path@,
            None => extension.runtime == ExtensionRuntime::Recipe
                || extension.runtime_trust is None,
        },
{
    match &extension.runtime_trust {
        Some(trust) => if extension.runtime == ExtensionRuntime::Recipe {
            None
        } else {
            Some(trust.entrypoint_path.clone())
        },
        None => None,
    }
}

impl Default for ExtensionRuntimeHost {
    fn default() -> (host: Self)
        ensures
            host@ == Seq::<(KeyView, u64)>::empty(),
            host.session_epoch == 0,
            host.host_request_timeout_ms == DEFAULT_HOST_REQUEST_TIMEOUT_MS,
    {
        ExtensionRuntimeHost::with_timeout(DEFAULT_HOST_REQUEST_TIMEOUT_MS)
    }
}

impl ExtensionRuntimeHost {
    /// Create an empty runtime host.
    pub fn new() -> (host: Self)
        ensures
            host@ == Seq::<(KeyView, u64)>::empty(),
            host.session_epoch == 0,
            host.host_request_timeout_ms == DEFAULT_HOST_REQUEST_TIMEOUT_MS,
    {
        ExtensionRuntimeHost::with_timeout(DEFAULT_HOST_REQUEST_TIMEOUT_MS)
    }

    /// Create a runtime host with an explicit extension host request timeout.
    pub fn with_timeout(host_request_timeout_ms: u64) -> (host: Self)
        ensures
            host@ == Seq::<(KeyView, u64)>::empty(),
            host.session_epoch == 0,
            host.host_request_timeout_ms == host_request_timeout_ms,
    {
        let host: Self = ExtensionRuntimeHost {
            sessions: Vec::new(),
            session_epoch: 0,
            host_request_timeout_ms,
        };
        assert(host@ =~= Seq::<(KeyView, u64)>::empty());
        host
    }

    /// The executable that is asked for the registration of a package; a recipe
    /// has none.
    pub fn load_registration(&self, manifest: &ExtensionManifest, package_root: &str) -> (path:
        Option<String>)
        ensures
            match path {
                Some(text) => manifest.runtime != ExtensionRuntime::Recipe && text@
                    == package_binary(package_root@, manifest.id@),
                None => manifest.runtime == ExtensionRuntime::Recipe,
            },
    {
        if manifest.runtime == ExtensionRuntime::Recipe {
            None
        } else {
            Some(resolve_package_binary(package_root, manifest.id.as_str()))
        }
    }

    /// The session for a key.
    pub fn lookup_session(&self, key: &StdioSessionKey) -> (session: Option<u64>)
        ensures
            session == session_of(self@, key@),
    {
        let mut i: usize = 0;
        while i < self.sessions.len()
            invariant
                i <= self.sessions@.len(),
                forall|j: int| 0 <= j < i ==> (#[trigger] self@[j]).0 != key@,
            decreases self.sessions@.len() - i,
        {
            assert(self@[i as int].0 == self.sessions@[i as int].0@);
            if self.sessions[i].0.same(key) {
                proof {
                    lemma_session_found(self@, key@, i as int);
                }
                return Some(self.sessions[i].1);
            }
            i = i + 1;
        }
        proof {
            lemma_session_found(self@, key@, i as int);
        }
        None
    }

    /// How an action of an extension is run. The hash is that of the trusted
    /// entrypoint, where there is one.
    pub fn invoke_action(&self, extension: &RegisteredExtension, current_sha256: &str) -> (result:
        Result<InvokeStep, SpindleError>)
        ensures
            if extension.runtime == ExtensionRuntime::Recipe {
                &&& result matches Ok(InvokeStep::Answer { output })
                &&& output@.len() == 0
            } else {
                match trust_check(extension@, current_sha256@) {
                    Err(error) => result is Err && result->Err_0@ == error,
                    Ok(_) => match session_of(self@, key_of(extension@)) {
                        Some(number) => {
                            &&& result matches Ok(InvokeStep::Use { key, session })
                            &&& key@ == key_of(extension@)
                            &&& session == number
                        },
                        None => {
                            &&& result matches Ok(InvokeStep::Spawn { key, epoch })
                            &&& key@ == key_of(extension@)
                            &&& epoch == self.session_epoch
                        },
                    },
                }
            },
    {
        if extension.runtime == ExtensionRuntime::Recipe {
            return Ok(InvokeStep::Answer { output: ActionOutput::empty() });
        }
        match verify_runtime_trust(extension, current_sha256) {
            Ok(()) => {},
            Err(error) => {
                return Err(error);
            },
        }
        let key: StdioSessionKey = StdioSessionKey::from_extension(extension);
        match self.lookup_session(&key) {
            Some(session) => Ok(InvokeStep::Use { key, session }),
            None => Ok(InvokeStep::Spawn { key, epoch: self.session_epoch }),
        }
    }

    fn remove_key(&mut self, key: &StdioSessionKey)
        ensures
            final(self)@ == without_key(old(self)@, key@),
            final(self).session_epoch == old(self).session_epoch,
            final(self).host_request_timeout_ms == old(self).host_request_timeout_ms,
    {
        let ghost all = self@;
        let ghost mut seen: int = 0;
        let ghost epoch = self.session_epoch;
        let ghost timeout = self.host_request_timeout_ms;
        let mut i: usize = 0;
        assert(all.take(0) =~= Seq::empty());
        assert(self@ =~= without_key(all.take(0), key@) + all.skip(0));
        while i < self.sessions.len()
            invariant
                0 <= seen <= all.len(),
                i == without_key(all.take(seen), key@).len(),
                self@ == without_key(all.take(seen), key@) + all.skip(seen),
                self.session_epoch == epoch,
                self.host_request_timeout_ms == timeout,
            decreases self.sessions@.len() - i,
        {
            let ghost before = self@;
            assert(seen < all.len());
            assert(all.take(seen + 1).drop_last() =~= all.take(seen));
            assert(all.take(seen + 1).last() == all[seen]);
            assert(before[i as int] == all[seen]);
            assert(before[i as int].0 == self.sessions@[i as int].0@);
            if self.sessions[i].0.same(key) {
                let _ = self.sessions.remove(i);
                assert(self@ =~= before.remove(i as int));
                assert(self@ =~= without_key(all.take(seen + 1), key@) + all.skip(seen + 1));
            } else {
                i = i + 1;
                assert(self@ =~= without_key(all.take(seen + 1), key@) + all.skip(seen + 1));
            }
            proof {
                seen = seen + 1;
            }
        }
        assert(self@ =~= without_key(all.take(seen), key@));
        assert(all.take(seen) =~= all);
    }

    /// Take up a session that was started for a key in an epoch. Where sessions
    /// were dropped since, it is refused, and is to be ended.
    pub fn adopt_session(&mut self, key: &StdioSessionKey, session: u64, epoch: u64) -> (result:
        Result<(), SpindleError>)
        ensures
            final(self).session_epoch == old(self).session_epoch,
            final(self).host_request_timeout_ms == old(self).host_request_timeout_ms,
            if old(self).session_epoch == epoch {
                &&& result is Ok
                &&& final(self)@ == with_session(old(self)@, key@, session)
            } else {
                &&& checked(result) == Err::<(), ErrorView>(
                    ErrorView::ExtensionHostClosed { extension: key@.id },
                )
                &&& final(self)@ == old(self)@
            },
    {
        if self.session_epoch != epoch {
            return Err(SpindleError::ExtensionHostClosed { extension: key.id.clone() });
        }
        self.remove_key(key);
        let ghost others = self@;
        let mut spot: usize = 0;
        while spot < self.sessions.len() && self.sessions[spot].0.comes_before(key)
            invariant
                spot <= self.sessions@.len(),
                self@ == others,
                forall|j: int| 0 <= j < spot ==> key_less((#[trigger] others[j]).0, key@),
            decreases self.sessions@.len() - spot,
        {
            assert(others[spot as int].0 == self.sessions@[spot as int].0@);
            spot = spot + 1;
        }
        proof {
            if spot < others.len() {
                assert(others[spot as int].0 == self.sessions@[spot as int].0@);
            }
            lemma_key_place_is(others, key@, spot as int);
        }
        self.sessions.insert(spot, (key.clone(), session));
        assert(self@ =~= others.insert(spot as int, (key@, session)));
        Ok(())
    }

    /// Take up what a session made of an action. A session that is broken or out
    /// of step is dropped, if it is still the one for its key.
    pub fn finish_invoke(
        &mut self,
        key: &StdioSessionKey,
        session: u64,
        action: &str,
        response: Result<HostResponse, SpindleError>,
        rendered: &str,
    ) -> (outcome: InvokeOutcome)
        ensures
            final(self).session_epoch == old(self).session_epoch,
            final(self).host_request_timeout_ms == old(self).host_request_timeout_ms,
            outcome.terminate == (ends_session(response) && session_of(old(self)@, key@) == Some(
                session,
            )),
            final(self)@ == if outcome.terminate {
                without_key(old(self)@, key@)
            } else {
                old(self)@
            },
            match response {
                Ok(answer) => output_outcome(outcome.result) == action_outcome(
                    key@.id,
                    action@,
                    answer,
                    rendered@,
                ),
                Err(error) => outcome.result == Err::<ActionOutput, SpindleError>(error),
            },
    {
        let ends: bool = match &response {
            Ok(answer) => invoke_response_breaks_session(answer),
            Err(_) => response_breaks_session(&response),
        };
        let mut terminate: bool = false;
        if ends {
            if let Some(cached) = self.lookup_session(key) {
                if cached == session {
                    self.remove_key(key);
                    terminate = true;
                }
            }
        }
        let result: Result<ActionOutput, SpindleError> = match response {
            Ok(answer) => action_response(key.id.as_str(), action, answer, rendered),
            Err(error) => Err(error),
        };
        InvokeOutcome { result, terminate }
    }

    fn bump_session_epoch(&mut self)
        ensures
            final(self)@ == old(self)@,
            final(self).session_epoch == next_epoch(old(self).session_epoch),
            final(self).host_request_timeout_ms == old(self).host_request_timeout_ms,
    {
        if self.session_epoch == u64::MAX {
            self.session_epoch = 0;
        } else {
            self.session_epoch = self.session_epoch + 1;
        }
    }

    /// Drop all sessions: these are to be shut down, in order.
    pub fn shutdown(&mut self) -> (dropped: Vec<u64>)
        ensures
            final(self)@ == Seq::<(KeyView, u64)>::empty(),
            final(self).session_epoch == next_epoch(old(self).session_epoch),
            final(self).host_request_timeout_ms == old(self).host_request_timeout_ms,
            dropped@ == numbers(old(self)@),
    {
        let mut dropped: Vec<u64> = Vec::new();
        let mut i: usize = 0;
        while i < self.sessions.len()
            invariant
                i <= self.sessions@.len(),
                dropped@ =~= numbers(self@).take(i as int),
                self == old(self),
            decreases self.sessions@.len() - i,
        {
            dropped.push(self.sessions[i].1);
            i = i + 1;
        }
        assert(numbers(self@).take(i as int) =~= numbers(self@));
        self.sessions = Vec::new();
        assert(self@ =~= Seq::<(KeyView, u64)>::empty());
        self.bump_session_epoch();
        dropped
    }

    /// Drop the sessions of an extension: these are to be ended.
    pub fn invalidate_extension(&mut self, extension: &str) -> (dropped: Vec<u64>)
        ensures
            final(self)@ == without_extension(old(self)@, extension@),
            final(self).session_epoch == next_epoch(old(self).session_epoch),
            final(self).host_request_timeout_ms == old(self).host_request_timeout_ms,
            dropped@ == numbers_for(old(self)@, extension@),
    {
        let ghost all = self@;
        let ghost mut seen: int = 0;
        let ghost epoch = self.session_epoch;
        let ghost timeout = self.host_request_timeout_ms;
        let mut dropped: Vec<u64> = Vec::new();
        let mut i: usize = 0;
        assert(all.take(0) =~= Seq::empty());
        assert(self@ =~= without_extension(all.take(0), extension@) + all.skip(0));
        while i < self.sessions.len()
            invariant
                0 <= seen <= all.len(),
                i == without_extension(all.take(seen), extension@).len(),
                self@ == without_extension(all.take(seen), extension@) + all.skip(seen),
                dropped@ == numbers_for(all.take(seen), extension@),
                self.session_epoch == epoch,
                self.host_request_timeout_ms == timeout,
            decreases self.sessions@.len() - i,
        {
            let ghost before = self@;
            assert(seen < all.len());
            assert(all.take(seen + 1).drop_last() =~= all.take(seen));
            assert(all.take(seen + 1).last() == all[seen]);
            assert(before[i as int] == all[seen]);
            assert(before[i as int].0 == self.sessions@[i as int].0@);
            if same_text(self.sessions[i].0.id.as_str(), extension) {
                let (_, number) = self.sessions.remove(i);
                dropped.push(number);
                assert(self@ =~= before.remove(i as int));
                assert(self@ =~= without_extension(all.take(seen + 1), extension@) + all.skip(
                    seen + 1,
                ));
            } else {
                i = i + 1;
                assert(self@ =~= without_extension(all.take(seen + 1), extension@) + all.skip(
                    seen + 1,
                ));
            }
            proof {
                seen = seen + 1;
            }
        }
        assert(self@ =~= without_extension(all.take(seen), extension@));
        assert(all.take(seen) =~= all);
        self.bump_session_epoch();
        dropped
    }
}

/// A session is for one version of an extension, from one package and executable: that
/// of the recorded trust, if there is one.
pub proof fn law_session_is_for_one_executable(extension: RegisteredExtension)
    ensures
        key_of(extension@).id == extension.id@,
        key_of(extension@).version == extension.version@,
        key_of(extension@).package_root == extension.package_root@,
        extension.runtime_trust matches Some(trust) ==> key_of(extension@).execution_path
            == trust.entrypoint_path@,
        extension.runtime_trust is None ==> key_of(extension@).execution_path == package_binary(
            extension.package_root@,
            extension.id@,
        ),
{
}

/// The output of an action is what its host answered; an error that the host reports
/// is the failure of the action, and any other answer is unexpected.
pub proof fn law_output_is_what_the_host_answered(
    extension: Seq<char>,
    action: Seq<char>,
    response: HostResponse,
    rendered: Seq<char>,
    result: Result<ActionOutput, SpindleError>,
)
    requires
        output_outcome(result) == action_outcome(extension, action, response, rendered),
    ensures
        result is Ok <==> response is ActionOutput,
        response matches HostResponse::ActionOutput { output } ==> result->Ok_0@ == output@,
        response matches HostResponse::Error { error } ==> result->Err_0@ == (
        ErrorView::ExtensionActionFailed { extension, action, status: None, stderr: error@ }),
        response is Registration || response is Shutdown ==> result->Err_0@ is ExtensionHostError
            && result->Err_0@->ExtensionHostError_extension == extension,
{
}

/// A session ends where its host is out of step: it answered an invocation with
/// neither output nor an error, took too long, closed, or wrote what is no message. It
/// goes on where the action itself fails.
pub proof fn law_session_ends_where_its_host_is_out_of_step(
    response: Result<HostResponse, SpindleError>,
)
    ensures
        response matches Ok(answer) ==> (ends_session(response) <==> answer is Registration
            || answer is Shutdown),
        response matches Err(error) ==> (ends_session(response) <==> {
            ||| error is ExtensionHostTimedOut
            ||| error is ExtensionHostClosed
            ||| error is ExtensionHostProtocolInvalid
            ||| error is MessageTooLarge
            ||| error is Io && error->class == IoKind::InvalidData
        }),
{
}

/// Invalidating an extension drops its sessions, all of them and no others.
pub proof fn law_dropped_sessions_are_those_of_the_extension(
    sessions: SessionsView,
    extension: Seq<char>,
)
    ensures
        numbers_for(sessions, extension).len() + without_extension(sessions, extension).len()
            == sessions.len(),
        forall|number: u64| #[trigger]
            numbers_for(sessions, extension).contains(number) <==> exists|i: int|
                0 <= i < sessions.len() && (#[trigger] sessions[i]).0.id == extension
                    && sessions[i].1 == number,
        forall|entry: (KeyView, u64)| #[trigger]
            without_extension(sessions, extension).contains(entry) <==> sessions.contains(entry)
                && entry.0.id != extension,
    decreases sessions.len(),
{
    if sessions.len() > 0 {
        let front = sessions.drop_last();
        let last = sessions.last();
        let dropped = numbers_for(front, extension);
        let dropped_now = numbers_for(sessions, extension);
        let kept = without_extension(front, extension);
        let kept_now = without_extension(sessions, extension);
        law_dropped_sessions_are_those_of_the_extension(front, extension);
        assert(sessions[sessions.len() - 1] == last);
        assert forall|number: u64| #[trigger]
            dropped_now.contains(number) <==> exists|i: int|
                0 <= i < sessions.len() && (#[trigger] sessions[i]).0.id == extension
                    && sessions[i].1 == number by {
            assert(dropped.contains(number) <==> exists|i: int|
                0 <= i < front.len() && (#[trigger] front[i]).0.id == extension && front[i].1
                    == number);
            if dropped_now.contains(number) {
                let k = choose|k: int| 0 <= k < dropped_now.len() && dropped_now[k] == number;
                if k < dropped.len() {
                    assert(dropped[k] == number);
                    let i = choose|i: int|
                        0 <= i < front.len() && (#[trigger] front[i]).0.id == extension
                            && front[i].1 == number;
                    assert(sessions[i] == front[i]);
                }
            }
            if exists|i: int|
                0 <= i < sessions.len() && (#[trigger] sessions[i]).0.id == extension
                    && sessions[i].1 == number {
                let i = choose|i: int|
                    0 <= i < sessions.len() && (#[trigger] sessions[i]).0.id == extension
                        && sessions[i].1 == number;
                if i < front.len() {
                    assert(front[i] == sessions[i]);
                    let k = choose|k: int| 0 <= k < dropped.len() && dropped[k] == number;
                    assert(dropped_now[k] == number);
                } else {
                    assert(dropped_now[dropped_now.len() - 1] == number);
                }
            }
        }
        assert forall|entry: (KeyView, u64)| #[trigger]
            kept_now.contains(entry) <==> sessions.contains(entry) && entry.0.id != extension by {
            assert(kept.contains(entry) <==> front.contains(entry) && entry.0.id != extension);
            if kept_now.contains(entry) {
                let k = choose|k: int| 0 <= k < kept_now.len() && kept_now[k] == entry;
                if k < kept.len() {
                    assert(kept[k] == entry);
                    let i = choose|i: int| 0 <= i < front.len() && front[i] == entry;
                    assert(sessions[i] == entry);
                }
            }
            if sessions.contains(entry) && entry.0.id != extension {
                let i = choose|i: int| 0 <= i < sessions.len() && sessions[i] == entry;
                if i < front.len() {
                    assert(front[i] == entry);
                    let k = choose|k: int| 0 <= k < kept.len() && kept[k] == entry;
                    assert(kept_now[k] == entry);
                } else {
                    assert(kept_now[kept_now.len() - 1] == entry);
                }
            }
        }
    }
}

/// Shutting down drops the session of every key.
pub proof fn law_shutdown_drops_every_session(sessions: SessionsView, i: int)
    requires
        0 <= i < sessions.len(),
    ensures
        numbers(sessions).len() == sessions.len(),
        numbers(sessions)[i] == sessions[i].1,
{
}

/// The key of a session shows all that it holds.
pub proof fn law_key_shows_all(key: StdioSessionKey)
    ensures
        key@.id == key.id@,
        key@.version == key.version@,
        key@.package_root == key.package_root@,
        key@.execution_path == key.execution_path@,
{
}

} // verus!
