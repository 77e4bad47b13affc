//! A stdio host whose behaviour is configured, for tests of the kernel.
use vstd::prelude::*;

use crate::context::{ActionOutput, ActionOutputEvent, OutputEventView};
use crate::host::HostResponse;
use crate::json::{lemma_object_view, member, Json, JsonNumber, JsonView};
use crate::name_map::{inserted, law_lookup_after_insert, NameMap};
use crate::paths::{path_with_extension, with_suffix};
use crate::registration::{ExtensionRegistration, RegistrationView};
use crate::text::{chars_of, contains_text, is_blank, optional_view, text_is_blank, views};

verus! {

/// How long an oversized line is unless told otherwise.
pub const DEFAULT_OVERSIZED_BYTES: usize = 1_048_577;

/// Startup side effects executed once per process.
#[derive(Debug, PartialEq, Eq)]
pub struct StartupAction {
    /// Write the current pid to this file.
    pub write_pid: Option<String>,
    /// Append the current pid to this file.
    pub append_pid: Option<String>,
    /// Create this marker file.
    pub touch: Option<String>,
    /// Marker file used to count cross-spawn sessions.
    pub session_marker: Option<String>,
    /// Sleep before entering the stdio loop.
    pub sleep_ms: u64,
    /// Exit immediately with this code.
    pub exit_code: Option<i32>,
    /// Replace the executable with a stub after the first register response.
    pub mutate_on_register: bool,
}

/// Register-time response behavior.
#[derive(Debug, PartialEq, Eq)]
pub enum RegisterResponse {
    /// Return `registration` from the config.
    Registration,
    /// Write raw invalid JSON to stdout.
    InvalidJson {
        /// The line.
        line: String,
    },
    /// Write an oversized line to stdout.
    Oversized {
        /// How long the line is.
        bytes: usize,
    },
    /// Sleep without responding.
    Sleep {
        /// For how long.
        ms: u64,
    },
}

/// Failure modes used by recovery tests.
#[derive(Debug, PartialEq, Eq)]
pub enum FailResponse {
    /// Write a line that is not JSON, and exit.
    InvalidJson {
        /// The line.
        line: String,
    },
    /// Write an oversized line, and hang.
    Oversized {
        /// How long the line is.
        bytes: usize,
    },
    /// Write a line that is not text, and hang.
    NonUtf8,
    /// Sleep, then fail.
    Sleep {
        /// For how long.
        ms: u64,
    },
    /// Exit.
    Exit {
        /// With this code.
        code: i32,
    },
}

/// Response body written to stdout.
#[derive(Debug, PartialEq, Eq)]
pub enum ResponseTemplate {
    /// Output without events, or as the counter or marker of the effect says.
    EmptyOutput,
    /// This output.
    Output {
        /// The output as JSON.
        output: Json,
    },
    /// An error.
    Error {
        /// Its message.
        error: String,
    },
    /// Emit a registration-shaped response during invoke.
    RegistrationSurface {
        /// The surface.
        registration: ExtensionRegistration,
    },
    /// Fail.
    Failure {
        /// How.
        failure: FailResponse,
    },
}

/// Template for counting invoke responses.
#[derive(Debug, PartialEq, Eq)]
pub struct CountEventTemplate {
    /// Event type.
    pub event_type: String,
    /// The member of the payload that holds the count.
    pub field: String,
}

/// Shutdown response behavior.
#[derive(Debug, PartialEq, Eq)]
pub struct ShutdownResponse {
    /// Sleep after responding.
    pub sleep_ms: u64,
}

/// Invoke-time response behavior.
#[derive(Debug, PartialEq, Eq)]
pub struct InvokeEffect {
    /// What is answered.
    pub response: ResponseTemplate,
    /// Sleep before responding.
    pub sleep_ms: u64,
    /// Create this marker file before responding.
    pub touch: Option<String>,
    /// Create this marker file when `touch` already exists.
    pub touch_else: Option<String>,
    /// Delete this file before responding.
    pub remove_file: Option<String>,
    /// Increment an internal counter and include it in event data.
    pub count_event: Option<CountEventTemplate>,
    /// Include a fixed marker string in event data.
    pub marker: Option<String>,
}

/// One invoke matcher.
#[derive(Debug, PartialEq, Eq)]
pub struct InvokeRule {
    /// Match when the request line contains this substring.
    pub when_contains: Option<String>,
    /// Match on the Nth invoke in this process (1-based).
    pub when_invoke_index: Option<u64>,
    /// Match on the Nth session across marker-backed restarts (1-based).
    pub when_session_index: Option<u64>,
    /// Response to emit when this rule matches.
    pub effect: InvokeEffect,
}

/// Full test-host behavior.
#[derive(Debug, PartialEq, Eq)]
pub struct TestHostConfig {
    /// Optional actions before the stdio loop begins.
    pub startup: StartupAction,
    /// Surface returned from `register` when `register_response` is `Registration`.
    pub registration: ExtensionRegistration,
    /// Response emitted for `register` requests.
    pub register_response: RegisterResponse,
    /// Ordered invoke matchers; the first match wins.
    pub invoke_rules: Vec<InvokeRule>,
    /// Fallback invoke response.
    pub invoke_default: InvokeEffect,
    /// Response emitted for `shutdown` requests.
    pub shutdown: ShutdownResponse,
}

impl Default for StartupAction {
    fn default() -> (startup: Self)
        ensures
            startup == (StartupAction {
                write_pid: None,
                append_pid: None,
                touch: None,
                session_marker: None,
                sleep_ms: 0,
                exit_code: None,
                mutate_on_register: false,
            }),
    {
        StartupAction {
            write_pid: None,
            append_pid: None,
            touch: None,
            session_marker: None,
            sleep_ms: 0,
            exit_code: None,
            mutate_on_register: false,
        }
    }
}

impl Default for RegisterResponse {
    fn default() -> (response: Self)
        ensures
            response == RegisterResponse::Registration,
    {
        RegisterResponse::Registration
    }
}

impl Default for ResponseTemplate {
    fn default() -> (response: Self)
        ensures
            response == ResponseTemplate::EmptyOutput,
    {
        ResponseTemplate::EmptyOutput
    }
}

impl Default for ShutdownResponse {
    fn default() -> (response: Self)
        ensures
            response.sleep_ms == 0,
    {
        ShutdownResponse { sleep_ms: 0 }
    }
}

/// An effect that does nothing but answer with output without events.
pub open spec fn no_effect() -> InvokeEffect {
    InvokeEffect {
        response: ResponseTemplate::EmptyOutput,
        sleep_ms: 0,
        touch: None,
        touch_else: None,
        remove_file: None,
        count_event: None,
        marker: None,
    }
}

impl Default for InvokeEffect {
    fn default() -> (effect: Self)
        ensures
            effect == no_effect(),
    {
        InvokeEffect {
            response: ResponseTemplate::EmptyOutput,
            sleep_ms: 0,
            touch: None,
            touch_else: None,
            remove_file: None,
            count_event: None,
            marker: None,
        }
    }
}

/// Whether a configuration asks for nothing out of the ordinary, apart from its
/// registration and what an invocation is answered with.
pub open spec fn is_plain(config: TestHostConfig) -> bool {
    &&& config.startup == (StartupAction {
        write_pid: None,
        append_pid: None,
        touch: None,
        session_marker: None,
        sleep_ms: 0,
        exit_code: None,
        mutate_on_register: false,
    })
    &&& config.register_response == RegisterResponse::Registration
    &&& config.invoke_rules@.len() == 0
    &&& config.shutdown.sleep_ms == 0
}

impl Default for TestHostConfig {
    fn default() -> (config: Self)
        ensures
            is_plain(config),
            config.registration@ == (RegistrationView {
                emits: Seq::empty(),
                produces: Seq::empty(),
                capabilities: Seq::empty(),
                actions: Seq::empty(),
                routes: Seq::empty(),
            }),
            config.invoke_default == no_effect(),
    {
        TestHostConfig::with_registration(ExtensionRegistration::new())
    }
}

impl TestHostConfig {
    /// Marker-backed session counter file derived from the config path.
    pub fn session_marker_path(config_path: &str) -> (path: String)
        ensures
            path@ == with_suffix(config_path@, "session"@),
    {
        path_with_extension(config_path, "session")
    }

    /// Build an empty-output config with the given registration surface.
    pub fn with_registration(registration: ExtensionRegistration) -> (config: Self)
        ensures
            is_plain(config),
            config.registration == registration,
            config.invoke_default == no_effect(),
    {
        TestHostConfig {
            startup: StartupAction::default(),
            registration,
            register_response: RegisterResponse::Registration,
            invoke_rules: Vec::new(),
            invoke_default: InvokeEffect::default(),
            shutdown: ShutdownResponse { sleep_ms: 0 },
        }
    }

    /// Build a config that emits incrementing count events on invoke.
    pub fn with_counting_invoke(registration: ExtensionRegistration, event_type: &str) -> (config:
        Self)
        ensures
            is_plain(config),
            config.registration == registration,
            config.invoke_default.count_event matches Some(template) && template.event_type@
                == event_type@ && template.field@ == "count"@ && config.invoke_default == (
            InvokeEffect { count_event: Some(template), ..no_effect() }),
    {
        let mut config: Self = TestHostConfig::with_registration(registration);
        config.invoke_default.count_event =
        Some(
            CountEventTemplate { event_type: event_type.to_owned(), field: "count".to_owned() },
        );
        config
    }

    /// Build a config that emits a marker value in invoke event data.
    pub fn with_marker_invoke(registration: ExtensionRegistration, marker: &str) -> (config: Self)
        ensures
            is_plain(config),
            config.registration == registration,
            config.invoke_default.marker matches Some(text) && text@ == marker@
                && config.invoke_default == (InvokeEffect { marker: Some(text), ..no_effect() }),
    {
        let mut config: Self = TestHostConfig::with_registration(registration);
        config.invoke_default.marker = Some(marker.to_owned());
        config
    }
}

/// The config path for an executable, given its canonical path where it has one.
pub fn config_path_for_executable(executable: &str, canonical: Option<&str>) -> (path: String)
    ensures
        path@ == match canonical {
            Some(resolved) => with_suffix(resolved@, "json"@),
            None => with_suffix(executable@, "json"@),
        },
{
    match canonical {
        Some(resolved) => path_with_extension(resolved, "json"),
        None => path_with_extension(executable, "json"),
    }
}

/// Where the config of an executable is looked for, in order: where the
/// environment says, beside the executable, and beside what it resolves to.
pub open spec fn candidates_of(
    configured: Option<Seq<char>>,
    executable: Seq<char>,
    canonical: Option<Seq<char>>,
) -> Seq<Seq<char>> {
    let beside = with_suffix(executable, "json"@);
    let first = match configured {
        Some(path) => seq![path, beside],
        None => seq![beside],
    };
    match canonical {
        Some(resolved) => if first.contains(with_suffix(resolved, "json"@)) {
            first
        } else {
            first.push(with_suffix(resolved, "json"@))
        },
        None => first,
    }
}

/// Where the config of an executable is looked for, in order. The first candidate
/// that can be read is the one that counts.
pub fn config_candidates(
    configured: Option<String>,
    executable: &str,
    canonical: Option<String>,
) -> (candidates: Vec<String>)
    ensures
        views(candidates@) == candidates_of(
            optional_view(configured),
            executable@,
            optional_view(canonical),
        ),
{
    let mut candidates: Vec<String> = Vec::new();
    let ghost given = optional_view(configured);
    if let Some(path) = configured {
        candidates.push(path);
    }
    candidates.push(path_with_extension(executable, "json"));
    let ghost first = match given {
        Some(path) => seq![path, with_suffix(executable@, "json"@)],
        None => seq![with_suffix(executable@, "json"@)],
    };
    assert(views(candidates@) =~= first);
    if let Some(resolved) = canonical {
        let beside: String = path_with_extension(resolved.as_str(), "json");
        if !contains_text(candidates.as_slice(), beside.as_str()) {
            let ghost added = beside@;
            candidates.push(beside);
            assert(views(candidates@) =~= first.push(added));
        }
    }
    candidates
}

/// The message for a config that cannot be parsed.
pub fn invalid_config_message(config_path: &str, error: &str) -> (message: String)
    ensures
        message@ == "invalid test host config at "@ + config_path@ + ": "@ + error@,
{
    let mut message: String = "invalid test host config at ".to_owned();
    message.append(config_path);
    message.append(": ");
    message.append(error);
    message
}

/// The message for an executable without a config.
pub fn missing_config_message(executable: &str) -> (message: String)
    ensures
        message@ == "missing test host config for executable "@ + executable@,
{
    let mut message: String = "missing test host config for executable ".to_owned();
    message.append(executable);
    message
}

/// Whether a text occurs in another one at a position.
pub open spec fn occurs_at(text: Seq<char>, part: Seq<char>, at: int) -> bool {
    0 <= at && at + part.len() <= text.len() && text.subrange(at, at + part.len()) == part
}

/// Whether a text occurs in another one.
pub open spec fn occurs_in(text: Seq<char>, part: Seq<char>) -> bool {
    exists|at: int| occurs_at(text, part, at)
}

fn matches_at(text: &Vec<char>, part: &Vec<char>, at: usize) -> (found: bool)
    requires
        at + part@.len() <= text@.len(),
    ensures
        found == occurs_at(text@, part@, at as int),
{
    let mut i: usize = 0;
    while i < part.len()
        invariant
            i <= part@.len(),
            at + part@.len() <= text@.len(),
            forall|j: int| 0 <= j < i ==> text@[at + j] == #[trigger] part@[j],
        decreases part@.len() - i,
    {
        assert(text@.len() == text.len());
        if text[at + i] != part[i] {
            assert(text@.subrange(at as int, at + part@.len())[i as int] == text@[at + i]);
            return false;
        }
        i = i + 1;
    }
    assert(text@.subrange(at as int, at + part@.len()) =~= part@);
    true
}

/// Whether a text occurs in another one.
pub fn text_holds(text: &str, part: &str) -> (found: bool)
    ensures
        found == occurs_in(text@, part@),
{
    let chars: Vec<char> = chars_of(text);
    let wanted: Vec<char> = chars_of(part);
    if wanted.len() > chars.len() {
        return false;
    }
    let last: usize = chars.len() - wanted.len();
    let mut at: usize = 0;
    while at < last
        invariant
            at <= last,
            last + wanted@.len() == chars@.len(),
            chars@ == text@,
            wanted@ == part@,
            forall|j: int| 0 <= j < at ==> !#[trigger] occurs_at(text@, part@, j),
        decreases last - at,
    {
        if matches_at(&chars, &wanted, at) {
            assert(occurs_at(text@, part@, at as int));
            return true;
        }
        at = at + 1;
    }
    let found: bool = matches_at(&chars, &wanted, at);
    assert(found ==> occurs_at(text@, part@, at as int));
    found
}

/// What a line asks a test host for.
#[derive(Debug, Clone, Copy, PartialEq, Eq, Structural)]
pub enum LineKind {
    /// Nothing.
    Blank,
    /// To register.
    Register,
    /// To invoke an action.
    Invoke,
    /// To shut down.
    Shutdown,
    /// Something else.
    Unexpected,
}

/// What a line asks a test host for: the first kind of request that it mentions.
pub open spec fn kind_of_line(line: Seq<char>) -> LineKind {
    if is_blank(line) {
        LineKind::Blank
    } else if occurs_in(line, "\"type\":\"register\""@) {
        LineKind::Register
    } else if occurs_in(line, "\"type\":\"invoke\""@) {
        LineKind::Invoke
    } else if occurs_in(line, "\"type\":\"shutdown\""@) {
        LineKind::Shutdown
    } else {
        LineKind::Unexpected
    }
}

/// What a line asks a test host for.
pub fn line_kind(line: &str) -> (kind: LineKind)
    ensures
        kind == kind_of_line(line@),
{
    if text_is_blank(line) {
        LineKind::Blank
    } else if text_holds(line, "\"type\":\"register\"") {
        LineKind::Register
    } else if text_holds(line, "\"type\":\"invoke\"") {
        LineKind::Invoke
    } else if text_holds(line, "\"type\":\"shutdown\"") {
        LineKind::Shutdown
    } else {
        LineKind::Unexpected
    }
}

/// The answer to a line that asks for something else.
pub fn unexpected_request() -> (response: HostResponse)
    ensures
        response matches HostResponse::Error { error } && error@ == "unexpected request"@,
{
    HostResponse::Error { error: "unexpected request".to_owned() }
}

/// What a test host keeps between requests.
#[derive(Debug, PartialEq, Eq)]
pub struct HostState {
    /// Marker file used to count cross-spawn sessions.
    pub session_marker: String,
    /// How many invocations there were.
    pub invoke_count: u64,
    /// How many of them were counted in their answers.
    pub count: u64,
}

/// One more, as far as it goes.
pub open spec fn one_more(count: u64) -> u64 {
    if count == u64::MAX {
        count
    } else {
        (count + 1) as u64
    }
}

fn incremented(count: u64) -> (more: u64)
    ensures
        more == one_more(count),
{
    if count == u64::MAX {
        count
    } else {
        count + 1
    }
}

/// Whether a rule asks for this invocation.
pub open spec fn rule_applies(
    rule: InvokeRule,
    line: Seq<char>,
    invoke_index: u64,
    session_index: Option<u64>,
) -> bool {
    &&& rule.when_contains is Some ==> occurs_in(line, rule.when_contains->0@)
    &&& rule.when_invoke_index is Some ==> rule.when_invoke_index->0 == invoke_index
    &&& rule.when_session_index is Some ==> session_index == rule.when_session_index
}

/// The position of the first rule that asks for an invocation, or their number.
pub open spec fn first_rule(
    rules: Seq<InvokeRule>,
    line: Seq<char>,
    invoke_index: u64,
    session_index: Option<u64>,
) -> int
    decreases rules.len(),
{
    if rules.len() == 0 || rule_applies(rules[0], line, invoke_index, session_index) {
        0
    } else {
        1 + first_rule(rules.drop_first(), line, invoke_index, session_index)
    }
}

/// The effect of an invocation: that of the first rule that asks for it, else the
/// default.
pub open spec fn effect_of(
    config: TestHostConfig,
    line: Seq<char>,
    invoke_index: u64,
    session_index: Option<u64>,
) -> InvokeEffect {
    let at = first_rule(config.invoke_rules@, line, invoke_index, session_index);
    if 0 <= at < config.invoke_rules@.len() {
        config.invoke_rules@[at].effect
    } else {
        config.invoke_default
    }
}

/// Whether some rule asks which session it is.
pub open spec fn asks_for_session(rules: Seq<InvokeRule>) -> bool {
    exists|i: int| 0 <= i < rules.len() && (#[trigger] rules[i]).when_session_index is Some
}

/// Which session it is: the second one where the marker is there.
pub open spec fn session_number(marker_exists: bool) -> u64 {
    if marker_exists {
        2
    } else {
        1
    }
}

/// Whether a rule asks for this invocation.
pub fn rule_matches(
    rule: &InvokeRule,
    request_line: &str,
    invoke_index: u64,
    session_index: Option<u64>,
) -> (matched: bool)
    ensures
        matched == rule_applies(*rule, request_line@, invoke_index, session_index),
{
    if let Some(expected) = &rule.when_contains {
        if !text_holds(request_line, expected.as_str()) {
            return false;
        }
    }
    if let Some(expected) = rule.when_invoke_index {
        if invoke_index != expected {
            return false;
        }
    }
    if let Some(expected) = rule.when_session_index {
        match session_index {
            Some(actual) => {
                if actual != expected {
                    return false;
                }
            },
            None => {
                return false;
            },
        }
    }
    true
}

proof fn lemma_first_rule(
    rules: Seq<InvokeRule>,
    line: Seq<char>,
    invoke_index: u64,
    session_index: Option<u64>,
    at: int,
)
    requires
        0 <= at <= rules.len(),
        forall|j: int|
            0 <= j < at ==> !rule_applies(
                #[trigger] rules[j],
                line,
                invoke_index,
                session_index,
            ),
        at < rules.len() ==> rule_applies(rules[at], line, invoke_index, session_index),
    ensures
        first_rule(rules, line, invoke_index, session_index) == at,
    decreases at,
{
    if at > 0 {
        assert(!rule_applies(rules[0], line, invoke_index, session_index));
        let rest = rules.drop_first();
        assert forall|j: int| 0 <= j < at - 1 implies !rule_applies(
            #[trigger] rest[j],
            line,
            invoke_index,
            session_index,
        ) by {
            assert(rest[j] == rules[j + 1]);
        }
        lemma_first_rule(rest, line, invoke_index, session_index, at - 1);
    }
}

/// The effect of an invocation.
pub fn select_effect<'a>(
    config: &'a TestHostConfig,
    request_line: &str,
    invoke_index: u64,
    session_index: Option<u64>,
) -> (effect: &'a InvokeEffect)
    ensures
        *effect == effect_of(*config, request_line@, invoke_index, session_index),
{
    let mut i: usize = 0;
    while i < config.invoke_rules.len()
        invariant
            i <= config.invoke_rules@.len(),
            forall|j: int|
                0 <= j < i ==> !rule_applies(
                    #[trigger] config.invoke_rules@[j],
                    request_line@,
                    invoke_index,
                    session_index,
                ),
        decreases config.invoke_rules@.len() - i,
    {
        if rule_matches(&config.invoke_rules[i], request_line, invoke_index, session_index) {
            proof {
                lemma_first_rule(
                    config.invoke_rules@,
                    request_line@,
                    invoke_index,
                    session_index,
                    i as int,
                );
            }
            return &config.invoke_rules[i].effect;
        }
        i = i + 1;
    }
    proof {
        lemma_first_rule(
            config.invoke_rules@,
            request_line@,
            invoke_index,
            session_index,
            i as int,
        );
    }
    &config.invoke_default
}

fn wants_session(rules: &Vec<InvokeRule>) -> (wanted: bool)
    ensures
        wanted == asks_for_session(rules@),
{
    let mut i: usize = 0;
    while i < rules.len()
        invariant
            i <= rules@.len(),
            forall|j: int| 0 <= j < i ==> (#[trigger] rules@[j]).when_session_index is None,
        decreases rules@.len() - i,
    {
        if rules[i].when_session_index.is_some() {
            return true;
        }
        i = i + 1;
    }
    false
}

/// How a configured failure goes. Before any of them the session marker is
/// written.
#[derive(Debug, PartialEq, Eq)]
pub enum FailStep {
    /// Write a line, then exit.
    WriteThenExit {
        /// The line.
        line: String,
    },
    /// Write a line of this length, then hang.
    OversizedThenHang {
        /// How long the line is.
        bytes: usize,
    },
    /// Write a line that is not text, then hang.
    NonUtf8ThenHang,
    /// Sleep, then answer.
    SleepThenRespond {
        /// For how long.
        ms: u64,
        /// The answer.
        response: HostResponse,
    },
    /// Exit.
    Exit {
        /// With this code.
        code: i32,
    },
}

/// What an invocation is answered with.
#[derive(Debug, PartialEq, Eq)]
pub enum EffectAnswer {
    /// This response; before it, the session marker is written where it says so.
    Respond {
        /// The response.
        response: HostResponse,
        /// Whether the session marker is written.
        mark_session: bool,
    },
    /// The output that this JSON stands for.
    Decode {
        /// The output as JSON.
        output: Json,
    },
    /// A failure.
    Fail {
        /// How it goes.
        step: FailStep,
    },
}

/// What an invocation does, in this order.
#[derive(Debug, PartialEq, Eq)]
pub struct EffectPlan {
    /// Create this file.
    pub touch: Option<String>,
    /// Sleep this long.
    pub sleep_ms: u64,
    /// Delete this file.
    pub remove_file: Option<String>,
    /// Answer with this.
    pub answer: EffectAnswer,
}

/// The length of an oversized line.
pub fn oversized_bytes(bytes: usize) -> (size: usize)
    ensures
        size == if bytes == 0 {
            DEFAULT_OVERSIZED_BYTES
        } else {
            bytes
        },
{
    if bytes == 0 {
        DEFAULT_OVERSIZED_BYTES
    } else {
        bytes
    }
}

/// The output events of a counted invocation.
pub open spec fn counted_events(template: CountEventTemplate, count: u64) -> Seq<OutputEventView> {
    seq![
        OutputEventView {
            kind: template.event_type@,
            subject: None,
            data: JsonView::Object(
                inserted(
                    Seq::empty(),
                    template.field@,
                    JsonView::Number(JsonNumber::Unsigned(count)),
                ),
            ),
        },
    ]
}

/// The output events of a marked invocation.
pub open spec fn marked_events(marker: Seq<char>) -> Seq<OutputEventView> {
    seq![
        OutputEventView {
            kind: "test.rendered"@,
            subject: None,
            data: JsonView::Object(inserted(Seq::empty(), "marker"@, JsonView::Text(marker))),
        },
    ]
}

/// The output of a counted invocation.
pub fn counting_output(template: &CountEventTemplate, count: u64) -> (output: ActionOutput)
    ensures
        output@ == counted_events(*template, count),
{
    let mut data: NameMap<Json> = NameMap::new();
    data.insert(template.field.clone(), Json::Number(JsonNumber::Unsigned(count)));
    proof {
        lemma_object_view(data);
    }
    ActionOutput::event(
        ActionOutputEvent::new(template.event_type.as_str()).with_data(Json::Object(data)),
    )
}

/// The output of a marked invocation.
pub fn marker_output(marker: &str) -> (output: ActionOutput)
    ensures
        output@ == marked_events(marker@),
{
    let mut data: NameMap<Json> = NameMap::new();
    data.insert("marker".to_owned(), Json::Text(marker.to_owned()));
    proof {
        lemma_object_view(data);
    }
    ActionOutput::event(ActionOutputEvent::new("test.rendered").with_data(Json::Object(data)))
}

/// Whether a step is how a configured failure goes.
pub open spec fn fails_as(failure: FailResponse, step: FailStep) -> bool {
    match failure {
        FailResponse::InvalidJson { line } => step matches FailStep::WriteThenExit { line: written }
            && written@ == line@,
        FailResponse::Oversized { bytes } => step matches FailStep::OversizedThenHang {
            bytes: written,
        } && written == if bytes == 0 {
            DEFAULT_OVERSIZED_BYTES
        } else {
            bytes
        },
        FailResponse::NonUtf8 => step is NonUtf8ThenHang,
        FailResponse::Sleep { ms } => {
            &&& step matches FailStep::SleepThenRespond { ms: slept, response }
            &&& slept == ms
            &&& response matches HostResponse::Error { error }
            &&& error@ == "invoke sleep"@
        },
        FailResponse::Exit { code } => step == (FailStep::Exit { code }),
    }
}

/// How a configured failure goes.
pub fn apply_failure(failure: &FailResponse) -> (step: FailStep)
    ensures
        fails_as(*failure, step),
{
    match failure {
        FailResponse::InvalidJson { line } => FailStep::WriteThenExit { line: line.clone() },
        FailResponse::Oversized { bytes } => FailStep::OversizedThenHang {
            bytes: oversized_bytes(*bytes),
        },
        FailResponse::NonUtf8 => FailStep::NonUtf8ThenHang,
        FailResponse::Sleep { ms } => FailStep::SleepThenRespond {
            ms: *ms,
            response: HostResponse::Error { error: "invoke sleep".to_owned() },
        },
        FailResponse::Exit { code } => FailStep::Exit { code: *code },
    }
}

/// The file that an invocation creates: the one it names, or where that is there
/// already, the other one it names.
pub open spec fn touched(effect: InvokeEffect, touch_exists: bool) -> Option<Seq<char>> {
    match effect.touch {
        Some(path) => if touch_exists {
            optional_view(effect.touch_else)
        } else {
            Some(path@)
        },
        None => None,
    }
}

/// Whether an answer is what an effect asks for.
pub open spec fn answers_effect(effect: InvokeEffect, counted: u64, answer: EffectAnswer) -> bool {
    match effect.response {
        ResponseTemplate::Failure { failure } => answer matches EffectAnswer::Fail { step }
            && fails_as(failure, step),
        ResponseTemplate::Error { error } => {
            &&& answer matches EffectAnswer::Respond { response, mark_session }
            &&& !mark_session
            &&& response matches HostResponse::Error { error: message }
            &&& message@ == error@
        },
        ResponseTemplate::RegistrationSurface { registration } => {
            &&& answer matches EffectAnswer::Respond { response, mark_session }
            &&& mark_session
            &&& response matches HostResponse::Registration { registration: surface }
            &&& surface@ == registration@
        },
        ResponseTemplate::Output { output } => answer matches EffectAnswer::Decode {
            output: value,
        } && value@ == output@,
        ResponseTemplate::EmptyOutput => {
            &&& answer matches EffectAnswer::Respond { response, mark_session }
            &&& !mark_session
            &&& response matches HostResponse::ActionOutput { output }
            &&& output@ == match effect.count_event {
                Some(template) => counted_events(template, counted),
                None => match effect.marker {
                    Some(marker) => marked_events(marker@),
                    None => Seq::empty(),
                },
            }
        },
    }
}

/// How many counted answers there are after an effect.
pub open spec fn count_after(effect: InvokeEffect, count: u64) -> u64 {
    if effect.response is EmptyOutput && effect.count_event is Some {
        one_more(count)
    } else {
        count
    }
}

impl HostState {
    /// The state of a host that starts.
    pub fn new(config_path: &str, startup: &StartupAction) -> (state: Self)
        ensures
            state.session_marker@ == match startup.session_marker {
                Some(marker) => marker@,
                None => with_suffix(config_path@, "session"@),
            },
            state.invoke_count == 0,
            state.count == 0,
    {
        let session_marker: String = match &startup.session_marker {
            Some(marker) => marker.clone(),
            None => TestHostConfig::session_marker_path(config_path),
        };
        HostState { session_marker, invoke_count: 0, count: 0 }
    }

    /// Which session it is, given whether the marker is there.
    pub fn session_index(&self, marker_exists: bool) -> (index: u64)
        ensures
            index == session_number(marker_exists),
    {
        if marker_exists {
            2
        } else {
            1
        }
    }

    /// Take up an invocation: which effect it has.
    pub fn handle_invoke_request<'a>(
        &mut self,
        config: &'a TestHostConfig,
        request_line: &str,
        marker_exists: bool,
    ) -> (effect: &'a InvokeEffect)
        ensures
            final(self).session_marker == old(self).session_marker,
            final(self).count == old(self).count,
            final(self).invoke_count == one_more(old(self).invoke_count),
            *effect == effect_of(
                *config,
                request_line@,
                one_more(old(self).invoke_count),
                if asks_for_session(config.invoke_rules@) {
                    Some(session_number(marker_exists))
                } else {
                    None
                },
            ),
    {
        self.invoke_count = incremented(self.invoke_count);
        let session_index: Option<u64> = if wants_session(&config.invoke_rules) {
            Some(self.session_index(marker_exists))
        } else {
            None
        };
        select_effect(config, request_line, self.invoke_count, session_index)
    }

    /// What an invocation with an effect does, given whether the file that it
    /// creates is there already.
    pub fn apply_invoke_effect(&mut self, effect: &InvokeEffect, touch_exists: bool) -> (plan:
        EffectPlan)
        ensures
            final(self).session_marker == old(self).session_marker,
            final(self).invoke_count == old(self).invoke_count,
            final(self).count == count_after(*effect, old(self).count),
            optional_view(plan.touch) == touched(*effect, touch_exists),
            plan.sleep_ms == effect.sleep_ms,
            optional_view(plan.remove_file) == optional_view(effect.remove_file),
            answers_effect(*effect, one_more(old(self).count), plan.answer),
    {
        let touch: Option<String> = match &effect.touch {
            Some(path) => if touch_exists {
                effect.touch_else.clone()
            } else {
                Some(path.clone())
            },
            None => None,
        };
        let answer: EffectAnswer = match &effect.response {
            ResponseTemplate::Failure { failure } => EffectAnswer::Fail {
                step: apply_failure(failure),
            },
            ResponseTemplate::Error { error } => EffectAnswer::Respond {
                response: HostResponse::Error { error: error.clone() },
                mark_session: false,
            },
            ResponseTemplate::RegistrationSurface { registration } => EffectAnswer::Respond {
                response: HostResponse::Registration { registration: registration.clone() },
                mark_session: true,
            },
            ResponseTemplate::Output { output } => EffectAnswer::Decode { output: output.clone() },
            ResponseTemplate::EmptyOutput => {
                let output: ActionOutput = match &effect.count_event {
                    Some(template) => {
                        self.count = incremented(self.count);
                        counting_output(template, self.count)
                    },
                    None => match &effect.marker {
                        Some(marker) => marker_output(marker.as_str()),
                        None => ActionOutput::empty(),
                    },
                };
                EffectAnswer::Respond {
                    response: HostResponse::ActionOutput { output },
                    mark_session: false,
                }
            },
        };
        EffectPlan {
            touch,
            sleep_ms: effect.sleep_ms,
            remove_file: effect.remove_file.clone(),
            answer,
        }
    }
}

/// What a register request does.
#[derive(Debug, PartialEq, Eq)]
pub enum RegisterStep {
    /// Answer; before it, the executable is replaced where it says so.
    Respond {
        /// The answer.
        response: HostResponse,
        /// Whether the executable is replaced by a stub.
        mutate: bool,
    },
    /// Write a line, then hang.
    WriteThenHang {
        /// The line.
        line: String,
    },
    /// Write a line of this length, then hang.
    OversizedThenHang {
        /// How long the line is.
        bytes: usize,
    },
    /// Sleep, and answer nothing.
    Sleep {
        /// For how long.
        ms: u64,
    },
}

/// What a register request does.
pub fn handle_register_request(config: &TestHostConfig) -> (step: RegisterStep)
    ensures
        match config.register_response {
            RegisterResponse::Registration => {
                &&& step matches RegisterStep::Respond { response, mutate }
                &&& mutate == config.startup.mutate_on_register
                &&& response matches HostResponse::Registration { registration }
                &&& registration@ == config.registration@
            },
            RegisterResponse::InvalidJson { line } => step matches RegisterStep::WriteThenHang {
                line: written,
            } && written@ == line@,
            RegisterResponse::Oversized { bytes } => step == (RegisterStep::OversizedThenHang {
                bytes: if bytes == 0 {
                    DEFAULT_OVERSIZED_BYTES
                } else {
                    bytes
                },
            }),
            RegisterResponse::Sleep { ms } => step == (RegisterStep::Sleep { ms }),
        },
{
    match &config.register_response {
        RegisterResponse::Registration => RegisterStep::Respond {
            response: HostResponse::Registration { registration: config.registration.clone() },
            mutate: config.startup.mutate_on_register,
        },
        RegisterResponse::InvalidJson { line } => RegisterStep::WriteThenHang {
            line: line.clone(),
        },
        RegisterResponse::Oversized { bytes } => RegisterStep::OversizedThenHang {
            bytes: oversized_bytes(*bytes),
        },
        RegisterResponse::Sleep { ms } => RegisterStep::Sleep { ms: *ms },
    }
}

/// Whatever the rules, the effect of an invocation is that of a rule that asks for
/// it and comes before all others that do, or the default where none does.
pub proof fn law_first_rule_wins(
    config: TestHostConfig,
    line: Seq<char>,
    invoke_index: u64,
    session_index: Option<u64>,
)
    ensures
        ({
            let rules = config.invoke_rules@;
            let effect = effect_of(config, line, invoke_index, session_index);
            ||| exists|i: int|
                0 <= i < rules.len() && rule_applies(
                    #[trigger] rules[i],
                    line,
                    invoke_index,
                    session_index,
                ) && effect == rules[i].effect && forall|j: int|
                    0 <= j < i ==> !rule_applies(
                        #[trigger] rules[j],
                        line,
                        invoke_index,
                        session_index,
                    )
            ||| effect == config.invoke_default && forall|j: int|
                0 <= j < rules.len() ==> !rule_applies(
                    #[trigger] rules[j],
                    line,
                    invoke_index,
                    session_index,
                )
        }),
{
    let rules = config.invoke_rules@;
    lemma_first_rule_means(rules, line, invoke_index, session_index);
    let at = first_rule(rules, line, invoke_index, session_index);
    if at < rules.len() {
        assert(rule_applies(rules[at], line, invoke_index, session_index));
    }
}

proof fn lemma_first_rule_means(
    rules: Seq<InvokeRule>,
    line: Seq<char>,
    invoke_index: u64,
    session_index: Option<u64>,
)
    ensures
        0 <= first_rule(rules, line, invoke_index, session_index) <= rules.len(),
        forall|j: int|
            0 <= j < first_rule(rules, line, invoke_index, session_index) ==> !rule_applies(
                #[trigger] rules[j],
                line,
                invoke_index,
                session_index,
            ),
        first_rule(rules, line, invoke_index, session_index) < rules.len() ==> rule_applies(
            rules[first_rule(rules, line, invoke_index, session_index)],
            line,
            invoke_index,
            session_index,
        ),
    decreases rules.len(),
{
    if rules.len() > 0 && !rule_applies(rules[0], line, invoke_index, session_index) {
        let rest = rules.drop_first();
        lemma_first_rule_means(rest, line, invoke_index, session_index);
        assert forall|j: int|
            0 <= j < first_rule(rules, line, invoke_index, session_index) implies !rule_applies(
            #[trigger] rules[j],
            line,
            invoke_index,
            session_index,
        ) by {
            if j > 0 {
                assert(rest[j - 1] == rules[j]);
            }
        }
    }
}

/// What a line asks for is decided by the kinds of request in order: to register, to
/// invoke, to shut down.
pub proof fn law_line_asks_for_the_first_kind(line: Seq<char>)
    ensures
        kind_of_line(line) == LineKind::Blank <==> is_blank(line),
        kind_of_line(line) == LineKind::Register <==> !is_blank(line) && occurs_in(
            line,
            "\"type\":\"register\""@,
        ),
        kind_of_line(line) == LineKind::Invoke <==> !is_blank(line) && !occurs_in(
            line,
            "\"type\":\"register\""@,
        ) && occurs_in(line, "\"type\":\"invoke\""@),
        kind_of_line(line) == LineKind::Shutdown <==> !is_blank(line) && !occurs_in(
            line,
            "\"type\":\"register\""@,
        ) && !occurs_in(line, "\"type\":\"invoke\""@) && occurs_in(
            line,
            "\"type\":\"shutdown\""@,
        ),
{
}

/// A rule applies exactly where each of its conditions is met: the line holds its
/// text, and it is the invocation and the session that it names.
pub proof fn law_rule_applies_where_its_conditions_are_met(
    rule: InvokeRule,
    line: Seq<char>,
    invoke_index: u64,
    session_index: Option<u64>,
)
    ensures
        rule_applies(rule, line, invoke_index, session_index) <==> {
            &&& rule.when_contains matches Some(part) ==> exists|before: Seq<char>, behind: Seq<char>|
                line == #[trigger] (before + part@ + behind)
            &&& rule.when_invoke_index matches Some(wanted) ==> invoke_index == wanted
            &&& rule.when_session_index matches Some(wanted) ==> session_index == Some(wanted)
        },
{
    if let Some(part) = rule.when_contains {
        if occurs_in(line, part@) {
            let at = choose|at: int| occurs_at(line, part@, at);
            assert(line =~= line.take(at) + part@ + line.skip(at + part@.len()));
        }
        if exists|before: Seq<char>, behind: Seq<char>|
            line == #[trigger] (before + part@ + behind) {
            let (before, behind) = choose|before: Seq<char>, behind: Seq<char>|
                line == #[trigger] (before + part@ + behind);
            let at = before.len() as int;
            assert(line.subrange(at, at + part@.len()) =~= part@);
            assert(occurs_at(line, part@, before.len() as int));
        }
    }
}

/// An invocation creates the file that it names; where that is there, the other one, if
/// there is another one.
pub proof fn law_other_file_is_touched_the_second_time(effect: InvokeEffect, touch_exists: bool)
    ensures
        touched(effect, touch_exists) is Some ==> effect.touch is Some,
        effect.touch is Some && !touch_exists ==> touched(effect, touch_exists) == Some(
            effect.touch->0@,
        ),
        effect.touch is Some && touch_exists && effect.touch_else is Some ==> touched(
            effect,
            touch_exists,
        ) == Some(effect.touch_else->0@),
        effect.touch is Some && touch_exists && effect.touch_else is None ==> touched(
            effect,
            touch_exists,
        ) is None,
{
}

/// An invocation is answered as its template says: with its error, its surface, its
/// output or its failure; an empty template is filled with the count or the marker, if
/// there is one.
pub proof fn law_answer_is_that_of_the_template(
    effect: InvokeEffect,
    counted: u64,
    answer: EffectAnswer,
)
    requires
        answers_effect(effect, counted, answer),
    ensures
        effect.response matches ResponseTemplate::Error { error } ==> answer
            matches EffectAnswer::Respond {
            response: HostResponse::Error { error: message },
            mark_session,
        } && message@ == error@ && !mark_session,
        effect.response matches ResponseTemplate::RegistrationSurface { registration } ==> answer
            matches EffectAnswer::Respond {
            response: HostResponse::Registration { registration: surface },
            mark_session,
        } && surface@ == registration@ && mark_session,
        effect.response matches ResponseTemplate::Output { output } ==> answer
            matches EffectAnswer::Decode { output: value } && value@ == output@,
        effect.response is Failure <==> answer is Fail,
        effect.response matches ResponseTemplate::Failure { failure: FailResponse::Exit { code } }
            ==> answer matches EffectAnswer::Fail { step: FailStep::Exit { code: exited } }
            && exited == code,
        effect.response matches ResponseTemplate::Failure { failure: FailResponse::Sleep { ms } }
            ==> answer matches EffectAnswer::Fail {
            step: FailStep::SleepThenRespond { ms: slept, response },
        } && slept == ms && response is Error,
        effect.response matches ResponseTemplate::Failure {
            failure: FailResponse::InvalidJson { line },
        } ==> answer matches EffectAnswer::Fail { step: FailStep::WriteThenExit { line: written } }
            && written@ == line@,
        effect.response is EmptyOutput ==> (answer matches EffectAnswer::Respond {
            response: HostResponse::ActionOutput { output },
            mark_session,
        } && !mark_session && {
            &&& effect.count_event matches Some(template) ==> output@.len() == 1 && output@[0].kind
                == template.event_type@ && output@[0].subject is None && member(
                output@[0].data,
                template.field@,
            ) == Some(JsonView::Number(JsonNumber::Unsigned(counted)))
            &&& effect.count_event is None && effect.marker is Some ==> output@.len() == 1
                && output@[0].kind == "test.rendered"@ && output@[0].subject is None && member(
                output@[0].data,
                "marker"@,
            ) == Some(JsonView::Text(effect.marker->0@))
            &&& effect.count_event is None && effect.marker is None ==> output@.len() == 0
        }),
{
    let none = Seq::<(Seq<char>, JsonView)>::empty();
    if let Some(template) = effect.count_event {
        law_lookup_after_insert(
            none,
            template.field@,
            JsonView::Number(JsonNumber::Unsigned(counted)),
            template.field@,
        );
    }
    if let Some(marker) = effect.marker {
        law_lookup_after_insert(none, "marker"@, JsonView::Text(marker@), "marker"@);
    }
}

/// Only what is counted counts: an answer that carries the count raises it by one, up
/// to the largest number, and any other leaves it.
pub proof fn law_only_counted_answers_count(effect: InvokeEffect, count: u64)
    ensures
        effect.response is EmptyOutput && effect.count_event is Some && count < u64::MAX
            ==> count_after(effect, count) == count + 1,
        !(effect.response is EmptyOutput && effect.count_event is Some) ==> count_after(
            effect,
            count,
        ) == count,
        one_more(u64::MAX) == u64::MAX,
        session_number(false) == 1,
        session_number(true) == 2,
{
}

/// The configuration is looked for at the path that is named, then beside the
/// executable, then beside what the executable stands for; no place twice.
pub proof fn law_configuration_is_looked_for_in_order(
    configured: Option<Seq<char>>,
    executable: Seq<char>,
    canonical: Option<Seq<char>>,
)
    ensures
        configured matches Some(path) ==> candidates_of(configured, executable, canonical)[0]
            == path && candidates_of(configured, executable, canonical)[1] == with_suffix(
            executable,
            "json"@,
        ),
        configured is None ==> candidates_of(configured, executable, canonical)[0] == with_suffix(
            executable,
            "json"@,
        ),
        canonical matches Some(path) ==> candidates_of(configured, executable, canonical).contains(
            with_suffix(path, "json"@),
        ),
        candidates_of(configured, executable, canonical).len() <= 3,
        canonical is None ==> candidates_of(configured, executable, canonical).len() == (
        if configured is Some {
            2nat
        } else {
            1nat
        }),
{
    let beside = with_suffix(executable, "json"@);
    let first = match configured {
        Some(path) => seq![path, beside],
        None => seq![beside],
    };
    if let Some(path) = canonical {
        let all = candidates_of(configured, executable, canonical);
        if !first.contains(with_suffix(path, "json"@)) {
            assert(all[all.len() - 1] == with_suffix(path, "json"@));
        }
    }
}

/// A failure goes as it is configured: it writes the line, or a line of the length that
/// is asked for, the usual one where none is, or bytes that are no text, or sleeps, or
/// exits with the code.
pub proof fn law_failure_goes_as_configured(failure: FailResponse, step: FailStep)
    requires
        fails_as(failure, step),
    ensures
        failure matches FailResponse::InvalidJson { line } ==> step
            matches FailStep::WriteThenExit { line: written } && written@ == line@,
        failure matches FailResponse::Oversized { bytes } ==> step
            matches FailStep::OversizedThenHang { bytes: written } && (bytes > 0 ==> written
            == bytes) && (bytes == 0 ==> written == 1_048_577),
        failure is NonUtf8 <==> step is NonUtf8ThenHang,
        failure matches FailResponse::Sleep { ms } ==> step
            matches FailStep::SleepThenRespond { ms: slept, response } && slept == ms
            && response is Error,
        failure matches FailResponse::Exit { code } ==> step matches FailStep::Exit { code: exited }
            && exited == code,
{
}

} // verus!
