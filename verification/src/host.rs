//! The extension side of the stdio protocol: what a host answers.
use vstd::prelude::*;

use crate::context::{ActionContext, ActionInvocation, ActionOutput};
use crate::registration::ExtensionRegistration;
use crate::text::{is_blank, same_text, text_is_blank, views};

verus! {

/// JSONL request accepted by a stdio extension host.
#[derive(Debug, PartialEq, Eq)]
pub enum HostRequest {
    /// Return this extension's registered surface.
    Register,
    /// Invoke one installed action.
    Invoke {
        /// Action invocation supplied by spindle.
        invocation: ActionInvocation,
    },
    /// Ask the extension host to terminate cleanly.
    Shutdown,
}

/// JSONL response returned by a stdio extension host.
#[derive(Debug, PartialEq, Eq)]
pub enum HostResponse {
    /// Extension surface registration.
    Registration {
        /// Registered surface.
        registration: ExtensionRegistration,
    },
    /// Output from one action invocation.
    ActionOutput {
        /// Structured action output.
        output: ActionOutput,
    },
    /// Host-side action or registration failure.
    Error {
        /// Human-readable error message.
        error: String,
    },
    /// Clean shutdown acknowledgement.
    Shutdown,
}

/// Error returned by the spindle extension host contract.
#[derive(Debug, PartialEq, Eq)]
pub enum ExtensionSdkError {
    /// Contract JSON failed to parse.
    Json {
        /// JSON value or type name.
        name: &'static str,
        /// What the parser says.
        message: String,
    },
    /// Stdio host I/O failed.
    Io {
        /// What the system says.
        message: String,
    },
}

/// Why an action could not be answered with output.
#[derive(Debug, PartialEq, Eq)]
pub enum ActionRouterError {
    /// The invocation names no action.
    MissingAction,
    /// There is no handler for the action.
    UnknownAction,
    /// The handler failed.
    Handler {
        /// What the handler says.
        message: String,
    },
}

/// The message of a host error.
pub open spec fn sdk_error_message(error: ExtensionSdkError) -> Seq<char> {
    match error {
        ExtensionSdkError::Json { name, message } => "failed to parse "@ + name@ + ": "@ + message@,
        ExtensionSdkError::Io { message } => "stdio host I/O failed: "@ + message@,
    }
}

/// The message of a routing error.
pub open spec fn router_error_message(error: ActionRouterError) -> Seq<char> {
    match error {
        ActionRouterError::MissingAction => "missing action"@,
        ActionRouterError::UnknownAction => "unknown action"@,
        ActionRouterError::Handler { message } => message@,
    }
}

impl ExtensionSdkError {
    /// The error as a message.
    pub fn message(&self) -> (text: String)
        ensures
            text@ == sdk_error_message(*self),
    {
        match self {
            ExtensionSdkError::Json { name, message } => {
                let mut text: String = "failed to parse ".to_owned();
                text.append(name);
                text.append(": ");
                text.append(message.as_str());
                text
            },
            ExtensionSdkError::Io { message } => {
                let mut text: String = "stdio host I/O failed: ".to_owned();
                text.append(message.as_str());
                text
            },
        }
    }
}

impl ActionRouterError {
    /// The error as a message.
    pub fn message(&self) -> (text: String)
        ensures
            text@ == router_error_message(*self),
    {
        match self {
            ActionRouterError::MissingAction => "missing action".to_owned(),
            ActionRouterError::UnknownAction => "unknown action".to_owned(),
            ActionRouterError::Handler { message } => message.clone(),
        }
    }
}

/// What a host meets while it serves.
#[derive(Debug, PartialEq, Eq)]
pub enum HostInput {
    /// The input ended.
    End,
    /// A line without a request.
    Blank,
    /// A line that is not a request.
    Malformed {
        /// What the parser says.
        message: String,
    },
    /// A request.
    Request {
        /// The request.
        request: HostRequest,
    },
    /// The handler was called, and this came of it.
    Handled {
        /// Its output, or the message of its error.
        outcome: Result<ActionOutput, String>,
    },
}

/// What a host does next.
#[derive(Debug, PartialEq, Eq)]
pub enum HostStep {
    /// Read the next line.
    Read,
    /// Write a response, then read the next line unless it was the last.
    Respond {
        /// The response.
        response: HostResponse,
        /// Whether the host ends with it.
        last: bool,
    },
    /// Call the handler.
    Handle {
        /// What the handler is given.
        context: ActionContext,
    },
    /// End.
    Stop,
    /// End with an error.
    Fail {
        /// The error.
        error: ExtensionSdkError,
    },
}

/// Whether a line holds no request.
pub fn is_blank_line(line: &str) -> (blank: bool)
    ensures
        blank == is_blank(line@),
{
    text_is_blank(line)
}

/// Whether a step answers an input as a host with a registration does.
pub open spec fn host_answers(
    registration: ExtensionRegistration,
    input: HostInput,
    step: HostStep,
) -> bool {
    match input {
        HostInput::End => step == HostStep::Stop,
        HostInput::Blank => step == HostStep::Read,
        HostInput::Malformed { message } => step == (HostStep::Fail {
            error: ExtensionSdkError::Json { name: "HostRequest", message },
        }),
        HostInput::Request { request: HostRequest::Register } => {
            &&& step matches HostStep::Respond { response, last }
            &&& !last
            &&& response matches HostResponse::Registration { registration: given }
            &&& given@ == registration@
        },
        HostInput::Request { request: HostRequest::Invoke { invocation } } => step == (
        HostStep::Handle {
            context: ActionContext {
                action: Some(invocation.action),
                args: invocation.args,
                event: invocation.event,
                extension: invocation.extension,
                continuation: invocation.continuation,
            },
        }),
        HostInput::Request { request: HostRequest::Shutdown } => step == (HostStep::Respond {
            response: HostResponse::Shutdown,
            last: true,
        }),
        HostInput::Handled { outcome: Ok(output) } => step == (HostStep::Respond {
            response: HostResponse::ActionOutput { output },
            last: false,
        }),
        HostInput::Handled { outcome: Err(error) } => step == (HostStep::Respond {
            response: HostResponse::Error { error },
            last: false,
        }),
    }
}

/// What a host does next.
pub fn serve_stdio_jsonl(registration: &ExtensionRegistration, input: HostInput) -> (step: HostStep)
    ensures
        host_answers(*registration, input, step),
{
    match input {
        HostInput::End => HostStep::Stop,
        HostInput::Blank => HostStep::Read,
        HostInput::Malformed { message } => HostStep::Fail {
            error: ExtensionSdkError::Json { name: "HostRequest", message },
        },
        HostInput::Request { request } => match request {
            HostRequest::Register => HostStep::Respond {
                response: HostResponse::Registration { registration: registration.clone() },
                last: false,
            },
            HostRequest::Invoke { invocation } => HostStep::Handle {
                context: ActionContext::from_invocation(invocation),
            },
            HostRequest::Shutdown => HostStep::Respond {
                response: HostResponse::Shutdown,
                last: true,
            },
        },
        HostInput::Handled { outcome } => match outcome {
            Ok(output) => HostStep::Respond {
                response: HostResponse::ActionOutput { output },
                last: false,
            },
            Err(error) => HostStep::Respond { response: HostResponse::Error { error }, last: false },
        },
    }
}

/// The position of the first text that is equal to a text, or their number.
pub open spec fn first_named(names: Seq<Seq<char>>, name: Seq<char>) -> int
    decreases names.len(),
{
    if names.len() == 0 || names[0] == name {
        0
    } else {
        1 + first_named(names.drop_first(), name)
    }
}

proof fn lemma_first_named(names: Seq<Seq<char>>, name: Seq<char>, at: int)
    requires
        0 <= at <= names.len(),
        forall|j: int| 0 <= j < at ==> #[trigger] names[j] != name,
        at < names.len() ==> names[at] == name,
    ensures
        first_named(names, name) == at,
    decreases at,
{
    if at > 0 {
        assert(names[0] != name);
        let rest = names.drop_first();
        assert forall|j: int| 0 <= j < at - 1 implies #[trigger] rest[j] != name by {
            assert(rest[j] == names[j + 1]);
        }
        lemma_first_named(rest, name, at - 1);
    }
}

/// Which of the named handlers an action goes to: the first one with its name.
pub fn route_action(names: &[String], context: &ActionContext) -> (result: Result<
    usize,
    ActionRouterError,
>)
    ensures
        match context.action {
            None => result == Err::<usize, ActionRouterError>(ActionRouterError::MissingAction),
            Some(action) => {
                let at = first_named(views(names@), action@);
                if at < names@.len() {
                    result is Ok && result->Ok_0 == at
                } else {
                    result == Err::<usize, ActionRouterError>(ActionRouterError::UnknownAction)
                }
            },
        },
{
    let action: &str = match &context.action {
        None => {
            return Err(ActionRouterError::MissingAction);
        },
        Some(action) => action.as_str(),
    };
    let ghost all = views(names@);
    let mut i: usize = 0;
    while i < names.len()
        invariant
            i <= names@.len(),
            all == views(names@),
            context.action is Some,
            action@ == context.action->0@,
            forall|j: int| 0 <= j < i ==> #[trigger] all[j] != action@,
        decreases names@.len() - i,
    {
        assert(all[i as int] == names@[i as int]@);
        if same_text(names[i].as_str(), action) {
            proof {
                lemma_first_named(all, action@, i as int);
            }
            return Ok(i);
        }
        i = i + 1;
    }
    proof {
        lemma_first_named(all, action@, i as int);
    }
    Err(ActionRouterError::UnknownAction)
}

/// A host hands an invocation to its handler whole: the action, its arguments, the
/// event, the visible surface and the handle.
pub proof fn law_handler_gets_the_invocation(
    registration: ExtensionRegistration,
    invocation: ActionInvocation,
    step: HostStep,
)
    requires
        host_answers(
            registration,
            HostInput::Request { request: HostRequest::Invoke { invocation } },
            step,
        ),
    ensures
        step matches HostStep::Handle { context } && {
            &&& context.action is Some
            &&& context.action->0@ == invocation.action@
            &&& context.args@ == invocation.args@
            &&& context.event == invocation.event
            &&& context.extension == invocation.extension
            &&& context.continuation == invocation.continuation
        },
{
}

/// A host answers a request for its surface with its surface, and what came of an
/// invocation with just that; then it goes on. It ends with the end of its input, with
/// the answer to a shutdown, and with an error on what is no request.
pub proof fn law_host_answers_what_it_was_asked(
    registration: ExtensionRegistration,
    input: HostInput,
    step: HostStep,
)
    requires
        host_answers(registration, input, step),
    ensures
        input matches HostInput::Request { request: HostRequest::Register } ==> step
            matches HostStep::Respond {
            response: HostResponse::Registration { registration: given },
            last,
        } && given@ == registration@ && !last,
        input matches HostInput::Handled { outcome: Ok(output) } ==> step
            matches HostStep::Respond { response: HostResponse::ActionOutput { output: given }, last }
            && given@ == output@ && !last,
        input matches HostInput::Handled { outcome: Err(error) } ==> step
            matches HostStep::Respond { response: HostResponse::Error { error: given }, last }
            && given@ == error@ && !last,
        input is End <==> step is Stop,
        input is Blank <==> step is Read,
        input is Malformed <==> step is Fail,
        (step matches HostStep::Respond { response, last } && last) <==> (input
            matches HostInput::Request { request } && request is Shutdown),
        input matches HostInput::Request { request: HostRequest::Shutdown } ==> step
            matches HostStep::Respond { response, last } && response is Shutdown,
{
}

/// An action goes to the first handler with its name.
pub proof fn law_first_handler_with_the_name(names: Seq<Seq<char>>, name: Seq<char>)
    ensures
        0 <= first_named(names, name) <= names.len(),
        first_named(names, name) < names.len() ==> names[first_named(names, name)] == name,
        forall|j: int| 0 <= j < first_named(names, name) ==> #[trigger] names[j] != name,
    decreases names.len(),
{
    if names.len() > 0 && names[0] != name {
        let rest = names.drop_first();
        law_first_handler_with_the_name(rest, name);
        assert forall|j: int| 0 <= j < first_named(names, name) implies #[trigger] names[j]
            != name by {
            if j > 0 {
                assert(rest[j - 1] == names[j]);
            }
        }
    }
}

} // verus!
