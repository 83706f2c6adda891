//! Taking in a question and wording the reply, whatever became of the chain.

use crate::chain::{InputVariables, InputVariablesView};
use vstd::prelude::*;
use vstd::string::StringExecFns;

verus! {

/// The reply to a question that the chain could not answer.
pub const FALLBACK_ANSWER: &'static str = "Sorry, something went wrong. Try again later.";

/// The reply to a question whose answer never arrived.
pub const UNDELIVERED_ANSWER: &'static str = "Failed to get a response.";

/// The reply to a request without a question.
pub const NO_QUESTION: &'static str = "No question provided";

/// A request as it arrives.
#[derive(Clone, Debug)]
pub struct ChatRequest {
    pub usertag: Option<String>,
    pub socket_id: Option<String>,
    pub question: String,
}

/// Why a request was turned away.
#[derive(Clone, Copy, Debug, PartialEq, Eq, Structural)]
pub enum RequestError {
    /// The question is empty.
    NoQuestion,
}

impl RequestError {
    /// The text sent back with the rejection.
    pub fn message(&self) -> (r: &'static str)
        ensures
            r@ == NO_QUESTION@,
    {
        NO_QUESTION
    }
}

/// A question on its way to the chain, with what the request told of the
/// asker: the user tag and the session identifier, each only where the
/// request had it.
#[derive(Clone, Debug)]
pub struct AskQuestion {
    pub question: String,
    pub usertag: Option<String>,
    pub socket_id: Option<String>,
}

/// The answer handed back for a question.
#[derive(Clone, Debug)]
pub struct AskQuestionResponse {
    pub response: String,
}

impl AskQuestion {
    /// Takes in a request: one with an empty question is turned away, before
    /// any chain is built; any other is passed on as it is, a missing user
    /// tag or session identifier still missing.
    pub fn from_request(request: ChatRequest) -> (r: Result<AskQuestion, RequestError>)
        ensures
            r is Err <==> request.question@.len() == 0,
            r is Err ==> r->Err_0 == RequestError::NoQuestion,
            r is Ok ==> r->Ok_0.question@ == request.question@,
            r is Ok ==> r->Ok_0.usertag.deep_view() == request.usertag.deep_view(),
            r is Ok ==> r->Ok_0.socket_id.deep_view() == request.socket_id.deep_view(),
    {
        if request.question.as_str().is_empty() {
            return Err(RequestError::NoQuestion);
        }
        Ok(
            AskQuestion {
                question: request.question,
                usertag: request.usertag,
                socket_id: request.socket_id,
            },
        )
    }

    /// The identity that the chain is built for: the question, and the user
    /// tag and the session identifier where the request had them.
    pub fn input(self) -> (r: InputVariables)
        ensures
            r@ == (InputVariablesView {
                question: self.question@,
                usertag: self.usertag.deep_view(),
                socket_id: self.socket_id.deep_view(),
            }),
    {
        let mut input = InputVariables::new(self.question);
        match self.usertag {
            Some(usertag) => {
                input.with_user_tag(usertag);
            },
            None => {},
        }
        match self.socket_id {
            Some(socket_id) => {
                input.with_socket_id(socket_id);
            },
            None => {},
        }
        input
    }
}

/// Words the answer to a question from the outcome of the chain's run. A
/// failure never reaches the asker: whatever it was, the answer is the
/// fallback.
pub fn answer<E>(outcome: Result<String, E>) -> (r: AskQuestionResponse)
    ensures
        r.response@ == match outcome {
            Ok(text) => text@,
            Err(_) => FALLBACK_ANSWER@,
        },
{
    match outcome {
        Ok(text) => AskQuestionResponse { response: text },
        Err(_) => AskQuestionResponse { response: String::from_str(FALLBACK_ANSWER) },
    }
}

/// The body of the reply: the answer where one arrived, a fixed text where
/// none did.
pub fn reply(delivered: Option<AskQuestionResponse>) -> (r: String)
    ensures
        r@ == match delivered {
            Some(answer) => answer.response@,
            None => UNDELIVERED_ANSWER@,
        },
{
    match delivered {
        Some(answer) => answer.response,
        None => String::from_str(UNDELIVERED_ANSWER),
    }
}

} // verus!
