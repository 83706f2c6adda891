//! What goes into a conversational retrieval chain for one request: the
//! messages that open the prompt, the template of the human turn, and the
//! retrieval settings.

use vstd::prelude::*;
use vstd::string::StringExecFns;

verus! {

/// The persona that opens every prompt.
pub const SYSTEM_PREAMBLE: &'static str =
    "You are a super helpful assistant for a piano based web application called PianoRhythm, developed by someone named Oak. You'll be talking to users of the application.";

/// The identity message up to the user tag.
pub const IDENTITY_HEAD: &'static str =
    "You'll be given the user's Usertag (referred to as username, usertag or name) which is ";

/// The identity message between the user tag and the session identifier.
pub const IDENTITY_MIDDLE: &'static str = " and their SocketID (unique session identifier) which is ";

/// The identity message after the session identifier.
pub const IDENTITY_TAIL: &'static str =
    ", if applicable. Otherwise, it'll be 'None'.You are allowed to give them their socketID value if requested.";

/// What stands in the identity message for a field that the request left out.
pub const ABSENT: &'static str = "None";

/// The template of the human turn, with the slots `context` and `question`.
pub const HUMAN_TEMPLATE: &'static str =
    "\nUse the following pieces of context to answer the question at the end. The questions or statements are being given by users of PianoRhythm.\nIf you don't know the answer, just say that you don't know (in a nice way), DON'T try to make up an answer. Keep answers short and concise.\nAssume everything asked is within the context of PianoRhythm.\nAny first person references in the context means that it was the developer, Oak, making them. So, refer to Oak for any answers directly from him.\n\n{{context}}\n\nQuestion:{{question}}\nHelpful Answer:\n\n        ";

/// The slot of the template that takes the retrieved passages.
pub const CONTEXT_SLOT: &'static str = "context";

/// The slot of the template, and the prompt argument, that takes the question.
pub const QUESTION_SLOT: &'static str = "question";

/// How many passages the retriever fetches for a question.
pub const RETRIEVAL_WIDTH: usize = 10;

/// The identity of one request: the question and who asks it.
#[derive(Clone, Debug)]
pub struct InputVariables {
    pub question: String,
    pub usertag: Option<String>,
    pub socket_id: Option<String>,
}

/// The mathematical content of [`InputVariables`].
pub ghost struct InputVariablesView {
    pub question: Seq<char>,
    pub usertag: Option<Seq<char>>,
    pub socket_id: Option<Seq<char>>,
}

impl View for InputVariables {
    type V = InputVariablesView;

    open spec fn view(&self) -> InputVariablesView {
        InputVariablesView {
            question: self.question@,
            usertag: self.usertag.deep_view(),
            socket_id: self.socket_id.deep_view(),
        }
    }
}

impl InputVariables {
    /// A request that carries the question and no identity.
    pub fn new(question: String) -> (r: Self)
        ensures
            r@ == (InputVariablesView { question: question@, usertag: None, socket_id: None }),
    {
        Self { question, usertag: None, socket_id: None }
    }

    /// Sets the user tag and leaves the rest as it is.
    pub fn with_user_tag(&mut self, usertag: String) -> (r: &mut Self)
        ensures
            r@ == (InputVariablesView { usertag: Some(usertag@), ..old(self)@ }),
            *final(self) == *final(r),
    {
        self.usertag = Some(usertag);
        self
    }

    /// Sets the session identifier and leaves the rest as it is.
    pub fn with_socket_id(&mut self, socket_id: String) -> (r: &mut Self)
        ensures
            r@ == (InputVariablesView { socket_id: Some(socket_id@), ..old(self)@ }),
            *final(self) == *final(r),
    {
        self.socket_id = Some(socket_id);
        self
    }
}

/// A field of the identity as the identity message shows it.
pub open spec fn shown(field: Option<Seq<char>>) -> Seq<char> {
    match field {
        Some(text) => text,
        None => ABSENT@,
    }
}

/// The message that tells the model who is asking: the user tag and the
/// session identifier verbatim, `None` for one that is missing.
pub open spec fn identity_text(usertag: Option<Seq<char>>, socket_id: Option<Seq<char>>) -> Seq<
    char,
> {
    IDENTITY_HEAD@ + shown(usertag) + IDENTITY_MIDDLE@ + shown(socket_id) + IDENTITY_TAIL@
}

/// Writes the identity message for a request.
pub fn identity_message(input: &InputVariables) -> (r: String)
    ensures
        r@ == identity_text(input@.usertag, input@.socket_id),
{
    let mut r = String::from_str(IDENTITY_HEAD);
    match &input.usertag {
        Some(usertag) => r.append(usertag.as_str()),
        None => r.append(ABSENT),
    }
    r.append(IDENTITY_MIDDLE);
    match &input.socket_id {
        Some(socket_id) => r.append(socket_id.as_str()),
        None => r.append(ABSENT),
    }
    r.append(IDENTITY_TAIL);
    r
}

/// Everything a conversational retrieval chain is built from, but for the
/// handles of the model and the store.
#[derive(Clone, Debug)]
pub struct ChainPlan {
    /// The system message that sets the persona.
    pub preamble: String,
    /// The system message that carries the request's identity.
    pub identity: String,
    /// The template of the human turn.
    pub template: String,
    /// The names of the template's slots.
    pub slots: Vec<String>,
    /// How many passages to retrieve.
    pub retrieval_width: usize,
    /// Whether the question is rephrased with the conversation so far
    /// before retrieval.
    pub rephrase_question: bool,
}

/// Plans the chain for one request: the fixed persona, the identity of the
/// request, the fixed template with its two slots, ten passages per
/// question, and rephrasing switched on. Nothing in it depends on the
/// question.
pub fn create_chain(input: &InputVariables) -> (plan: ChainPlan)
    ensures
        plan.preamble@ == SYSTEM_PREAMBLE@,
        plan.identity@ == identity_text(input@.usertag, input@.socket_id),
        plan.template@ == HUMAN_TEMPLATE@,
        plan.slots.deep_view() == seq![CONTEXT_SLOT@, QUESTION_SLOT@],
        plan.retrieval_width == RETRIEVAL_WIDTH,
        plan.rephrase_question,
{
    let mut slots: Vec<String> = Vec::new();
    slots.push(String::from_str(CONTEXT_SLOT));
    slots.push(String::from_str(QUESTION_SLOT));
    assert(slots.deep_view() =~= seq![CONTEXT_SLOT@, QUESTION_SLOT@]);
    ChainPlan {
        preamble: String::from_str(SYSTEM_PREAMBLE),
        identity: identity_message(input),
        template: String::from_str(HUMAN_TEMPLATE),
        slots,
        retrieval_width: RETRIEVAL_WIDTH,
        rephrase_question: true,
    }
}

/// The arguments a chain is invoked with: the question, under the name of
/// its slot.
pub fn prompt_arguments(input: &InputVariables) -> (args: Vec<(String, String)>)
    ensures
        args@.len() == 1,
        args@[0].0@ == QUESTION_SLOT@,
        args@[0].1@ == input@.question,
{
    let mut args: Vec<(String, String)> = Vec::new();
    args.push((String::from_str(QUESTION_SLOT), input.question.clone()));
    args
}

} // verus!
