use docs_bot::chain::create_chain;
use docs_bot::query::{
    answer, reply, AskQuestion, AskQuestionResponse, ChatRequest, RequestError, FALLBACK_ANSWER,
};

fn request(question: &str, usertag: Option<&str>, socket_id: Option<&str>) -> ChatRequest {
    ChatRequest {
        usertag: usertag.map(|s| s.to_string()),
        socket_id: socket_id.map(|s| s.to_string()),
        question: question.to_string(),
    }
}

#[test]
fn empty_question_is_rejected() {
    let rejected = AskQuestion::from_request(request("", Some("oak"), Some("s-1")));
    assert_eq!(rejected.err(), Some(RequestError::NoQuestion));
    assert_eq!(RequestError::NoQuestion.message(), "No question provided");
}

#[test]
fn blank_question_is_not_empty() {
    assert!(AskQuestion::from_request(request(" ", None, None)).is_ok());
}

#[test]
fn question_is_passed_on_with_its_identity() {
    let ask = AskQuestion::from_request(request("Why?", Some("oak"), Some("s-1"))).unwrap();
    assert_eq!(ask.question, "Why?");
    assert_eq!(ask.usertag, Some("oak".to_string()));
    assert_eq!(ask.socket_id, Some("s-1".to_string()));
}

#[test]
fn missing_identity_stays_missing() {
    let ask = AskQuestion::from_request(request("Why?", None, None)).unwrap();
    assert_eq!(ask.usertag, None);
    assert_eq!(ask.socket_id, None);
    let ask = AskQuestion::from_request(request("Why?", Some(""), None)).unwrap();
    assert_eq!(ask.usertag, Some(String::new()));
    assert_eq!(ask.socket_id, None);
}

#[test]
fn input_carries_all_three_fields() {
    let ask = AskQuestion::from_request(request("Why?", Some("oak"), Some("s-1"))).unwrap();
    let input = ask.input();
    assert_eq!(input.question, "Why?");
    assert_eq!(input.usertag, Some("oak".to_string()));
    assert_eq!(input.socket_id, Some("s-1".to_string()));
}

#[test]
fn input_leaves_out_what_the_request_left_out() {
    let ask = AskQuestion::from_request(request("Why?", Some("oak"), None)).unwrap();
    let input = ask.input();
    assert_eq!(input.question, "Why?");
    assert_eq!(input.usertag, Some("oak".to_string()));
    assert_eq!(input.socket_id, None);
    let input = AskQuestion::from_request(request("Why?", None, Some("s-1"))).unwrap().input();
    assert_eq!(input.usertag, None);
    assert_eq!(input.socket_id, Some("s-1".to_string()));
}

#[test]
fn request_without_identity_shows_none_in_the_identity_message() {
    let input = AskQuestion::from_request(request("Why?", None, None)).unwrap().input();
    assert_eq!(input.usertag, None);
    assert_eq!(input.socket_id, None);
    let plan = create_chain(&input);
    assert_eq!(
        plan.identity,
        "You'll be given the user's Usertag (referred to as username, usertag or name) which is None and their SocketID (unique session identifier) which is None, if applicable. Otherwise, it'll be 'None'.You are allowed to give them their socketID value if requested."
    );
    assert!(!plan.identity.contains("unknown"));
}

#[test]
fn request_with_identity_shows_it_in_the_identity_message() {
    let input = AskQuestion::from_request(request("Why?", Some("oak"), Some("s-1")))
        .unwrap()
        .input();
    let plan = create_chain(&input);
    assert!(plan.identity.contains("which is oak and their SocketID"));
    assert!(plan.identity.contains("(unique session identifier) which is s-1, if applicable"));
}

#[test]
fn generated_text_is_the_answer() {
    let outcome: Result<String, String> = Ok("It is a piano app.".to_string());
    assert_eq!(answer(outcome).response, "It is a piano app.");
    let empty: Result<String, ()> = Ok(String::new());
    assert_eq!(answer(empty).response, "");
}

#[test]
fn failure_gives_the_fallback_exactly() {
    let failed: Result<String, String> = Err("quota exceeded".to_string());
    assert_eq!(answer(failed).response, "Sorry, something went wrong. Try again later.");
    assert_eq!(FALLBACK_ANSWER, "Sorry, something went wrong. Try again later.");
}

#[test]
fn every_kind_of_failure_gives_the_same_fallback() {
    let network: Result<String, std::fmt::Error> = Err(std::fmt::Error);
    let code: Result<String, u16> = Err(503);
    let unit: Result<String, ()> = Err(());
    assert_eq!(answer(network).response, FALLBACK_ANSWER);
    assert_eq!(answer(code).response, FALLBACK_ANSWER);
    assert_eq!(answer(unit).response, FALLBACK_ANSWER);
}

#[test]
fn reply_is_the_answer_or_a_fixed_text() {
    let delivered = Some(AskQuestionResponse { response: "Yes.".to_string() });
    assert_eq!(reply(delivered), "Yes.");
    assert_eq!(reply(None), "Failed to get a response.");
}
