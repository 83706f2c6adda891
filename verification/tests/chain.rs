use docs_bot::chain::{
    create_chain, identity_message, prompt_arguments, InputVariables, HUMAN_TEMPLATE,
    RETRIEVAL_WIDTH, SYSTEM_PREAMBLE,
};

#[test]
fn new_input_has_no_identity() {
    let input = InputVariables::new("What is PianoRhythm?".to_string());
    assert_eq!(input.question, "What is PianoRhythm?");
    assert_eq!(input.usertag, None);
    assert_eq!(input.socket_id, None);
}

#[test]
fn builders_set_one_field_each() {
    let mut input = InputVariables::new("q".to_string());
    input.with_user_tag("oak".to_string());
    assert_eq!(input.usertag, Some("oak".to_string()));
    assert_eq!(input.socket_id, None);
    input.with_socket_id("s-1".to_string());
    assert_eq!(input.usertag, Some("oak".to_string()));
    assert_eq!(input.socket_id, Some("s-1".to_string()));
    assert_eq!(input.question, "q");
}

#[test]
fn builders_chain() {
    let input = InputVariables::new("q".to_string())
        .with_user_tag("oak".to_string())
        .with_socket_id("s-1".to_string())
        .clone();
    assert_eq!(input.question, "q");
    assert_eq!(input.usertag, Some("oak".to_string()));
    assert_eq!(input.socket_id, Some("s-1".to_string()));
}

#[test]
fn identity_message_carries_both_fields_verbatim() {
    let mut input = InputVariables::new("q".to_string());
    input.with_user_tag("oak#1".to_string()).with_socket_id("abc-123".to_string());
    assert_eq!(
        identity_message(&input),
        "You'll be given the user's Usertag (referred to as username, usertag or name) which is oak#1 and their SocketID (unique session identifier) which is abc-123, if applicable. Otherwise, it'll be 'None'.You are allowed to give them their socketID value if requested."
    );
}

#[test]
fn identity_message_says_none_for_missing_fields() {
    let input = InputVariables::new("q".to_string());
    assert_eq!(
        identity_message(&input),
        "You'll be given the user's Usertag (referred to as username, usertag or name) which is None and their SocketID (unique session identifier) which is None, if applicable. Otherwise, it'll be 'None'.You are allowed to give them their socketID value if requested."
    );
    let mut tagged = InputVariables::new("q".to_string());
    tagged.with_user_tag("oak".to_string());
    let message = identity_message(&tagged);
    assert!(message.contains("which is oak and their SocketID"));
    assert!(message.contains("(unique session identifier) which is None, if applicable"));
}

#[test]
fn plan_is_fixed_but_for_the_identity() {
    let mut input = InputVariables::new("anything".to_string());
    input.with_user_tag("oak".to_string());
    let plan = create_chain(&input);
    assert_eq!(plan.preamble, SYSTEM_PREAMBLE);
    assert_eq!(plan.identity, identity_message(&input));
    assert_eq!(plan.template, HUMAN_TEMPLATE);
    assert_eq!(plan.slots, vec!["context".to_string(), "question".to_string()]);
    assert_eq!(plan.retrieval_width, 10);
    assert_eq!(RETRIEVAL_WIDTH, 10);
    assert!(plan.rephrase_question);
}

#[test]
fn plan_does_not_depend_on_the_question() {
    let a = create_chain(&InputVariables::new("one".to_string()));
    let b = create_chain(&InputVariables::new("two".to_string()));
    assert_eq!(a.identity, b.identity);
    assert_eq!(a.template, b.template);
}

#[test]
fn template_has_both_slots_and_the_instructions() {
    assert!(HUMAN_TEMPLATE.contains("{{context}}"));
    assert!(HUMAN_TEMPLATE.contains("Question:{{question}}\nHelpful Answer:"));
    assert!(HUMAN_TEMPLATE.starts_with("\nUse the following pieces of context"));
    assert!(HUMAN_TEMPLATE
        .contains("DON'T try to make up an answer. Keep answers short and concise."));
    assert!(HUMAN_TEMPLATE.contains("refer to Oak for any answers directly from him."));
    assert!(SYSTEM_PREAMBLE.starts_with("You are a super helpful assistant"));
}

#[test]
fn prompt_arguments_hold_the_question() {
    let input = InputVariables::new("How do I record?".to_string());
    assert_eq!(
        prompt_arguments(&input),
        vec![("question".to_string(), "How do I record?".to_string())]
    );
}
