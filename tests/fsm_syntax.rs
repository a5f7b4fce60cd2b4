use fsm_lexer::char_class::name_char;
use fsm_lexer::fsm_syntax::{FsmSyntax, Header, StateSpec, SubTransitions, SyntaxError, Transition};

#[test]
fn new_description_is_empty_and_unfinished() {
    let syntax = FsmSyntax::new();
    assert!(syntax.headers.is_empty());
    assert!(syntax.logic.is_empty());
    assert!(syntax.errors.is_empty());
    assert!(!syntax.done);
}

#[test]
fn sub_transition_keeps_actions_in_order() {
    let sub = SubTransitions::new("coin", "Unlocked", vec!["unlock", "alarmOff", "thankyou"]);
    assert_eq!(sub.event(), "coin");
    assert_eq!(sub.next_state(), "Unlocked");
    assert_eq!(sub.actions(), &vec!["unlock", "alarmOff", "thankyou"]);
}

#[test]
fn description_holds_parts_in_declaration_order() {
    let mut syntax = FsmSyntax::new();
    syntax.headers.push(Header { name: "FSM", value: "turnstile" });
    syntax.headers.push(Header { name: "Initial", value: "Locked" });
    let state = StateSpec {
        name: "Locked",
        super_state: "",
        entry_action: "",
        exit_action: "",
        abstract_state: false,
    };
    syntax.logic.push(Transition {
        state,
        sub_transitions: vec![
            SubTransitions::new("coin", "Unlocked", vec!["unlock"]),
            SubTransitions::new("pass", "Locked", vec!["alarm"]),
        ],
    });
    syntax.errors.push(SyntaxError { error_type: "HEADER", message: "missing Actions" });
    syntax.done = true;
    assert_eq!(syntax.headers[1].value, "Locked");
    assert_eq!(syntax.logic[0].sub_transitions[1].event(), "pass");
    assert_eq!(syntax.errors.len(), 1);
    assert!(syntax.done);
}

#[test]
fn name_characters() {
    assert!(name_char('a'));
    assert!(name_char('Z'));
    assert!(name_char('7'));
    assert!(name_char('_'));
    assert!(name_char('é'));
    assert!(!name_char('-'));
    assert!(!name_char(' '));
    assert!(!name_char('%'));
}
