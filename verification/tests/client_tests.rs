use distributed_doc_system::client::{is_from_other, parse_command, split_words, ClientAction};
use distributed_doc_system::node::DocMessage;

fn me() -> String {
    "Client_Anonyme".to_string()
}

#[test]
fn create_command_publishes_a_creation() {
    match parse_command(&me(), "create doc42 \"bonjour  le monde\"\n") {
        ClientAction::Publish { message: DocMessage::Create { client_id, doc_id, content } } => {
            assert_eq!(client_id, "Client_Anonyme");
            assert_eq!(doc_id, "doc42");
            assert_eq!(content, "bonjour le monde");
        }
        other => panic!("{:?}", other),
    }
}

#[test]
fn update_command_publishes_a_write() {
    match parse_command(&me(), "  update 1.1 1.2 \"new \"text\"\"  ") {
        ClientAction::Publish { message: DocMessage::Update { client_id, old_version, new_version, content } } => {
            assert_eq!(client_id, "Client_Anonyme");
            assert_eq!(old_version, "1.1");
            assert_eq!(new_version, "1.2");
            assert_eq!(content, "new text");
        }
        other => panic!("{:?}", other),
    }
}

#[test]
fn blank_line_does_nothing() {
    assert!(matches!(parse_command(&me(), "   \t\n"), ClientAction::Nothing));
    assert!(matches!(parse_command(&me(), ""), ClientAction::Nothing));
}

#[test]
fn other_lines_are_not_commands() {
    assert!(matches!(parse_command(&me(), "create only"), ClientAction::Unrecognized));
    assert!(matches!(parse_command(&me(), "update a b"), ClientAction::Unrecognized));
    assert!(matches!(parse_command(&me(), "delete a b c"), ClientAction::Unrecognized));
    assert!(matches!(parse_command(&me(), "CREATE a b"), ClientAction::Unrecognized));
}

#[test]
fn words_follow_split_whitespace() {
    for line in ["a  b\tc\n", "  x", "", "é\u{3000}ü\u{a0}z", "one"] {
        let expected: Vec<String> = line.split_whitespace().map(|s| s.to_string()).collect();
        assert_eq!(split_words(line), expected);
    }
}

#[test]
fn only_messages_of_others_are_shown() {
    let other = DocMessage::Create { client_id: "B".to_string(), doc_id: "1".to_string(), content: String::new() };
    let mine = DocMessage::Update {
        client_id: "A".to_string(),
        old_version: "1".to_string(),
        new_version: "1.1".to_string(),
        content: String::new(),
    };
    let notify = DocMessage::Notify { doc_id: "1".to_string(), content: String::new() };
    assert!(is_from_other(&"A".to_string(), &other));
    assert!(!is_from_other(&"A".to_string(), &mine));
    assert!(!is_from_other(&"A".to_string(), &notify));
}
