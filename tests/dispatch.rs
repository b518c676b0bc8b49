use dbm::dispatch::{command_name, first_word_of, select_code};
use dbm::errors::MakerErrorType;
use dbm::structures::{CodePiece, Command};

fn commands() -> Vec<Command> {
    vec![
        Command { id: 1, name: "ping".to_string(), bot_id: 1, code_id: 10 },
        Command { id: 2, name: "echo".to_string(), bot_id: 1, code_id: 99 },
    ]
}

fn pieces() -> Vec<CodePiece> {
    vec![
        CodePiece { id: 9, code: "1".to_string() },
        CodePiece { id: 10, code: "message.reply(\"pong\")".to_string() },
    ]
}

#[test]
fn command_name_is_lowercased_first_word() {
    let prefix = "!".to_string();
    assert_eq!(command_name(&"!PiNg now".to_string(), &prefix), Some("ping".to_string()));
    assert_eq!(command_name(&"ping".to_string(), &prefix), None);
    assert_eq!(command_name(&"!".to_string(), &prefix), Some(String::new()));
}

#[test]
fn first_word_skips_leading_spaces() {
    assert_eq!(first_word_of(&"  hello there".to_string()), "hello");
    assert_eq!(first_word_of(&"   ".to_string()), "");
}

#[test]
fn select_code_finds_the_piece() {
    let prefix = "!".to_string();
    assert_eq!(select_code(&"!PING".to_string(), &prefix, &commands(), &pieces()).unwrap(), Some(1));
    assert_eq!(select_code(&"!other".to_string(), &prefix, &commands(), &pieces()).unwrap(), None);
    assert_eq!(select_code(&"hello".to_string(), &prefix, &commands(), &pieces()).unwrap(), None);
    let e = select_code(&"!echo hi".to_string(), &prefix, &commands(), &pieces()).unwrap_err();
    assert_eq!(e.error_type, MakerErrorType::UnknownDatabase);
}
