use room_server::choice::{choice_from_lowered, parse_choice, Choice};
use room_server::command::{command_from_fields, command_from_lowered, decode_command, Command};
use room_server::room::GameError;
use room_server::shutdown::stop_server;

#[test]
fn choice_ignores_case() {
    assert_eq!(parse_choice("ROCK"), Some(Choice::Rock));
    assert_eq!(parse_choice("Paper"), Some(Choice::Paper));
    assert_eq!(parse_choice("sCiSsOrS"), Some(Choice::Scissors));
    assert_eq!(parse_choice("lizard"), None);
    assert_eq!(parse_choice(""), None);
}

#[test]
fn lowered_choice_is_exact() {
    assert_eq!(choice_from_lowered("rock"), Some(Choice::Rock));
    assert_eq!(choice_from_lowered("Rock"), None);
    assert_eq!(choice_from_lowered("rock "), None);
}

#[test]
fn tokens_are_canonical() {
    assert_eq!(Choice::Rock.token(), "rock");
    assert_eq!(Choice::Paper.token(), "paper");
    assert_eq!(Choice::Scissors.token(), "scissors");
}

#[test]
fn decode_start_commands() {
    assert_eq!(decode_command(r#"{"action":"start"}"#), Command::Start);
    assert_eq!(decode_command(r#"{"action":"START_GAME"}"#), Command::Start);
}

#[test]
fn decode_move_commands() {
    assert_eq!(decode_command(r#"{"action":"move","choice":"Scissors"}"#), Command::Move(Choice::Scissors));
    assert_eq!(decode_command(r#"{"action":"Move","choice":"rock"}"#), Command::Move(Choice::Rock));
    assert_eq!(decode_command(r#"{"action":"move","choice":"lizard"}"#), Command::InvalidChoice);
    assert_eq!(decode_command(r#"{"action":"move"}"#), Command::InvalidChoice);
    assert_eq!(decode_command(r#"{"action":"move","choice":3}"#), Command::InvalidChoice);
}

#[test]
fn decode_unknown_and_text() {
    assert_eq!(decode_command(r#"{"action":"dance"}"#), Command::Unknown);
    assert_eq!(decode_command(r#"{}"#), Command::Unknown);
    assert_eq!(decode_command("[1,2]"), Command::Unknown);
    assert_eq!(decode_command("hello room"), Command::Text);
    assert_eq!(decode_command("{not json"), Command::Text);
}

#[test]
fn fields_make_commands() {
    assert_eq!(command_from_fields(Some("START".to_string()), None), Command::Start);
    assert_eq!(command_from_fields(Some("move".to_string()), Some("PAPER".to_string())), Command::Move(Choice::Paper));
    assert_eq!(command_from_fields(None, Some("rock".to_string())), Command::Unknown);
    assert_eq!(command_from_lowered("start_game", ""), Command::Start);
    assert_eq!(command_from_lowered("move", "Rock"), Command::InvalidChoice);
}

#[test]
fn error_texts() {
    assert_eq!(GameError::AlreadyActive.message(), "Game already active");
    assert_eq!(GameError::NotEnoughPlayers.message(), "Need at least 2 players to start");
    assert_eq!(GameError::NotActive.message(), "Game not active");
    assert_eq!(GameError::NotAPlayer.message(), "You are not active in this round");
    assert_eq!(GameError::InvalidChoice.message(), "Invalid choice, use rock|paper|scissors");
}

#[test]
fn stop_without_server() {
    assert!(!stop_server(None));
}

#[test]
fn stop_with_server_signal() {
    let n = tokio::sync::Notify::new();
    assert!(stop_server(Some(&n)));
}
