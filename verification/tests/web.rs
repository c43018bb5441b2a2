use terminal_rpg::game::{ExplorationGame, RunSeed, RunStatus};
use terminal_rpg::protocol::{check_client_command, check_client_message, ClientCommand, MAX_INPUT_BYTES};
use terminal_rpg::session::InputDecoder;
use terminal_rpg::ui::capped_area;
use terminal_rpg::web::{refuse, web_session_step, ProtocolError, SessionAction};

fn greeted_session() -> (ExplorationGame, InputDecoder, (u16, u16)) {
    let mut game = ExplorationGame::new(Some(RunSeed(0x0DEC_0DED))).unwrap();
    let mut decoder = InputDecoder::default();
    let mut area = (1u16, 1u16);
    let actions = web_session_step(&mut game, &mut decoder, &mut area, false, ClientCommand::Hello { v: 1, cols: 80, rows: 24 });
    assert_eq!(actions, vec![SessionAction::Ready { seed: 0x0DEC_0DED }, SessionAction::Draw]);
    (game, decoder, area)
}

#[test]
fn protocol_validates_versions_shapes_sizes_and_dimensions() {
    assert_eq!(
        check_client_command(ClientCommand::Hello { v: 1, cols: 80, rows: 24 }),
        Ok(ClientCommand::Hello { v: 1, cols: 80, rows: 24 })
    );
    let oversized = ClientCommand::Input { v: 1, data: "s".repeat(MAX_INPUT_BYTES + 1) };
    assert_eq!(check_client_command(oversized), Err("input is too large"));
    assert!(check_client_message(&"x".repeat(9000)).is_err());
    assert_eq!(capped_area(u32::MAX, u32::MAX), (300, 120));
}

#[test]
fn web_hello_starts_the_run_at_a_capped_size() {
    let (game, _decoder, area) = greeted_session();
    assert_eq!(area, (80, 24));
    assert_eq!(game.status, RunStatus::Active);
}

#[test]
fn web_first_message_must_be_a_supported_hello() {
    let mut game = ExplorationGame::new(Some(RunSeed(7))).unwrap();
    let before = game.clone();
    let mut decoder = InputDecoder::default();
    let mut area = (1u16, 1u16);
    let wrong = web_session_step(&mut game, &mut decoder, &mut area, false, ClientCommand::Hello { v: 2, cols: 80, rows: 24 });
    assert_eq!(wrong, vec![SessionAction::SendError(ProtocolError::UnsupportedVersion), SessionAction::Close]);
    let not_hello = web_session_step(&mut game, &mut decoder, &mut area, false, ClientCommand::Quit { v: 1 });
    assert_eq!(not_hello, vec![SessionAction::SendError(ProtocolError::ValidHelloFirst), SessionAction::Close]);
    assert_eq!(game, before);
    assert_eq!(area, (1, 1));
}

#[test]
fn web_later_messages_follow_the_protocol() {
    let (mut game, mut decoder, mut area) = greeted_session();
    let again = web_session_step(&mut game, &mut decoder, &mut area, true, ClientCommand::Hello { v: 1, cols: 80, rows: 24 });
    assert_eq!(again, vec![SessionAction::SendError(ProtocolError::HelloOnlyOnce), SessionAction::Close]);
    let version = web_session_step(&mut game, &mut decoder, &mut area, true, ClientCommand::Quit { v: 9 });
    assert_eq!(version, vec![SessionAction::SendError(ProtocolError::UnsupportedVersion), SessionAction::Close]);
    let resized = web_session_step(&mut game, &mut decoder, &mut area, true, ClientCommand::Resize { v: 1, cols: u32::MAX, rows: 0 });
    assert_eq!(resized, vec![SessionAction::Resize { cols: 300, rows: 1 }, SessionAction::Draw]);
    assert_eq!(area, (300, 1));
    let quit = web_session_step(&mut game, &mut decoder, &mut area, true, ClientCommand::Quit { v: 1 });
    assert_eq!(quit, vec![SessionAction::Close]);
}

#[test]
fn web_input_is_decoded_applied_and_redrawn() {
    let (mut game, mut decoder, mut area) = greeted_session();
    let turn = game.turn;
    let waited = web_session_step(&mut game, &mut decoder, &mut area, true, ClientCommand::Input { v: 1, data: "s".to_string() });
    assert_eq!(waited, vec![SessionAction::Draw]);
    assert_eq!(game.turn, turn + 1);
    let quit = web_session_step(&mut game, &mut decoder, &mut area, true, ClientCommand::Input { v: 1, data: "Q".to_string() });
    assert_eq!(quit, vec![SessionAction::Close]);
}

#[test]
fn web_input_is_skipped_below_the_minimum_size() {
    let (mut game, mut decoder, mut area) = greeted_session();
    let _ = web_session_step(&mut game, &mut decoder, &mut area, true, ClientCommand::Resize { v: 1, cols: 20, rows: 5 });
    let turn = game.turn;
    let actions = web_session_step(&mut game, &mut decoder, &mut area, true, ClientCommand::Input { v: 1, data: "s".to_string() });
    assert_eq!(actions, vec![SessionAction::Draw]);
    assert_eq!(game.turn, turn);
}

#[test]
fn web_refusals_carry_their_texts() {
    assert_eq!(refuse(ProtocolError::BinaryUnsupported), vec![SessionAction::SendError(ProtocolError::BinaryUnsupported), SessionAction::Close]);
    assert_eq!(ProtocolError::BinaryUnsupported.message(), "binary client messages are unsupported");
    assert_eq!(ProtocolError::HelloOnlyOnce.message(), "hello is only valid once");
    assert_eq!(ProtocolError::UnsupportedVersion.message(), "unsupported protocol version");
}
