use game_lobby::board::{BoardState, FruitType};
use game_lobby::sessions::{code_is_free, generate_lobby_code, Sessions};
use game_lobby::game::ServerToClientMessage;
use game_lobby::lobby::{GameState, Lobby, LobbyError};
use game_lobby::roster::Delivery;

fn table() -> Sessions {
    Sessions::new(fastrand::Rng::with_seed(2024))
}

fn name(text: &str) -> String {
    text.to_string()
}

fn to(code: &str, recipient: &str, message: ServerToClientMessage) -> Delivery {
    Delivery { code: code.to_string(), recipient: recipient.to_string(), message }
}

fn received<'a>(events: &'a [Delivery], player: &str) -> Vec<&'a ServerToClientMessage> {
    events.iter().filter(|d| d.recipient == player).map(|d| &d.message).collect()
}

fn sample_board() -> BoardState {
    let mut board = BoardState::new();
    board.set_rapier_state(vec![8, 9]);
    board.insert(1, 1, FruitType::Cherry);
    board
}

fn is_code(code: &str) -> bool {
    code.len() == 8 && code.chars().all(|c| "ABCDEFGHJKLMNPQRSTUVWXYZ".contains(c))
}

#[test]
fn new_table_has_no_session() {
    assert!(table().lobbies().is_empty());
}

#[test]
fn create_registers_a_waiting_session() {
    let mut table = table();
    let lobby = table.create().unwrap();
    assert!(is_code(lobby.code()));
    assert!(lobby.players().is_empty());
    assert_eq!(lobby.game_state(), &GameState::WaitingForPlayers);
    assert_eq!(table.lobbies(), &vec![lobby]);
}

#[test]
fn created_sessions_have_codes_of_their_own() {
    let mut table = table();
    let mut codes = std::collections::BTreeSet::new();
    for _ in 0..500 {
        let lobby = table.create().unwrap();
        assert!(is_code(lobby.code()));
        assert!(codes.insert(lobby.code().clone()));
    }
    assert_eq!(table.lobbies().len(), 500);
}

#[test]
fn create_draws_codes_in_the_order_of_the_generator() {
    let mut first = Sessions::with_draw_limit(fastrand::Rng::with_seed(5), 1);
    let taken = first.create().unwrap();
    let mut probe = fastrand::Rng::with_seed(5);
    assert_eq!(taken.code(), &game_lobby::code::generate_code(&mut probe));
    let next = game_lobby::code::generate_code(&mut probe);

    let mut table = Sessions::with_draw_limit(fastrand::Rng::with_seed(5), 2);
    let a = table.create().unwrap();
    assert_eq!(a.code(), taken.code());
    let b = table.create().unwrap();
    assert_eq!(b.code(), &next);
}

#[test]
fn create_without_draws_is_exhausted() {
    let mut table = Sessions::with_draw_limit(fastrand::Rng::with_seed(5), 0);
    assert_eq!(table.create(), Err(LobbyError::CodesExhausted));
    assert!(table.lobbies().is_empty());
    assert_eq!(table.find(name("A")), (Err(LobbyError::CodesExhausted), vec![]));
    assert!(table.lobbies().is_empty());
}

#[test]
fn create_join_join_starts_the_game() {
    let mut table = table();
    let code = table.create().unwrap().code().clone();

    let (reply, events) = table.join(name("A"), code.clone());
    let lobby = reply.unwrap();
    assert_eq!(lobby.game_state(), &GameState::WaitingForPlayers);
    assert_eq!(lobby.players(), &vec![name("A")]);
    assert_eq!(events, vec![to(&code, "A", ServerToClientMessage::PlayerJoined { name: name("A") })]);

    let (reply, events) = table.join(name("B"), code.clone());
    let lobby = reply.unwrap();
    assert!(matches!(lobby.game_state(), GameState::Playing { .. }));
    assert_eq!(lobby.players(), &vec![name("A"), name("B")]);
    assert!(received(&events, "A").contains(&&ServerToClientMessage::GameStart));
    assert!(received(&events, "B").contains(&&ServerToClientMessage::GameStart));
    assert_eq!(events.len(), 4);
    assert_eq!(table.lobbies(), &vec![lobby]);
}

#[test]
fn join_of_an_unknown_code_is_not_found() {
    let mut table = table();
    assert_eq!(table.join(name("A"), name("ZZZZZZZZ")), (Err(LobbyError::LobbyNotFound), vec![]));
    table.create().unwrap();
    assert_eq!(table.join(name("A"), name("ZZZZZZZZ")), (Err(LobbyError::LobbyNotFound), vec![]));
    assert_eq!(table.lobbies().len(), 1);
}

#[test]
fn join_with_a_name_in_the_session_is_taken() {
    let mut table = table();
    let code = table.create().unwrap().code().clone();
    table.join(name("A"), code.clone()).0.unwrap();
    let before = table.lobbies().clone();
    assert_eq!(table.join(name("A"), code), (Err(LobbyError::NameTaken), vec![]));
    assert_eq!(table.lobbies(), &before);
}

#[test]
fn join_of_a_session_with_two_players_is_full() {
    let mut table = table();
    let code = table.create().unwrap().code().clone();
    table.join(name("A"), code.clone()).0.unwrap();
    table.join(name("B"), code.clone()).0.unwrap();
    let before = table.lobbies().clone();
    assert_eq!(table.join(name("C"), code), (Err(LobbyError::LobbyFull), vec![]));
    assert_eq!(table.lobbies(), &before);
}

#[test]
fn same_name_may_be_in_two_sessions() {
    let mut table = table();
    let first = table.create().unwrap().code().clone();
    let second = table.create().unwrap().code().clone();
    assert!(table.join(name("A"), first).0.is_ok());
    assert!(table.join(name("A"), second).0.is_ok());
}

#[test]
fn find_creates_a_session_and_the_next_find_joins_it() {
    let mut table = table();
    let (reply, events) = table.find(name("A"));
    let first = reply.unwrap();
    assert!(is_code(first.code()));
    assert_eq!(first.players(), &vec![name("A")]);
    assert_eq!(first.game_state(), &GameState::WaitingForPlayers);
    assert_eq!(
        events,
        vec![to(first.code(), "A", ServerToClientMessage::PlayerJoined { name: name("A") })]
    );
    assert_eq!(table.lobbies().len(), 1);

    let (reply, events) = table.find(name("B"));
    let second = reply.unwrap();
    assert_eq!(second.code(), first.code());
    assert_eq!(second.players(), &vec![name("A"), name("B")]);
    assert!(matches!(second.game_state(), GameState::Playing { .. }));
    assert_eq!(events.len(), 4);
    assert_eq!(table.lobbies().len(), 1);

    let (reply, _) = table.find(name("C"));
    let third = reply.unwrap();
    assert_ne!(third.code(), first.code());
    assert_eq!(table.lobbies().len(), 2);
}

#[test]
fn find_passes_over_a_session_that_has_the_name() {
    let mut table = table();
    let first = table.find(name("A")).0.unwrap();
    let second = table.find(name("A")).0.unwrap();
    assert_ne!(first.code(), second.code());
    assert_eq!(table.lobbies().len(), 2);
}

#[test]
fn find_takes_the_oldest_session_that_is_open() {
    let mut table = table();
    let full = table.create().unwrap().code().clone();
    let open = table.create().unwrap().code().clone();
    let later = table.create().unwrap().code().clone();
    table.join(name("A"), full.clone()).0.unwrap();
    table.join(name("B"), full).0.unwrap();
    table.join(name("C"), later).0.unwrap();
    let found = table.find(name("D")).0.unwrap();
    assert_eq!(found.code(), &open);
    assert_eq!(found.players(), &vec![name("D")]);
}

#[test]
fn update_goes_to_the_other_player_once() {
    let mut table = table();
    let code = table.create().unwrap().code().clone();
    table.join(name("A"), code.clone()).0.unwrap();
    table.join(name("B"), code.clone()).0.unwrap();
    let events = table.update_board(code.clone(), name("A"), sample_board()).unwrap();
    assert_eq!(
        received(&events, "B"),
        vec![&ServerToClientMessage::BoardUpdate { player: name("A"), board: sample_board() }]
    );
    assert!(received(&events, "A").is_empty());
    assert_eq!(events.len(), 1);
    assert_eq!(events[0].code, code);
}

#[test]
fn update_before_the_game_is_refused() {
    let mut table = table();
    let code = table.create().unwrap().code().clone();
    assert_eq!(
        table.update_board(code.clone(), name("A"), sample_board()),
        Err(LobbyError::GameNotStarted)
    );
    table.join(name("A"), code.clone()).0.unwrap();
    let before = table.lobbies().clone();
    assert_eq!(
        table.update_board(code, name("A"), sample_board()),
        Err(LobbyError::GameNotStarted)
    );
    assert_eq!(table.lobbies(), &before);
}

#[test]
fn update_under_a_name_that_is_not_in_the_session_is_passed_over() {
    let mut table = table();
    let code = table.create().unwrap().code().clone();
    table.join(name("A"), code.clone()).0.unwrap();
    table.join(name("B"), code.clone()).0.unwrap();
    let before = table.lobbies().clone();
    assert_eq!(table.update_board(code, name("C"), sample_board()), Ok(vec![]));
    assert_eq!(table.lobbies(), &before);
}

#[test]
fn update_of_an_unknown_code_is_not_found() {
    let mut table = table();
    assert_eq!(
        table.update_board(name("ZZZZZZZZ"), name("A"), sample_board()),
        Err(LobbyError::LobbyNotFound)
    );
}

#[test]
fn leave_ends_the_game_and_the_last_leave_deletes_the_session() {
    let mut table = table();
    let code = table.create().unwrap().code().clone();
    table.join(name("A"), code.clone()).0.unwrap();
    table.join(name("B"), code.clone()).0.unwrap();

    let events = table.leave(name("A"), code.clone());
    assert_eq!(
        received(&events, "B"),
        vec![
            &ServerToClientMessage::PlayerLeft { name: name("A") },
            &ServerToClientMessage::GameEnd
        ]
    );
    assert!(received(&events, "A").is_empty());
    assert_eq!(table.lobbies().len(), 1);
    assert_eq!(table.lobbies()[0].game_state(), &GameState::Ended);
    assert_eq!(table.lobbies()[0].players(), &vec![name("B")]);
    assert_eq!(
        table.update_board(code.clone(), name("B"), sample_board()),
        Err(LobbyError::GameNotStarted)
    );

    assert_eq!(table.leave(name("B"), code.clone()), vec![]);
    assert!(table.lobbies().is_empty());
    assert_eq!(table.join(name("A"), code), (Err(LobbyError::LobbyNotFound), vec![]));
}

#[test]
fn code_of_a_deleted_session_can_be_drawn_again() {
    let mut table = Sessions::with_draw_limit(fastrand::Rng::with_seed(9), 1);
    let code = table.find(name("A")).0.unwrap().code().clone();
    assert!(!code_is_free(table.lobbies(), &code));
    let mut same_draws = fastrand::Rng::with_seed(9);
    assert_eq!(generate_lobby_code(table.lobbies(), &mut same_draws, 1), None);

    table.leave(name("A"), code.clone());
    assert!(table.lobbies().is_empty());
    assert!(code_is_free(table.lobbies(), &code));
    let mut same_draws = fastrand::Rng::with_seed(9);
    assert_eq!(generate_lobby_code(table.lobbies(), &mut same_draws, 1), Some(code));
}

#[test]
fn empty_session_is_deleted_by_a_leave() {
    let mut table = table();
    let code = table.create().unwrap().code().clone();
    assert_eq!(table.leave(name("nobody"), code), vec![]);
    assert!(table.lobbies().is_empty());
}

#[test]
fn leave_of_an_unknown_code_does_nothing() {
    let mut table = table();
    table.create().unwrap();
    assert_eq!(table.leave(name("A"), name("ZZZZZZZZ")), vec![]);
    assert_eq!(table.lobbies().len(), 1);
}

#[test]
fn leave_keeps_the_other_sessions_in_order() {
    let mut table = table();
    let a = table.find(name("A")).0.unwrap().code().clone();
    let b = table.find(name("A")).0.unwrap().code().clone();
    let c = table.find(name("A")).0.unwrap().code().clone();
    table.leave(name("A"), b);
    let codes: Vec<&String> = table.lobbies().iter().map(Lobby::code).collect();
    assert_eq!(codes, vec![&a, &c]);
}
