use game_lobby::board::{BoardState, FruitType};
use game_lobby::coordinator::{Coordinator, Fate, LobbyMessage, LobbyMessageInner, Outcome};
use game_lobby::game::ServerToClientMessage;
use game_lobby::lobby::{GameState, LobbyError};
use game_lobby::roster::Delivery;
use tokio::sync::mpsc::{channel, Receiver, Sender};
use tokio::sync::oneshot;

type Events = Receiver<ServerToClientMessage>;

fn coordinator() -> Coordinator {
    Coordinator::new(fastrand::Rng::with_seed(2024))
}

fn name(text: &str) -> String {
    text.to_string()
}

fn queue() -> (Sender<ServerToClientMessage>, Events) {
    channel(100)
}

fn drain(events: &mut Events) -> Vec<ServerToClientMessage> {
    let mut taken = vec![];
    while let Ok(event) = events.try_recv() {
        taken.push(event);
    }
    taken
}

fn joined(who: &str) -> ServerToClientMessage {
    ServerToClientMessage::PlayerJoined { name: name(who) }
}

fn left(who: &str) -> ServerToClientMessage {
    ServerToClientMessage::PlayerLeft { name: name(who) }
}

fn sample_board() -> BoardState {
    let mut board = BoardState::new();
    board.set_rapier_state(vec![8, 9]);
    board.insert(1, 1, FruitType::Cherry);
    board
}

fn create(coordinator: &mut Coordinator) -> String {
    match coordinator.handle(LobbyMessageInner::Create).reply {
        Some(Ok(lobby)) => lobby.code().clone(),
        other => panic!("{other:?}"),
    }
}

fn join(coordinator: &mut Coordinator, who: &str, code: &str) -> (Outcome, Events) {
    let (socket, events) = queue();
    let outcome =
        coordinator.handle(LobbyMessageInner::Join { name: name(who), code: name(code), socket });
    (outcome, events)
}

/// A session in which `A` and `B` play, with the queues of both emptied.
fn playing() -> (Coordinator, String, Events, Events) {
    let mut coordinator = coordinator();
    let code = create(&mut coordinator);
    let (_, mut a) = join(&mut coordinator, "A", &code);
    let (_, mut b) = join(&mut coordinator, "B", &code);
    drain(&mut a);
    drain(&mut b);
    (coordinator, code, a, b)
}

#[test]
fn two_joins_start_the_game_and_both_players_hear_of_it() {
    let mut coordinator = coordinator();
    let code = create(&mut coordinator);
    assert_eq!(code.len(), 8);

    let (outcome, mut a) = join(&mut coordinator, "A", &code);
    let lobby = outcome.reply.unwrap().unwrap();
    assert_eq!(lobby.game_state(), &GameState::WaitingForPlayers);
    assert_eq!(lobby.players(), &vec![name("A")]);
    assert_eq!(outcome.fates, vec![Fate::Taken]);
    assert_eq!(drain(&mut a), vec![joined("A")]);

    let (outcome, mut b) = join(&mut coordinator, "B", &code);
    let lobby = outcome.reply.unwrap().unwrap();
    assert!(matches!(lobby.game_state(), GameState::Playing { .. }));
    assert_eq!(lobby.players(), &vec![name("A"), name("B")]);
    assert_eq!(outcome.fates, vec![Fate::Taken; 4]);
    assert_eq!(drain(&mut a), vec![joined("B"), ServerToClientMessage::GameStart]);
    assert_eq!(drain(&mut b), vec![joined("B"), ServerToClientMessage::GameStart]);
}

#[test]
fn join_of_a_missing_code_is_not_found_and_brings_no_queue() {
    let mut coordinator = coordinator();
    let (outcome, mut a) = join(&mut coordinator, "A", "ZZZZZZZZ");
    assert_eq!(
        outcome,
        Outcome { reply: Some(Err(LobbyError::LobbyNotFound)), deliveries: vec![], fates: vec![] }
    );
    assert!(drain(&mut a).is_empty());
    assert!(!coordinator.is_connected(&name("ZZZZZZZZ"), &name("A")));
    assert!(coordinator.lobbies().is_empty());
}

#[test]
fn second_find_joins_the_session_of_the_first() {
    let mut coordinator = coordinator();
    let first = coordinator.handle(LobbyMessageInner::Find { name: name("A") });
    let lobby = first.reply.unwrap().unwrap();
    assert_eq!(lobby.players(), &vec![name("A")]);
    assert_eq!(coordinator.lobbies().len(), 1);

    let second = coordinator.handle(LobbyMessageInner::Find { name: name("B") });
    let same = second.reply.unwrap().unwrap();
    assert_eq!(same.code(), lobby.code());
    assert_eq!(same.players(), &vec![name("A"), name("B")]);
    assert!(matches!(same.game_state(), GameState::Playing { .. }));
    assert_eq!(coordinator.lobbies().len(), 1);
    // Neither came with a queue, so nobody hears of it.
    assert_eq!(first.fates, vec![Fate::NotConnected]);
    assert_eq!(second.fates, vec![Fate::NotConnected; 4]);
}

#[test]
fn board_update_reaches_the_other_player_once_and_not_its_sender() {
    let (mut coordinator, code, mut a, mut b) = playing();
    let outcome = coordinator.handle(LobbyMessageInner::UpdateBoard {
        code: code.clone(),
        name: name("A"),
        board: sample_board(),
    });
    assert_eq!(outcome.reply, None);
    assert_eq!(outcome.fates, vec![Fate::Taken]);
    assert_eq!(
        drain(&mut b),
        vec![ServerToClientMessage::BoardUpdate { player: name("A"), board: sample_board() }]
    );
    assert!(drain(&mut a).is_empty());
}

#[test]
fn leave_ends_the_game_and_the_last_leave_frees_the_code() {
    let (mut coordinator, code, mut a, mut b) = playing();
    let outcome =
        coordinator.handle(LobbyMessageInner::Leave { name: name("A"), code: code.clone() });
    assert_eq!(outcome.reply, None);
    assert_eq!(coordinator.lobbies()[0].game_state(), &GameState::Ended);
    assert_eq!(drain(&mut b), vec![left("A"), ServerToClientMessage::GameEnd]);
    assert!(drain(&mut a).is_empty());
    assert!(!coordinator.is_connected(&code, &name("A")));
    assert!(coordinator.is_connected(&code, &name("B")));

    let outcome =
        coordinator.handle(LobbyMessageInner::Leave { name: name("B"), code: code.clone() });
    assert_eq!(outcome, Outcome { reply: None, deliveries: vec![], fates: vec![] });
    assert!(coordinator.lobbies().is_empty());
    assert!(!coordinator.is_connected(&code, &name("B")));
    assert!(game_lobby::sessions::code_is_free(coordinator.lobbies(), &code));
    let (outcome, _) = join(&mut coordinator, "A", &code);
    assert_eq!(outcome.reply, Some(Err(LobbyError::LobbyNotFound)));
}

#[test]
fn refused_join_brings_no_queue() {
    let (mut coordinator, code, mut a, mut b) = playing();
    let (outcome, mut c) = join(&mut coordinator, "C", &code);
    assert_eq!(
        outcome,
        Outcome { reply: Some(Err(LobbyError::LobbyFull)), deliveries: vec![], fates: vec![] }
    );
    assert!(!coordinator.is_connected(&code, &name("C")));

    let waiting = create(&mut coordinator);
    let (_, mut first) = join(&mut coordinator, "A", &waiting);
    drain(&mut first);
    let (outcome, mut second) = join(&mut coordinator, "A", &waiting);
    assert_eq!(outcome.reply, Some(Err(LobbyError::NameTaken)));
    coordinator.handle(LobbyMessageInner::Find { name: name("D") });
    assert_eq!(drain(&mut first), vec![joined("D"), ServerToClientMessage::GameStart]);
    assert!(drain(&mut second).is_empty());
    assert!(drain(&mut a).is_empty());
    assert!(drain(&mut b).is_empty());
    assert!(drain(&mut c).is_empty());
}

#[test]
fn update_that_is_refused_reaches_nobody() {
    let mut coordinator = coordinator();
    let code = create(&mut coordinator);
    let (_, mut a) = join(&mut coordinator, "A", &code);
    drain(&mut a);
    let outcome = coordinator.handle(LobbyMessageInner::UpdateBoard {
        code: code.clone(),
        name: name("A"),
        board: sample_board(),
    });
    assert_eq!(outcome, Outcome { reply: None, deliveries: vec![], fates: vec![] });
    assert_eq!(
        coordinator.update_board(code, name("A"), sample_board()),
        Err(LobbyError::GameNotStarted)
    );
    assert_eq!(
        coordinator.update_board(name("ZZZZZZZZ"), name("A"), sample_board()),
        Err(LobbyError::LobbyNotFound)
    );
    assert!(drain(&mut a).is_empty());
}

#[test]
fn update_of_a_stranger_changes_nothing_and_reaches_nobody() {
    let (mut coordinator, code, mut a, mut b) = playing();
    let before = coordinator.lobbies().clone();
    let outcome = coordinator.handle(LobbyMessageInner::UpdateBoard {
        code: code.clone(),
        name: name("C"),
        board: sample_board(),
    });
    assert_eq!(outcome, Outcome { reply: None, deliveries: vec![], fates: vec![] });
    assert_eq!(coordinator.update_board(code, name("C"), sample_board()), Ok(vec![]));
    assert_eq!(coordinator.lobbies(), &before);
    assert!(drain(&mut a).is_empty());
    assert!(drain(&mut b).is_empty());
}

#[test]
fn full_queue_loses_the_event_and_nothing_else() {
    let mut coordinator = coordinator();
    let code = create(&mut coordinator);
    let (small, mut a) = channel(1);
    coordinator.join(name("A"), code.clone(), small).0.unwrap();
    let (outcome, mut b) = join(&mut coordinator, "B", &code);
    // A's queue has room for one event, B's for all.
    assert_eq!(
        outcome.deliveries.iter().map(|d| d.recipient.as_str()).collect::<Vec<_>>(),
        vec!["A", "B", "A", "B"]
    );
    assert_eq!(outcome.fates, vec![Fate::Taken, Fate::Taken, Fate::Lost, Fate::Taken]);
    assert_eq!(drain(&mut a), vec![joined("B")]);
    assert_eq!(drain(&mut b), vec![joined("B"), ServerToClientMessage::GameStart]);
    assert!(matches!(coordinator.lobbies()[0].game_state(), GameState::Playing { .. }));
}

#[test]
fn closed_queue_loses_the_event_and_nothing_else() {
    let (mut coordinator, code, a, mut b) = playing();
    drop(a);
    let outcome = coordinator.handle(LobbyMessageInner::UpdateBoard {
        code: code.clone(),
        name: name("B"),
        board: sample_board(),
    });
    assert_eq!(outcome.fates, vec![Fate::Lost]);
    let outcome = coordinator.handle(LobbyMessageInner::UpdateBoard {
        code,
        name: name("A"),
        board: sample_board(),
    });
    assert_eq!(outcome.fates, vec![Fate::Taken]);
    assert_eq!(drain(&mut b).len(), 1);
}

#[test]
fn dispatch_offers_each_event_to_its_recipient() {
    let (coordinator, code, mut a, mut b) = playing();
    let events = vec![
        Delivery { code: code.clone(), recipient: name("B"), message: ServerToClientMessage::GameEnd },
        Delivery { code: code.clone(), recipient: name("C"), message: ServerToClientMessage::GameEnd },
        Delivery { code: name("ZZZZZZZZ"), recipient: name("A"), message: ServerToClientMessage::GameEnd },
        Delivery { code, recipient: name("A"), message: ServerToClientMessage::GameStart },
    ];
    assert_eq!(
        coordinator.dispatch(&events),
        vec![Fate::Taken, Fate::NotConnected, Fate::NotConnected, Fate::Taken]
    );
    assert_eq!(drain(&mut a), vec![ServerToClientMessage::GameStart]);
    assert_eq!(drain(&mut b), vec![ServerToClientMessage::GameEnd]);
}

#[test]
fn players_of_two_sessions_are_kept_apart() {
    let mut coordinator = coordinator();
    let first = create(&mut coordinator);
    let second = create(&mut coordinator);
    let (_, mut a1) = join(&mut coordinator, "A", &first);
    let (_, mut a2) = join(&mut coordinator, "A", &second);
    drain(&mut a1);
    drain(&mut a2);
    let (_, _b) = join(&mut coordinator, "B", &second);
    assert!(drain(&mut a1).is_empty());
    assert_eq!(drain(&mut a2), vec![joined("B"), ServerToClientMessage::GameStart]);
}

#[test]
fn process_puts_the_reply_in_its_slot() {
    let mut coordinator = coordinator();
    let (reply_channel, mut slot) = oneshot::channel();
    let outcome =
        coordinator.process(LobbyMessage { reply_channel, message: LobbyMessageInner::Create });
    let lobby = slot.try_recv().unwrap().unwrap();
    assert_eq!(outcome.reply, Some(Ok(lobby.clone())));
    assert_eq!(coordinator.lobbies(), &vec![lobby.clone()]);

    let (reply_channel, mut slot) = oneshot::channel();
    let (socket, mut a) = queue();
    coordinator.process(LobbyMessage {
        reply_channel,
        message: LobbyMessageInner::Join { name: name("A"), code: lobby.code().clone(), socket },
    });
    assert_eq!(slot.try_recv().unwrap().unwrap().players(), &vec![name("A")]);
    assert_eq!(drain(&mut a), vec![joined("A")]);

    let (reply_channel, mut slot) = oneshot::channel();
    let (socket, _events) = queue();
    coordinator.process(LobbyMessage {
        reply_channel,
        message: LobbyMessageInner::Join { name: name("A"), code: name("ZZZZZZZZ"), socket },
    });
    assert_eq!(slot.try_recv(), Ok(Err(LobbyError::LobbyNotFound)));
}

#[test]
fn process_leaves_the_slot_empty_where_no_reply_is_due() {
    let (mut coordinator, code, _a, _b) = playing();
    let (reply_channel, mut slot) = oneshot::channel();
    coordinator.process(LobbyMessage {
        reply_channel,
        message: LobbyMessageInner::UpdateBoard {
            code: code.clone(),
            name: name("A"),
            board: sample_board(),
        },
    });
    assert!(slot.try_recv().is_err());
    let (reply_channel, mut slot) = oneshot::channel();
    coordinator.process(LobbyMessage {
        reply_channel,
        message: LobbyMessageInner::Leave { name: name("A"), code },
    });
    assert!(slot.try_recv().is_err());
    assert_eq!(coordinator.lobbies()[0].players(), &vec![name("B")]);
}

#[test]
fn process_goes_on_when_nobody_waits_for_the_reply() {
    let mut coordinator = coordinator();
    let (reply_channel, slot) = oneshot::channel();
    drop(slot);
    coordinator.process(LobbyMessage { reply_channel, message: LobbyMessageInner::Create });
    assert_eq!(coordinator.lobbies().len(), 1);
}

#[test]
fn coordinator_without_draws_is_exhausted() {
    let mut coordinator = Coordinator::with_draw_limit(fastrand::Rng::with_seed(5), 0);
    assert_eq!(coordinator.create(), Err(LobbyError::CodesExhausted));
    assert_eq!(
        coordinator.handle(LobbyMessageInner::Find { name: name("A") }),
        Outcome { reply: Some(Err(LobbyError::CodesExhausted)), deliveries: vec![], fates: vec![] }
    );
    assert!(coordinator.lobbies().is_empty());
}

#[test]
fn rosters_never_exceed_two_and_codes_stay_apart() {
    let mut coordinator = coordinator();
    let mut rng = fastrand::Rng::with_seed(77);
    let names = ["A", "B", "C", "D"];
    let mut queues = vec![];
    for _ in 0..3000 {
        let who = name(names[rng.usize(0..names.len())]);
        let code = if coordinator.lobbies().is_empty() {
            name("ZZZZZZZZ")
        } else {
            coordinator.lobbies()[rng.usize(0..coordinator.lobbies().len())].code().clone()
        };
        let message = match rng.usize(0..5) {
            0 => LobbyMessageInner::Create,
            1 => LobbyMessageInner::Find { name: who },
            2 => {
                let (socket, events) = channel(4);
                queues.push(events);
                LobbyMessageInner::Join { name: who, code, socket }
            }
            3 => LobbyMessageInner::Leave { name: who, code },
            _ => LobbyMessageInner::UpdateBoard { code, name: who, board: sample_board() },
        };
        let outcome = coordinator.handle(message);
        assert_eq!(outcome.fates.len(), outcome.deliveries.len());
        let mut codes = std::collections::BTreeSet::new();
        for lobby in coordinator.lobbies() {
            assert!(lobby.players().len() <= 2);
            assert!(codes.insert(lobby.code().clone()));
            match lobby.game_state() {
                GameState::WaitingForPlayers => assert!(lobby.players().len() < 2),
                GameState::Playing { board_states } => {
                    assert_eq!(lobby.players().len(), 2);
                    for who in names {
                        let player = lobby.players().contains(&name(who));
                        assert_eq!(board_states.get(&name(who)).is_some(), player);
                    }
                }
                GameState::Ended => {}
            }
        }
        for (delivery, fate) in outcome.deliveries.iter().zip(&outcome.fates) {
            let connected = coordinator.is_connected(&delivery.code, &delivery.recipient);
            assert_eq!(*fate == Fate::NotConnected, !connected);
        }
    }
}
