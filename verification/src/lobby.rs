//! One session: its code, its roster of at most two players and its state.

use vstd::prelude::*;
use crate::board::{BoardState, BoardView};
use crate::game::{ServerMessageView, ServerToClientMessage};
use crate::roster::{
    append_deliveries, deliver_to, deliveries_to, deliveries_view, find_name,
    lemma_index_of_first_push, lemma_remove_value, names_view, names_without, others, Delivery,
    DeliveryView,
};

verus! {

/// Most players a session holds.
pub const MAX_PLAYERS: usize = 2;

/// Why a command was turned down.
#[derive(Clone, Copy, Debug, PartialEq, Eq, Structural)]
pub enum LobbyError {
    /// No session is registered under the code.
    LobbyNotFound,
    /// The session already has `MAX_PLAYERS` players.
    LobbyFull,
    /// The session already has a player of that name.
    NameTaken,
    /// The session is not in `Playing`.
    GameNotStarted,
    /// Every code that was drawn for a new session was in use.
    CodesExhausted,
}

impl LobbyError {
    /// The reason in words.
    pub open spec fn text(self) -> Seq<char> {
        match self {
            LobbyError::LobbyNotFound => "Lobby not found"@,
            LobbyError::LobbyFull => "Lobby full"@,
            LobbyError::NameTaken => "Name already taken"@,
            LobbyError::GameNotStarted => "Game not started"@,
            LobbyError::CodesExhausted => "No free lobby code"@,
        }
    }

    /// The reason in words, for the caller.
    pub fn message(&self) -> (text: String)
        ensures
            text@ == self.text(),
    {
        match self {
            LobbyError::LobbyNotFound => "Lobby not found".to_owned(),
            LobbyError::LobbyFull => "Lobby full".to_owned(),
            LobbyError::NameTaken => "Name already taken".to_owned(),
            LobbyError::GameNotStarted => "Game not started".to_owned(),
            LobbyError::CodesExhausted => "No free lobby code".to_owned(),
        }
    }
}

/// The latest board of one player.
#[derive(Debug, PartialEq, Eq)]
pub struct PlayerBoard {
    pub name: String,
    pub board: BoardState,
}

/// The latest board of each player, by name.
#[derive(Debug, PartialEq, Eq)]
pub struct BoardTable {
    entries: Vec<PlayerBoard>,
}

/// The names of the entries, in order.
pub open spec fn entry_names(entries: Seq<PlayerBoard>) -> Seq<Seq<char>> {
    entries.map_values(|e: PlayerBoard| e.name@)
}

/// The mapping that a list of entries stands for: each name to the board of
/// its first entry.
pub open spec fn table_map(entries: Seq<PlayerBoard>) -> Map<Seq<char>, BoardView> {
    Map::new(
        |n: Seq<char>| entry_names(entries).contains(n),
        |n: Seq<char>| entries[entry_names(entries).index_of_first(n).unwrap()].board@,
    )
}

impl View for BoardTable {
    type V = Map<Seq<char>, BoardView>;

    closed spec fn view(&self) -> Map<Seq<char>, BoardView> {
        table_map(self.entries@)
    }
}

impl Clone for BoardTable {
    fn clone(&self) -> (copy: Self)
        ensures
            copy@ == self@,
    {
        let mut entries: Vec<PlayerBoard> = Vec::new();
        let mut i: usize = 0;
        while i < self.entries.len()
            invariant
                i <= self.entries.len(),
                entries@.len() == i,
                forall|j: int|
                    0 <= j < i ==> (#[trigger] entries@[j]).name@ == self.entries@[j].name@
                        && entries@[j].board@ == self.entries@[j].board@,
            decreases self.entries.len() - i,
        {
            entries.push(
                PlayerBoard {
                    name: self.entries[i].name.clone(),
                    board: self.entries[i].board.clone(),
                },
            );
            i += 1;
        }
        proof {
            let names = entry_names(self.entries@);
            assert(entry_names(entries@) =~= names);
            assert forall|n: Seq<char>| names.contains(n) implies #[trigger] table_map(entries@)[n]
                == table_map(self.entries@)[n] by {
                names.index_of_first_ensures(n);
            }
            assert(table_map(entries@) =~= table_map(self.entries@));
        }
        BoardTable { entries }
    }
}

impl BoardTable {
    /// The table without entries.
    pub fn new() -> (table: Self)
        ensures
            table@ == Map::<Seq<char>, BoardView>::empty(),
    {
        let table = BoardTable { entries: Vec::new() };
        assert(table@ =~= Map::<Seq<char>, BoardView>::empty());
        table
    }

    /// Index of the entry of `name`.
    fn position(&self, name: &String) -> (found: Option<usize>)
        ensures
            match found {
                Some(i) => i < self.entries.len() && entry_names(self.entries@).index_of_first(
                    name@,
                ) == Some(i as int),
                None => entry_names(self.entries@).index_of_first(name@) is None,
            },
    {
        let ghost names = entry_names(self.entries@);
        let mut i: usize = 0;
        while i < self.entries.len()
            invariant
                i <= self.entries.len(),
                names == entry_names(self.entries@),
                forall|j: int| 0 <= j < i ==> names[j] != name@,
            decreases self.entries.len() - i,
        {
            if self.entries[i].name == *name {
                proof {
                    assert(names[i as int] == name@);
                    names.index_of_first_ensures(name@);
                }
                return Some(i);
            }
            i += 1;
        }
        proof {
            names.index_of_first_ensures(name@);
        }
        None
    }

    /// The board of `name`, if the table has one.
    pub fn get(&self, name: &String) -> (board: Option<&BoardState>)
        ensures
            match board {
                Some(b) => self@.contains_key(name@) && b@ == self@[name@],
                None => !self@.contains_key(name@),
            },
    {
        proof {
            entry_names(self.entries@).index_of_first_ensures(name@);
        }
        match self.position(name) {
            Some(i) => Some(&self.entries[i].board),
            None => None,
        }
    }

    /// Makes `board` the board of `name`.
    pub fn insert(&mut self, name: String, board: BoardState)
        ensures
            final(self)@ == old(self)@.insert(name@, board@),
    {
        let ghost before = self.entries@;
        let ghost names = entry_names(before);
        proof {
            names.index_of_first_ensures(name@);
        }
        match self.position(&name) {
            Some(i) => {
                let ghost entry = PlayerBoard { name, board };
                self.entries.set(i, PlayerBoard { name, board });
                proof {
                    let after = self.entries@;
                    assert(entry_names(after) =~= names);
                    assert forall|n: Seq<char>| names.contains(n) implies #[trigger] table_map(
                        after,
                    )[n] == table_map(before).insert(entry.name@, entry.board@)[n] by {
                        names.index_of_first_ensures(n);
                    }
                    assert(table_map(after) =~= table_map(before).insert(
                        entry.name@,
                        entry.board@,
                    ));
                }
            },
            None => {
                let ghost entry = PlayerBoard { name, board };
                self.entries.push(PlayerBoard { name, board });
                proof {
                    let after = self.entries@;
                    assert(entry_names(after) =~= names.push(entry.name@));
                    let longer = names.push(entry.name@);
                    assert(longer[names.len() as int] == entry.name@);
                    assert forall|n: Seq<char>|
                        longer.contains(n) == (names.contains(n) || n == entry.name@) by {
                        if names.contains(n) {
                            let i = names.index_of(n);
                            assert(longer[i] == n);
                        }
                        if longer.contains(n) {
                            let j = longer.index_of(n);
                            if j < names.len() {
                                assert(names[j] == n);
                            }
                        }
                    }
                    assert forall|n: Seq<char>| longer.contains(n) implies #[trigger] table_map(
                        after,
                    )[n] == table_map(before).insert(entry.name@, entry.board@)[n] by {
                        lemma_index_of_first_push(names, entry.name@, n);
                        names.index_of_first_ensures(n);
                    }
                    assert(table_map(after) =~= table_map(before).insert(
                        entry.name@,
                        entry.board@,
                    ));
                }
            },
        }
    }
}

/// Where a session stands.
#[derive(Debug, PartialEq, Eq)]
pub enum GameState {
    WaitingForPlayers,
    Playing { board_states: BoardTable },
    Ended,
}

/// What a state is: for a game that is played, the board of each name.
pub enum GameStateView {
    WaitingForPlayers,
    Playing { boards: Map<Seq<char>, BoardView> },
    Ended,
}

impl View for GameState {
    type V = GameStateView;

    open spec fn view(&self) -> GameStateView {
        match self {
            GameState::WaitingForPlayers => GameStateView::WaitingForPlayers,
            GameState::Playing { board_states } => GameStateView::Playing {
                boards: board_states@,
            },
            GameState::Ended => GameStateView::Ended,
        }
    }
}

impl Clone for GameState {
    fn clone(&self) -> (copy: Self)
        ensures
            copy@ == self@,
    {
        match self {
            GameState::WaitingForPlayers => GameState::WaitingForPlayers,
            GameState::Playing { board_states } => GameState::Playing {
                board_states: board_states.clone(),
            },
            GameState::Ended => GameState::Ended,
        }
    }
}

/// What a session is: its code, the names of its players in the order in
/// which they joined, and its state.
pub struct LobbyView {
    pub code: Seq<char>,
    pub players: Seq<Seq<char>>,
    pub state: GameStateView,
}

/// The board that a player starts with.
pub open spec fn empty_board() -> BoardView {
    BoardView { blob: Seq::empty(), cells: Seq::empty() }
}

/// An empty board for each of `players`.
pub open spec fn fresh_boards(players: Seq<Seq<char>>) -> Map<Seq<char>, BoardView> {
    Map::new(|n: Seq<char>| players.contains(n), |n: Seq<char>| empty_board())
}

/// Position of a state in the order waiting, playing, ended.
pub open spec fn rank(state: GameStateView) -> int {
    match state {
        GameStateView::WaitingForPlayers => 0,
        GameStateView::Playing { .. } => 1,
        GameStateView::Ended => 2,
    }
}

/// One step of a session: the state stays or moves to the next one, and a
/// waiting session is playing afterwards exactly if it then has two players.
pub open spec fn in_order(before: LobbyView, after: LobbyView) -> bool {
    &&& rank(before.state) <= rank(after.state) <= rank(before.state) + 1
    &&& before.state is WaitingForPlayers ==> (after.state is Playing <==> after.players.len()
        == MAX_PLAYERS)
}

impl LobbyView {
    /// This session with another roster.
    pub open spec fn with_players(self, players: Seq<Seq<char>>) -> LobbyView {
        LobbyView { code: self.code, players, state: self.state }
    }

    /// This session in another state.
    pub open spec fn with_state(self, state: GameStateView) -> LobbyView {
        LobbyView { code: self.code, players: self.players, state }
    }

    /// No name occurs twice, there are at most `MAX_PLAYERS` names, and while
    /// a game of `MAX_PLAYERS` is played the boards are those of the players:
    /// every player has a board, and every board is that of a player.
    pub open spec fn roster_ok(self) -> bool {
        &&& self.players.no_duplicates()
        &&& self.players.len() <= MAX_PLAYERS
        &&& (self.state matches GameStateView::Playing { boards } && self.players.len()
            == MAX_PLAYERS) ==> forall|n: Seq<char>|
            self.players.contains(n) <==> #[trigger] self.state->boards.contains_key(n)
    }

    /// The roster is in order and fits the state: fewer than `MAX_PLAYERS`
    /// players while waiting, exactly `MAX_PLAYERS` while playing, each with
    /// a board and no board besides.
    pub open spec fn wf(self) -> bool {
        &&& self.roster_ok()
        &&& self.state is WaitingForPlayers ==> self.players.len() < MAX_PLAYERS
        &&& self.state is Playing ==> self.players.len() == MAX_PLAYERS
    }

    /// `message` for every player.
    pub open spec fn broadcast(self, message: ServerMessageView) -> Seq<DeliveryView> {
        deliveries_to(self.code, self.players, message)
    }

    /// `message` for every player but `filter`.
    pub open spec fn broadcast_except(
        self,
        filter: Seq<char>,
        message: ServerMessageView,
    ) -> Seq<DeliveryView> {
        deliveries_to(self.code, others(self.players, filter), message)
    }

    /// The session after the state has caught up with the roster.
    pub open spec fn advanced(self) -> LobbyView {
        match self.state {
            GameStateView::WaitingForPlayers => if self.players.len() == MAX_PLAYERS {
                self.with_state(GameStateView::Playing { boards: fresh_boards(self.players) })
            } else {
                self
            },
            GameStateView::Playing { .. } => if self.players.len() != MAX_PLAYERS {
                self.with_state(GameStateView::Ended)
            } else {
                self
            },
            GameStateView::Ended => self,
        }
    }

    /// What is sent when the state catches up with the roster.
    pub open spec fn advance_events(self) -> Seq<DeliveryView> {
        match self.state {
            GameStateView::WaitingForPlayers => if self.players.len() == MAX_PLAYERS {
                self.broadcast(ServerMessageView::GameStart)
            } else {
                Seq::empty()
            },
            GameStateView::Playing { .. } => if self.players.len() != MAX_PLAYERS {
                self.broadcast(ServerMessageView::GameEnd)
            } else {
                Seq::empty()
            },
            GameStateView::Ended => Seq::empty(),
        }
    }

    /// Why `name` cannot join, if it cannot.
    pub open spec fn join_error(self, name: Seq<char>) -> Option<LobbyError> {
        if self.players.len() >= MAX_PLAYERS {
            Some(LobbyError::LobbyFull)
        } else if self.players.contains(name) {
            Some(LobbyError::NameTaken)
        } else {
            None
        }
    }

    /// The session after `name` has joined.
    pub open spec fn joined(self, name: Seq<char>) -> LobbyView {
        self.with_players(self.players.push(name)).advanced()
    }

    /// What is sent when `name` joins.
    pub open spec fn join_events(self, name: Seq<char>) -> Seq<DeliveryView> {
        let grown = self.with_players(self.players.push(name));
        grown.broadcast(ServerMessageView::PlayerJoined { name }) + grown.advance_events()
    }

    /// The session after `name` has left.
    pub open spec fn left(self, name: Seq<char>) -> LobbyView {
        self.with_players(self.players.remove_value(name)).advanced()
    }

    /// What is sent when `name` leaves.
    pub open spec fn leave_events(self, name: Seq<char>) -> Seq<DeliveryView> {
        let shrunk = self.with_players(self.players.remove_value(name));
        shrunk.broadcast(ServerMessageView::PlayerLeft { name }) + shrunk.advance_events()
    }

    /// Why a board cannot be taken, if it cannot.
    pub open spec fn update_error(self) -> Option<LobbyError> {
        if self.state is Playing {
            None
        } else {
            Some(LobbyError::GameNotStarted)
        }
    }

    /// The playing session with `board` as the board of `name`.
    pub open spec fn with_board(self, name: Seq<char>, board: BoardView) -> LobbyView
        recommends
            self.state is Playing,
    {
        self.with_state(
            GameStateView::Playing { boards: self.state->boards.insert(name, board) },
        )
    }

    /// The playing session after `name` has sent `board`: the board of a
    /// player is replaced, that of anyone else is passed over.
    pub open spec fn updated(self, name: Seq<char>, board: BoardView) -> LobbyView
        recommends
            self.state is Playing,
    {
        if self.players.contains(name) {
            self.with_board(name, board).advanced()
        } else {
            self
        }
    }

    /// What is sent when `name` sends `board`: the board of a player goes to
    /// every other player, that of anyone else to nobody.
    pub open spec fn update_events(self, name: Seq<char>, board: BoardView) -> Seq<DeliveryView>
        recommends
            self.state is Playing,
    {
        if self.players.contains(name) {
            let changed = self.with_board(name, board);
            changed.broadcast_except(name, ServerMessageView::BoardUpdate { player: name, board })
                + changed.advance_events()
        } else {
            Seq::empty()
        }
    }
}

/// Once the state has caught up, roster and state fit, and the step was in
/// order.
pub proof fn lemma_advanced(v: LobbyView)
    requires
        v.roster_ok(),
    ensures
        v.advanced().wf(),
        in_order(v, v.advanced()),
{
}

/// A join keeps a session well-formed, with at most `MAX_PLAYERS` players,
/// and moves its state in order.
pub proof fn lemma_joined(v: LobbyView, name: Seq<char>)
    requires
        v.wf(),
        v.join_error(name) is None,
    ensures
        v.joined(name).wf(),
        v.joined(name).players.len() <= MAX_PLAYERS,
        in_order(v, v.joined(name)),
{
    let grown = v.with_players(v.players.push(name));
    assert forall|i: int, j: int|
        0 <= i < grown.players.len() && 0 <= j < grown.players.len() && i != j implies grown.players[i]
        != grown.players[j] by {
        if i < v.players.len() {
            assert(v.players.contains(v.players[i]));
        }
        if j < v.players.len() {
            assert(v.players.contains(v.players[j]));
        }
    }
    lemma_advanced(grown);
}

/// A leave keeps a session well-formed and moves its state in order.
pub proof fn lemma_left(v: LobbyView, name: Seq<char>)
    requires
        v.wf(),
    ensures
        v.left(name).wf(),
        v.left(name).players.len() <= v.players.len(),
        in_order(v, v.left(name)),
{
    let shrunk = v.with_players(v.players.remove_value(name));
    lemma_remove_value(v.players, name);
    v.players.index_of_first_ensures(name);
    if v.players.contains(name) {
        assert(shrunk.players.len() < v.players.len());
    } else {
        assert(shrunk.players == v.players);
    }
    lemma_advanced(shrunk);
}

/// A board that is sent keeps a playing session well-formed and in its
/// state, with the same players and a board for each of them and for nobody
/// else.
pub proof fn lemma_updated(v: LobbyView, name: Seq<char>, board: BoardView)
    requires
        v.wf(),
        v.update_error() is None,
    ensures
        v.updated(name, board).wf(),
        v.updated(name, board).state is Playing,
        v.updated(name, board).players == v.players,
        v.updated(name, board).state->boards.dom() == v.state->boards.dom(),
        forall|n: Seq<char>|
            v.players.contains(n) <==> #[trigger] v.updated(name, board).state->boards.contains_key(
                n,
            ),
        v.players.contains(name) ==> v.updated(name, board) == v.with_board(name, board),
        !v.players.contains(name) ==> v.updated(name, board) == v,
        in_order(v, v.updated(name, board)),
{
    if v.players.contains(name) {
        let changed = v.with_board(name, board);
        assert(v.state->boards.contains_key(name));
        assert forall|n: Seq<char>|
            changed.players.contains(n) <==> #[trigger] changed.state->boards.contains_key(n) by {
            assert(v.players.contains(n) <==> v.state->boards.contains_key(n));
        }
        lemma_advanced(changed);
        assert(changed.state->boards.dom() =~= v.state->boards.dom());
    }
}

/// One session.
#[derive(Debug, PartialEq, Eq)]
pub struct Lobby {
    code: String,
    players: Vec<String>,
    game_state: GameState,
}

impl View for Lobby {
    type V = LobbyView;

    closed spec fn view(&self) -> LobbyView {
        LobbyView {
            code: self.code@,
            players: names_view(self.players@),
            state: self.game_state@,
        }
    }
}

impl Clone for Lobby {
    fn clone(&self) -> (copy: Self)
        ensures
            copy@ == self@,
    {
        let players = self.players.clone();
        assert(names_view(players@) =~= names_view(self.players@));
        Lobby { code: self.code.clone(), players, game_state: self.game_state.clone() }
    }
}

impl Lobby {
    /// Roster and state fit: see `LobbyView::wf`.
    pub open spec fn wf(&self) -> bool {
        self@.wf()
    }

    /// A session without players, waiting.
    pub fn new(code: String) -> (lobby: Self)
        ensures
            lobby@ == (LobbyView {
                code: code@,
                players: Seq::empty(),
                state: GameStateView::WaitingForPlayers,
            }),
            lobby.wf(),
    {
        let lobby = Lobby { code, players: Vec::new(), game_state: GameState::WaitingForPlayers };
        assert(names_view(lobby.players@) =~= Seq::<Seq<char>>::empty());
        lobby
    }

    /// The code under which the session is registered.
    pub fn code(&self) -> (code: &String)
        ensures
            code@ == self@.code,
    {
        &self.code
    }

    /// The names of the players, in the order in which they joined.
    pub fn players(&self) -> (players: &Vec<String>)
        ensures
            names_view(players@) == self@.players,
    {
        &self.players
    }

    /// Where the session stands.
    pub fn game_state(&self) -> (state: &GameState)
        ensures
            state@ == self@.state,
    {
        &self.game_state
    }

    /// Addresses `message` to every player.
    pub fn broadcast(&self, message: &ServerToClientMessage) -> (events: Vec<Delivery>)
        ensures
            deliveries_view(events@) == self@.broadcast(message@),
    {
        deliver_to(&self.code, &self.players, message)
    }

    /// Addresses `message` to every player but `filter`.
    pub fn broadcast_except(&self, filter: &String, message: &ServerToClientMessage) -> (events:
        Vec<Delivery>)
        ensures
            deliveries_view(events@) == self@.broadcast_except(filter@, message@),
    {
        let recipients = names_without(&self.players, filter);
        deliver_to(&self.code, &recipients, message)
    }

    /// Lets the state catch up with the roster: a waiting session with
    /// `MAX_PLAYERS` players starts playing, each on an empty board, and a
    /// playing session with fewer ends. Returns what is to be sent.
    pub fn advance_state(&mut self) -> (events: Vec<Delivery>)
        ensures
            final(self)@ == old(self)@.advanced(),
            deliveries_view(events@) == old(self)@.advance_events(),
            old(self)@.roster_ok() ==> final(self).wf() && in_order(old(self)@, final(self)@),
    {
        proof {
            if self@.roster_ok() {
                lemma_advanced(self@);
            }
        }
        match self.game_state {
            GameState::WaitingForPlayers => {
                if self.players.len() == MAX_PLAYERS {
                    let ghost names = names_view(self.players@);
                    let mut board_states = BoardTable::new();
                    let mut i: usize = 0;
                    assert(board_states@ =~= fresh_boards(names.take(0)));
                    while i < self.players.len()
                        invariant
                            i <= self.players.len(),
                            names == names_view(self.players@),
                            board_states@ == fresh_boards(names.take(i as int)),
                        decreases self.players.len() - i,
                    {
                        let board = BoardState::new();
                        board_states.insert(self.players[i].clone(), board);
                        proof {
                            let shorter = names.take(i as int);
                            let longer = names.take(i + 1);
                            assert(longer =~= shorter.push(names[i as int]));
                            assert(longer[i as int] == names[i as int]);
                            assert forall|n: Seq<char>|
                                longer.contains(n) == (shorter.contains(n) || n
                                    == names[i as int]) by {
                                if shorter.contains(n) {
                                    let k = shorter.index_of(n);
                                    assert(longer[k] == n);
                                }
                                if longer.contains(n) {
                                    let k = longer.index_of(n);
                                    if k < i {
                                        assert(shorter[k] == n);
                                    }
                                }
                            }
                            assert(board@ == empty_board());
                            assert(board_states@ =~= fresh_boards(longer));
                        }
                        i += 1;
                    }
                    assert(names.take(i as int) =~= names);
                    self.game_state = GameState::Playing { board_states };
                    self.broadcast(&ServerToClientMessage::GameStart)
                } else {
                    Vec::new()
                }
            },
            GameState::Playing { .. } => {
                if self.players.len() != MAX_PLAYERS {
                    self.game_state = GameState::Ended;
                    self.broadcast(&ServerToClientMessage::GameEnd)
                } else {
                    Vec::new()
                }
            },
            GameState::Ended => Vec::new(),
        }
    }

    /// Whether `name` could join.
    pub fn can_add_player(&self, name: &String) -> (free: bool)
        ensures
            free == (self@.join_error(name@) is None),
    {
        proof {
            names_view(self.players@).index_of_first_ensures(name@);
        }
        self.players.len() < MAX_PLAYERS && find_name(&self.players, name).is_none()
    }

    /// Adds `name` to the roster, announces it to every player, the new one
    /// included, and lets the state catch up. A full session answers
    /// `LobbyFull`, one that has the name `NameTaken`, and neither changes.
    pub fn add_player(&mut self, name: String) -> (result: Result<Vec<Delivery>, LobbyError>)
        ensures
            match result {
                Ok(events) => {
                    &&& old(self)@.join_error(name@) is None
                    &&& final(self)@ == old(self)@.joined(name@)
                    &&& deliveries_view(events@) == old(self)@.join_events(name@)
                },
                Err(error) => {
                    &&& old(self)@.join_error(name@) == Some(error)
                    &&& final(self)@ == old(self)@
                },
            },
            final(self)@.code == old(self)@.code,
            old(self).wf() ==> final(self).wf() && in_order(old(self)@, final(self)@),
    {
        proof {
            names_view(self.players@).index_of_first_ensures(name@);
            if self.wf() && self@.join_error(name@) is None {
                lemma_joined(self@, name@);
            }
        }
        if self.players.len() >= MAX_PLAYERS {
            return Err(LobbyError::LobbyFull);
        }
        if find_name(&self.players, &name).is_some() {
            return Err(LobbyError::NameTaken);
        }
        let ghost before = self.players@;
        self.players.push(name.clone());
        assert(names_view(self.players@) =~= names_view(before).push(name@));
        let mut events = self.broadcast(&ServerToClientMessage::PlayerJoined { name });
        let more = self.advance_state();
        append_deliveries(&mut events, more);
        Ok(events)
    }

    /// Takes `board` as the latest board of player `name`, sends it to every
    /// other player and lets the state catch up. A session that is not
    /// playing answers `GameNotStarted` and does not change. A board under a
    /// name that is not on the roster is passed over: nothing changes and
    /// nothing is sent.
    pub fn update_board(&mut self, name: String, board: BoardState) -> (result: Result<
        Vec<Delivery>,
        LobbyError,
    >)
        ensures
            match result {
                Ok(events) => {
                    &&& old(self)@.update_error() is None
                    &&& final(self)@ == old(self)@.updated(name@, board@)
                    &&& deliveries_view(events@) == old(self)@.update_events(name@, board@)
                },
                Err(error) => {
                    &&& old(self)@.update_error() == Some(error)
                    &&& final(self)@ == old(self)@
                },
            },
            final(self)@.code == old(self)@.code,
            old(self).wf() ==> final(self).wf() && in_order(old(self)@, final(self)@),
    {
        proof {
            if self.wf() && self@.update_error() is None {
                lemma_updated(self@, name@, board@);
            }
        }
        proof {
            names_view(self.players@).index_of_first_ensures(name@);
        }
        let on_roster = find_name(&self.players, &name).is_some();
        match &mut self.game_state {
            GameState::Playing { board_states } => {
                if !on_roster {
                    return Ok(Vec::new());
                }
                board_states.insert(name.clone(), board.clone());
            },
            _ => {
                return Err(LobbyError::GameNotStarted);
            },
        }
        let message = ServerToClientMessage::BoardUpdate { player: name.clone(), board };
        let mut events = self.broadcast_except(&name, &message);
        let more = self.advance_state();
        append_deliveries(&mut events, more);
        Ok(events)
    }

    /// Takes `name` off the roster, announces it to the players that remain
    /// and lets the state catch up.
    pub fn remove_player(&mut self, name: String) -> (events: Vec<Delivery>)
        ensures
            final(self)@ == old(self)@.left(name@),
            deliveries_view(events@) == old(self)@.leave_events(name@),
            final(self)@.code == old(self)@.code,
            old(self).wf() ==> final(self).wf() && in_order(old(self)@, final(self)@),
    {
        proof {
            if self.wf() {
                lemma_left(self@, name@);
            }
        }
        let ghost before = self.players@;
        match find_name(&self.players, &name) {
            Some(i) => {
                self.players.remove(i);
                assert(names_view(self.players@) =~= names_view(before).remove(i as int));
            },
            None => {},
        }
        let mut events = self.broadcast(&ServerToClientMessage::PlayerLeft { name });
        let more = self.advance_state();
        append_deliveries(&mut events, more);
        events
    }
}

} // verus!
