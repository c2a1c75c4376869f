//! The coordinator: the one owner of every session and of the queue on which
//! each connected player takes events. It carries out one command at a time:
//! it changes the sessions, sends the events that follow, and replies.

use vstd::prelude::*;
use crate::board::{BoardState, BoardView};
use crate::game::ServerToClientMessage;
use crate::lobby::{Lobby, LobbyError, LobbyView};
use crate::roster::{lemma_remove_value, Delivery};
use crate::sessions::{
    codes, create_post, draw_owed, find_post, join_post, leave_post, lobby_views, open_to,
    sessions_wf, update_post, update_refusal, Sessions, DEFAULT_DRAW_LIMIT,
};

verus! {

/// `tokio::sync::mpsc::Sender`, the sending half of a bounded queue. Nothing
/// is said of what it holds; it is kept and handed on to `offer`.
#[verifier::external_type_specification]
#[verifier::external_body]
#[verifier::reject_recursive_types(T)]
pub struct ExSender<T>(tokio::sync::mpsc::Sender<T>);

/// `tokio::sync::oneshot::Sender`, the sending half of a slot for one value.
/// Nothing is said of what it holds; it is kept and handed on to `answer`.
#[verifier::external_type_specification]
#[verifier::external_body]
#[verifier::reject_recursive_types(T)]
pub struct ExReplySender<T>(tokio::sync::oneshot::Sender<T>);

/// `tokio::sync::mpsc::Sender::try_send`: puts the event on the queue unless
/// the queue is full or its receiver is gone, without waiting, and says
/// whether it did. Nothing is promised of the answer: it depends on the
/// queue, which is shared with its reader.
#[verifier::external_body]
fn offer(
    socket: &tokio::sync::mpsc::Sender<ServerToClientMessage>,
    message: ServerToClientMessage,
) -> (taken: bool) {
    socket.try_send(message).is_ok()
}

/// `tokio::sync::oneshot::Sender::send`: puts the reply in the slot unless
/// its receiver is gone, and says whether it did. Nothing is promised of the
/// answer: it depends on whether the caller still waits.
#[verifier::external_body]
fn answer(
    slot: tokio::sync::oneshot::Sender<Result<Lobby, LobbyError>>,
    reply: Result<Lobby, LobbyError>,
) -> (taken: bool) {
    slot.send(reply).is_ok()
}

/// A command for the coordinator. A join brings the queue on which the
/// player takes events.
#[derive(Debug)]
pub enum LobbyMessageInner {
    Create,
    Find { name: String },
    Join { name: String, code: String, socket: tokio::sync::mpsc::Sender<ServerToClientMessage> },
    Leave { name: String, code: String },
    UpdateBoard { code: String, name: String, board: BoardState },
}

/// A command together with the slot for its reply.
#[derive(Debug)]
pub struct LobbyMessage {
    pub reply_channel: tokio::sync::oneshot::Sender<Result<Lobby, LobbyError>>,
    pub message: LobbyMessageInner,
}

/// What a command says, without the queue that a join brings.
pub enum CommandView {
    Create,
    Find { name: Seq<char> },
    Join { name: Seq<char>, code: Seq<char> },
    Leave { name: Seq<char>, code: Seq<char> },
    UpdateBoard { code: Seq<char>, name: Seq<char>, board: BoardView },
}

impl View for LobbyMessageInner {
    type V = CommandView;

    open spec fn view(&self) -> CommandView {
        match self {
            LobbyMessageInner::Create => CommandView::Create,
            LobbyMessageInner::Find { name } => CommandView::Find { name: name@ },
            LobbyMessageInner::Join { name, code, socket } => CommandView::Join {
                name: name@,
                code: code@,
            },
            LobbyMessageInner::Leave { name, code } => CommandView::Leave {
                name: name@,
                code: code@,
            },
            LobbyMessageInner::UpdateBoard { code, name, board } => CommandView::UpdateBoard {
                code: code@,
                name: name@,
                board: board@,
            },
        }
    }
}

/// What became of an event that was to be sent.
#[derive(Clone, Copy, Debug, PartialEq, Eq, Structural)]
pub enum Fate {
    /// Its recipient has no queue with the coordinator.
    NotConnected,
    /// The recipient's queue took it.
    Taken,
    /// The recipient's queue was full or closed. This event is lost; those
    /// that the queue took before stay in it.
    Lost,
}

/// What the coordinator did with a command: the reply, if the command has
/// one, the events that followed, and for each of them what became of it.
#[derive(Debug, PartialEq, Eq)]
pub struct Outcome {
    pub reply: Option<Result<Lobby, LobbyError>>,
    pub deliveries: Vec<Delivery>,
    pub fates: Vec<Fate>,
}

/// The queue of one player of one session.
#[derive(Debug)]
pub struct Sink {
    pub code: String,
    pub name: String,
    pub socket: tokio::sync::mpsc::Sender<ServerToClientMessage>,
}

/// Session code and name of each player that has a queue, in order.
pub open spec fn sink_keys(sinks: Seq<Sink>) -> Seq<(Seq<char>, Seq<char>)> {
    sinks.map_values(|s: Sink| (s.code@, s.name@))
}

/// Session `i` has code `code` and a player `name`.
pub open spec fn member_at(
    sessions: Seq<LobbyView>,
    i: int,
    code: Seq<char>,
    name: Seq<char>,
) -> bool {
    0 <= i < sessions.len() && sessions[i].code == code && sessions[i].players.contains(name)
}

/// Some session has code `code` and a player `name`.
pub open spec fn is_member(sessions: Seq<LobbyView>, code: Seq<char>, name: Seq<char>) -> bool {
    exists|i: int| member_at(sessions, i, code, name)
}

/// No player has two queues, and every queue is that of a player of a
/// registered session.
pub open spec fn sinks_wf(
    sessions: Seq<LobbyView>,
    connected: Seq<(Seq<char>, Seq<char>)>,
) -> bool {
    &&& connected.no_duplicates()
    &&& forall|k: int|
        0 <= k < connected.len() ==> is_member(
            sessions,
            (#[trigger] connected[k]).0,
            connected[k].1,
        )
}

/// `keys` with `key` at the end unless it is there already.
pub open spec fn with_key(
    keys: Seq<(Seq<char>, Seq<char>)>,
    key: (Seq<char>, Seq<char>),
) -> Seq<(Seq<char>, Seq<char>)> {
    if keys.contains(key) {
        keys
    } else {
        keys.push(key)
    }
}

/// What a command does to the sessions, which reply it earns and which
/// events follow, where a new session may draw `limit` codes: `Create`,
/// `Find` and `Join` are replied to, `Leave` and `UpdateBoard` are not.
pub open spec fn handle_post(
    before: Seq<LobbyView>,
    after: Seq<LobbyView>,
    limit: u64,
    message: CommandView,
    reply: Option<Result<Lobby, LobbyError>>,
    events: Seq<Delivery>,
) -> bool {
    match message {
        CommandView::Create => {
            &&& reply matches Some(created)
            &&& create_post(before, after, created)
            &&& draw_owed(before, limit, created)
            &&& events.len() == 0
        },
        CommandView::Find { name } => {
            &&& reply matches Some(found)
            &&& find_post(before, after, name, found, events)
            &&& open_to(before, name).index_of_first(true) is None ==> draw_owed(
                before,
                limit,
                found,
            )
        },
        CommandView::Join { name, code } => {
            &&& reply matches Some(joined)
            &&& join_post(before, after, name, code, joined, events)
        },
        CommandView::Leave { name, code } => {
            &&& reply is None
            &&& leave_post(before, after, name, code, events)
        },
        CommandView::UpdateBoard { code, name, board } => {
            &&& reply is None
            &&& update_post(before, after, code, name, board, events)
        },
    }
}

/// Who has a queue after a command: a join that succeeds brings one, a leave
/// takes one away, and nothing else changes them.
pub open spec fn connected_after(
    before: Seq<(Seq<char>, Seq<char>)>,
    message: CommandView,
    reply: Option<Result<Lobby, LobbyError>>,
) -> Seq<(Seq<char>, Seq<char>)> {
    match message {
        CommandView::Join { name, code } => if reply matches Some(Ok(_)) {
            with_key(before, (code, name))
        } else {
            before
        },
        CommandView::Leave { name, code } => before.remove_value((code, name)),
        _ => before,
    }
}

/// Each event has a fate, and it is `NotConnected` exactly for the events
/// whose recipient has no queue.
pub open spec fn fates_fit(
    connected: Seq<(Seq<char>, Seq<char>)>,
    events: Seq<Delivery>,
    fates: Seq<Fate>,
) -> bool {
    &&& fates.len() == events.len()
    &&& forall|i: int|
        0 <= i < fates.len() ==> ((#[trigger] fates[i]) is NotConnected <==> !connected.contains(
            (events[i].code@, events[i].recipient@),
        ))
}

/// Queues stay in order when every player stays a player.
pub proof fn lemma_members_kept(
    before: Seq<LobbyView>,
    after: Seq<LobbyView>,
    connected: Seq<(Seq<char>, Seq<char>)>,
)
    requires
        sinks_wf(before, connected),
        forall|code: Seq<char>, name: Seq<char>| #[trigger]
            is_member(before, code, name) ==> is_member(after, code, name),
    ensures
        sinks_wf(after, connected),
{
}

/// A new session takes no player out of a session.
pub proof fn lemma_push_members(before: Seq<LobbyView>, session: LobbyView)
    ensures
        forall|code: Seq<char>, name: Seq<char>| #[trigger]
            is_member(before, code, name) ==> is_member(before.push(session), code, name),
{
    let after = before.push(session);
    assert forall|code: Seq<char>, name: Seq<char>| #[trigger]
        is_member(before, code, name) implies is_member(after, code, name) by {
        let i = choose|i: int| member_at(before, i, code, name);
        assert(member_at(after, i, code, name));
    }
}

/// A session that is replaced by one with the same code and no player less
/// takes no player out of a session, and its players are players.
pub proof fn lemma_update_members(before: Seq<LobbyView>, at: int, session: LobbyView)
    requires
        0 <= at < before.len(),
        session.code == before[at].code,
        forall|name: Seq<char>|
            before[at].players.contains(name) ==> #[trigger] session.players.contains(name),
    ensures
        forall|code: Seq<char>, name: Seq<char>| #[trigger]
            is_member(before, code, name) ==> is_member(before.update(at, session), code, name),
        forall|name: Seq<char>|
            session.players.contains(name) ==> #[trigger] is_member(
                before.update(at, session),
                session.code,
                name,
            ),
{
    let after = before.update(at, session);
    assert forall|code: Seq<char>, name: Seq<char>| #[trigger]
        is_member(before, code, name) implies is_member(after, code, name) by {
        let i = choose|i: int| member_at(before, i, code, name);
        assert(member_at(after, i, code, name));
    }
    assert forall|name: Seq<char>| session.players.contains(name) implies #[trigger] is_member(
        after,
        session.code,
        name,
    ) by {
        assert(member_at(after, at, session.code, name));
    }
}

/// The players of a session after a join: those before, and the new one.
pub proof fn lemma_joined_players(v: LobbyView, name: Seq<char>)
    ensures
        v.joined(name).code == v.code,
        v.joined(name).players == v.players.push(name),
        v.joined(name).players.contains(name),
        forall|n: Seq<char>|
            v.players.contains(n) ==> #[trigger] v.joined(name).players.contains(n),
{
    let grown = v.players.push(name);
    assert(grown[v.players.len() as int] == name);
    assert forall|n: Seq<char>| v.players.contains(n) implies #[trigger] grown.contains(n) by {
        let i = v.players.index_of(n);
        assert(grown[i] == n);
    }
}

/// A queue may be added for a player of a registered session.
pub proof fn lemma_with_key_wf(
    sessions: Seq<LobbyView>,
    connected: Seq<(Seq<char>, Seq<char>)>,
    key: (Seq<char>, Seq<char>),
)
    requires
        sinks_wf(sessions, connected),
        is_member(sessions, key.0, key.1),
    ensures
        sinks_wf(sessions, with_key(connected, key)),
{
    if !connected.contains(key) {
        let after = connected.push(key);
        assert forall|a: int, b: int|
            0 <= a < after.len() && 0 <= b < after.len() && a != b implies after[a]
            != after[b] by {
            if a < connected.len() {
                assert(connected.contains(connected[a]));
            }
            if b < connected.len() {
                assert(connected.contains(connected[b]));
            }
        }
    }
}

/// After a leave and with the leaver's queue gone, every queue is still
/// that of a player of a registered session.
pub proof fn lemma_leave_sinks(
    before: Seq<LobbyView>,
    after: Seq<LobbyView>,
    name: Seq<char>,
    code: Seq<char>,
    events: Seq<Delivery>,
    connected: Seq<(Seq<char>, Seq<char>)>,
)
    requires
        sessions_wf(before),
        sinks_wf(before, connected),
        leave_post(before, after, name, code, events),
    ensures
        sinks_wf(after, connected.remove_value((code, name))),
{
    let key = (code, name);
    let rest = connected.remove_value(key);
    lemma_remove_value(connected, key);
    codes(before).index_of_first_ensures(code);
    assert forall|k: int| 0 <= k < rest.len() implies is_member(
        after,
        (#[trigger] rest[k]).0,
        rest[k].1,
    ) by {
        let c = rest[k].0;
        let n = rest[k].1;
        assert(rest.contains(rest[k]));
        assert(connected.contains(rest[k]));
        let at = connected.index_of(rest[k]);
        assert(is_member(before, connected[at].0, connected[at].1));
        let j = choose|j: int| member_at(before, j, c, n);
        match codes(before).index_of_first(code) {
            None => {
                assert(member_at(after, j, c, n));
            },
            Some(i) => {
                let left = before[i].left(name);
                assert(codes(before)[i] == before[i].code);
                assert(codes(before)[j] == before[j].code);
                if j == i {
                    assert(n != name);
                    lemma_remove_value(before[i].players, name);
                    assert(left.players.contains(n));
                    assert(left.players.len() > 0);
                    assert(member_at(after, i, c, n));
                } else if left.players.len() == 0 {
                    let moved = if j < i {
                        j
                    } else {
                        j - 1
                    };
                    assert(after[moved] == before[j]);
                    assert(member_at(after, moved, c, n));
                } else {
                    assert(member_at(after, j, c, n));
                }
            },
        }
    }
}

/// The owner of every session and of every player's queue.
pub struct Coordinator {
    sessions: Sessions,
    sinks: Vec<Sink>,
}

impl View for Coordinator {
    type V = Seq<LobbyView>;

    closed spec fn view(&self) -> Seq<LobbyView> {
        self.sessions@
    }
}

impl Coordinator {
    /// Session code and name of each player that has a queue.
    pub closed spec fn connected(&self) -> Seq<(Seq<char>, Seq<char>)> {
        sink_keys(self.sinks@)
    }

    /// How many codes a new session may draw.
    pub closed spec fn draw_limit(&self) -> u64 {
        self.sessions.draw_limit()
    }

    /// The sessions are in order, and so are the queues.
    pub open spec fn wf(&self) -> bool {
        sessions_wf(self@) && sinks_wf(self@, self.connected())
    }

    /// A coordinator without sessions that draws codes from `rng`.
    pub fn new(rng: fastrand::Rng) -> (coordinator: Self)
        ensures
            coordinator@ == Seq::<LobbyView>::empty(),
            coordinator.connected() == Seq::<(Seq<char>, Seq<char>)>::empty(),
            coordinator.draw_limit() == DEFAULT_DRAW_LIMIT,
            coordinator.wf(),
    {
        Self::with_draw_limit(rng, DEFAULT_DRAW_LIMIT)
    }

    /// A coordinator without sessions that draws at most `draw_limit` codes
    /// from `rng` for a new session.
    pub fn with_draw_limit(rng: fastrand::Rng, draw_limit: u64) -> (coordinator: Self)
        ensures
            coordinator@ == Seq::<LobbyView>::empty(),
            coordinator.connected() == Seq::<(Seq<char>, Seq<char>)>::empty(),
            coordinator.draw_limit() == draw_limit,
            coordinator.wf(),
    {
        let coordinator = Coordinator {
            sessions: Sessions::with_draw_limit(rng, draw_limit),
            sinks: Vec::new(),
        };
        assert(coordinator.connected() =~= Seq::<(Seq<char>, Seq<char>)>::empty());
        coordinator
    }

    /// The sessions, in the order in which they were created.
    pub fn lobbies(&self) -> (lobbies: &Vec<Lobby>)
        ensures
            lobby_views(lobbies@) == self@,
    {
        self.sessions.lobbies()
    }

    /// Index of the queue of player `name` of session `code`.
    fn find_sink(&self, code: &String, name: &String) -> (found: Option<usize>)
        ensures
            match found {
                Some(i) => i < self.sinks.len() && self.connected().index_of_first((code@, name@))
                    == Some(i as int),
                None => self.connected().index_of_first((code@, name@)) is None,
            },
    {
        let ghost keys = self.connected();
        let mut i: usize = 0;
        while i < self.sinks.len()
            invariant
                i <= self.sinks.len(),
                keys == sink_keys(self.sinks@),
                forall|j: int| 0 <= j < i ==> keys[j] != (code@, name@),
            decreases self.sinks.len() - i,
        {
            if self.sinks[i].code == *code && self.sinks[i].name == *name {
                proof {
                    assert(keys[i as int] == (code@, name@));
                    keys.index_of_first_ensures((code@, name@));
                }
                return Some(i);
            }
            i += 1;
        }
        proof {
            keys.index_of_first_ensures((code@, name@));
        }
        None
    }

    /// Whether player `name` of session `code` has a queue.
    pub fn is_connected(&self, code: &String, name: &String) -> (connected: bool)
        ensures
            connected == self.connected().contains((code@, name@)),
    {
        proof {
            self.connected().index_of_first_ensures((code@, name@));
        }
        self.find_sink(code, name).is_some()
    }

    /// Makes `socket` the queue of player `name` of session `code`.
    fn attach(
        &mut self,
        code: String,
        name: String,
        socket: tokio::sync::mpsc::Sender<ServerToClientMessage>,
    )
        ensures
            final(self)@ == old(self)@,
            final(self).draw_limit() == old(self).draw_limit(),
            final(self).connected() == with_key(old(self).connected(), (code@, name@)),
    {
        let ghost keys = self.connected();
        proof {
            keys.index_of_first_ensures((code@, name@));
        }
        match self.find_sink(&code, &name) {
            Some(i) => {
                self.sinks.set(i, Sink { code, name, socket });
                assert(self.connected() =~= keys);
            },
            None => {
                self.sinks.push(Sink { code, name, socket });
                assert(self.connected() =~= keys.push((code@, name@)));
            },
        }
    }

    /// Takes away the queue of player `name` of session `code`.
    fn detach(&mut self, code: &String, name: &String)
        ensures
            final(self)@ == old(self)@,
            final(self).draw_limit() == old(self).draw_limit(),
            final(self).connected() == old(self).connected().remove_value((code@, name@)),
    {
        let ghost keys = self.connected();
        match self.find_sink(code, name) {
            Some(i) => {
                self.sinks.remove(i);
                assert(self.connected() =~= keys.remove(i as int));
            },
            None => {},
        }
    }

    /// Registers a new waiting session under a freshly drawn code.
    pub fn create(&mut self) -> (reply: Result<Lobby, LobbyError>)
        ensures
            create_post(old(self)@, final(self)@, reply),
            draw_owed(old(self)@, old(self).draw_limit(), reply),
            final(self).connected() == old(self).connected(),
            final(self).draw_limit() == old(self).draw_limit(),
            old(self).wf() ==> final(self).wf(),
    {
        let ghost before = self@;
        let reply = self.sessions.create();
        proof {
            if reply is Ok && sinks_wf(before, self.connected()) {
                lemma_push_members(before, reply->Ok_0@);
                lemma_members_kept(before, self@, self.connected());
            }
        }
        reply
    }

    /// Lets `name` join the first session that would take it, or a new one
    /// where there is none. The player gets no queue by this.
    pub fn find(&mut self, name: String) -> (out: (Result<Lobby, LobbyError>, Vec<Delivery>))
        ensures
            find_post(old(self)@, final(self)@, name@, out.0, out.1@),
            open_to(old(self)@, name@).index_of_first(true) is None ==> draw_owed(
                old(self)@,
                old(self).draw_limit(),
                out.0,
            ),
            final(self).connected() == old(self).connected(),
            final(self).draw_limit() == old(self).draw_limit(),
            old(self).wf() ==> final(self).wf(),
    {
        let ghost before = self@;
        let out = self.sessions.find(name);
        proof {
            if out.0 is Ok && sinks_wf(before, self.connected()) {
                let lobby = out.0->Ok_0@;
                open_to(before, name@).index_of_first_ensures(true);
                match open_to(before, name@).index_of_first(true) {
                    Some(i) => {
                        lemma_joined_players(before[i], name@);
                        lemma_update_members(before, i, lobby);
                    },
                    None => {
                        lemma_push_members(before, lobby);
                    },
                }
                lemma_members_kept(before, self@, self.connected());
            }
        }
        out
    }

    /// Lets `name` join the session registered under `code`, and on success
    /// makes `socket` the player's queue.
    pub fn join(
        &mut self,
        name: String,
        code: String,
        socket: tokio::sync::mpsc::Sender<ServerToClientMessage>,
    ) -> (out: (Result<Lobby, LobbyError>, Vec<Delivery>))
        ensures
            join_post(old(self)@, final(self)@, name@, code@, out.0, out.1@),
            final(self).connected() == if out.0 is Ok {
                with_key(old(self).connected(), (code@, name@))
            } else {
                old(self).connected()
            },
            final(self).draw_limit() == old(self).draw_limit(),
            old(self).wf() ==> final(self).wf(),
    {
        let ghost before = self@;
        let ghost connected = self.connected();
        let out = self.sessions.join(name.clone(), code.clone());
        if out.0.is_ok() {
            proof {
                codes(before).index_of_first_ensures(code@);
                let i = codes(before).index_of_first(code@).unwrap();
                assert(codes(before)[i] == before[i].code);
                lemma_joined_players(before[i], name@);
                lemma_update_members(before, i, before[i].joined(name@));
                if sinks_wf(before, connected) {
                    lemma_members_kept(before, self@, connected);
                    lemma_with_key_wf(self@, connected, (code@, name@));
                }
            }
            self.attach(code, name, socket);
        }
        out
    }

    /// Takes `name` out of the session registered under `code`, deletes the
    /// session if no player is left in it, and takes away the player's queue.
    pub fn leave(&mut self, name: String, code: String) -> (events: Vec<Delivery>)
        ensures
            leave_post(old(self)@, final(self)@, name@, code@, events@),
            final(self).connected() == old(self).connected().remove_value((code@, name@)),
            final(self).draw_limit() == old(self).draw_limit(),
            old(self).wf() ==> final(self).wf(),
    {
        let ghost before = self@;
        let ghost connected = self.connected();
        self.detach(&code, &name);
        let events = self.sessions.leave(name, code);
        proof {
            if sessions_wf(before) && sinks_wf(before, connected) {
                lemma_leave_sinks(before, self@, name@, code@, events@, connected);
            }
        }
        events
    }

    /// Takes `board` as the latest board of `name` in the session registered
    /// under `code`.
    pub fn update_board(&mut self, code: String, name: String, board: BoardState) -> (result:
        Result<Vec<Delivery>, LobbyError>)
        ensures
            match result {
                Ok(events) => {
                    &&& update_refusal(old(self)@, code@) is None
                    &&& update_post(old(self)@, final(self)@, code@, name@, board@, events@)
                },
                Err(error) => {
                    &&& update_refusal(old(self)@, code@) == Some(error)
                    &&& final(self)@ == old(self)@
                },
            },
            final(self).connected() == old(self).connected(),
            final(self).draw_limit() == old(self).draw_limit(),
            old(self).wf() ==> final(self).wf(),
    {
        let ghost before = self@;
        let result = self.sessions.update_board(code, name, board);
        proof {
            if result is Ok && sinks_wf(before, self.connected()) {
                codes(before).index_of_first_ensures(code@);
                let i = codes(before).index_of_first(code@).unwrap();
                lemma_update_members(before, i, before[i].updated(name@, board@));
                lemma_members_kept(before, self@, self.connected());
            }
        }
        result
    }

    /// Offers each event to the queue of its recipient, in order and without
    /// waiting. An event whose recipient has no queue, or whose queue is full
    /// or closed, is lost.
    pub fn dispatch(&self, events: &Vec<Delivery>) -> (fates: Vec<Fate>)
        ensures
            fates_fit(self.connected(), events@, fates@),
    {
        let mut fates: Vec<Fate> = Vec::new();
        let mut i: usize = 0;
        while i < events.len()
            invariant
                i <= events.len(),
                fates_fit(self.connected(), events@.take(i as int), fates@),
            decreases events.len() - i,
        {
            proof {
                self.connected().index_of_first_ensures(
                    (events@[i as int].code@, events@[i as int].recipient@),
                );
            }
            let fate = match self.find_sink(&events[i].code, &events[i].recipient) {
                Some(at) => if offer(&self.sinks[at].socket, events[i].message.clone()) {
                    Fate::Taken
                } else {
                    Fate::Lost
                },
                None => Fate::NotConnected,
            };
            fates.push(fate);
            i += 1;
        }
        assert(events@.take(i as int) =~= events@);
        fates
    }

    /// Carries out one command: changes the sessions and the queues, and
    /// offers the events that follow to their recipients.
    pub fn handle(&mut self, message: LobbyMessageInner) -> (outcome: Outcome)
        ensures
            handle_post(
                old(self)@,
                final(self)@,
                old(self).draw_limit(),
                message@,
                outcome.reply,
                outcome.deliveries@,
            ),
            final(self).connected() == connected_after(
                old(self).connected(),
                message@,
                outcome.reply,
            ),
            fates_fit(final(self).connected(), outcome.deliveries@, outcome.fates@),
            final(self).draw_limit() == old(self).draw_limit(),
            old(self).wf() ==> final(self).wf(),
    {
        let (reply, deliveries) = match message {
            LobbyMessageInner::Create => (Some(self.create()), Vec::new()),
            LobbyMessageInner::Find { name } => {
                let (reply, deliveries) = self.find(name);
                (Some(reply), deliveries)
            },
            LobbyMessageInner::Join { name, code, socket } => {
                let (reply, deliveries) = self.join(name, code, socket);
                (Some(reply), deliveries)
            },
            LobbyMessageInner::Leave { name, code } => (None, self.leave(name, code)),
            LobbyMessageInner::UpdateBoard { code, name, board } => {
                match self.update_board(code, name, board) {
                    Ok(deliveries) => (None, deliveries),
                    Err(_) => (None, Vec::new()),
                }
            },
        };
        let fates = self.dispatch(&deliveries);
        Outcome { reply, deliveries, fates }
    }

    /// Carries out one command and puts its reply, if it has one, in the
    /// slot that came with it.
    pub fn process(&mut self, message: LobbyMessage) -> (outcome: Outcome)
        ensures
            handle_post(
                old(self)@,
                final(self)@,
                old(self).draw_limit(),
                message.message@,
                outcome.reply,
                outcome.deliveries@,
            ),
            final(self).connected() == connected_after(
                old(self).connected(),
                message.message@,
                outcome.reply,
            ),
            fates_fit(final(self).connected(), outcome.deliveries@, outcome.fates@),
            final(self).draw_limit() == old(self).draw_limit(),
            old(self).wf() ==> final(self).wf(),
    {
        let LobbyMessage { reply_channel, message } = message;
        let outcome = self.handle(message);
        match &outcome.reply {
            Some(Ok(lobby)) => {
                answer(reply_channel, Ok(lobby.clone()));
            },
            Some(Err(error)) => {
                answer(reply_channel, Err(*error));
            },
            None => {},
        }
        outcome
    }
}

} // verus!
