//! The table of sessions: what each command does to the sessions, which
//! reply it earns and which events it asks to be sent.

use vstd::prelude::*;
use crate::board::{BoardState, BoardView};
use crate::code::{generate_code, is_code};
use crate::lobby::{GameStateView, Lobby, LobbyError, LobbyView, MAX_PLAYERS};
use crate::roster::{deliveries_view, Delivery};

verus! {

/// How many codes a new session may draw unless a table is told otherwise.
pub const DEFAULT_DRAW_LIMIT: u64 = 0xffff_ffff_ffff_ffff;

/// What each session of a list is, in order.
pub open spec fn lobby_views(lobbies: Seq<Lobby>) -> Seq<LobbyView> {
    lobbies.map_values(|l: Lobby| l@)
}

/// The codes of the sessions, in order.
pub open spec fn codes(sessions: Seq<LobbyView>) -> Seq<Seq<char>> {
    sessions.map_values(|v: LobbyView| v.code)
}

/// For each session, whether `name` could join it.
pub open spec fn open_to(sessions: Seq<LobbyView>, name: Seq<char>) -> Seq<bool> {
    sessions.map_values(|v: LobbyView| v.join_error(name) is None)
}

/// Every session is well-formed under a well-formed code, and no two
/// sessions share a code.
pub open spec fn sessions_wf(sessions: Seq<LobbyView>) -> bool {
    &&& forall|i: int| 0 <= i < sessions.len() ==> (#[trigger] sessions[i]).wf()
    &&& forall|i: int| 0 <= i < sessions.len() ==> is_code((#[trigger] sessions[i]).code)
    &&& codes(sessions).no_duplicates()
}

/// A session as it is created: no players, waiting.
pub open spec fn new_session(code: Seq<char>) -> LobbyView {
    LobbyView { code, players: Seq::empty(), state: GameStateView::WaitingForPlayers }
}

/// Index of the session registered under `code`.
pub fn find_lobby(lobbies: &Vec<Lobby>, code: &String) -> (found: Option<usize>)
    ensures
        match found {
            Some(i) => i < lobbies.len() && codes(lobby_views(lobbies@)).index_of_first(code@)
                == Some(i as int),
            None => codes(lobby_views(lobbies@)).index_of_first(code@) is None,
        },
{
    let ghost all = codes(lobby_views(lobbies@));
    let mut i: usize = 0;
    while i < lobbies.len()
        invariant
            i <= lobbies.len(),
            all == codes(lobby_views(lobbies@)),
            forall|j: int| 0 <= j < i ==> all[j] != code@,
        decreases lobbies.len() - i,
    {
        if *lobbies[i].code() == *code {
            proof {
                assert(all[i as int] == code@);
                all.index_of_first_ensures(code@);
            }
            return Some(i);
        }
        i += 1;
    }
    proof {
        all.index_of_first_ensures(code@);
    }
    None
}

/// Whether no session is registered under `code`.
pub fn code_is_free(lobbies: &Vec<Lobby>, code: &String) -> (free: bool)
    ensures
        free == !codes(lobby_views(lobbies@)).contains(code@),
{
    proof {
        codes(lobby_views(lobbies@)).index_of_first_ensures(code@);
    }
    find_lobby(lobbies, code).is_none()
}

/// Draws codes until one is free, at most `limit` times. A code that comes
/// back is well-formed and free. With no session registered the first draw
/// is free; otherwise which draws are free is up to the generator.
pub fn generate_lobby_code(lobbies: &Vec<Lobby>, rng: &mut fastrand::Rng, limit: u64) -> (drawn:
    Option<String>)
    ensures
        drawn matches Some(code) ==> is_code(code@) && !codes(lobby_views(lobbies@)).contains(
            code@,
        ),
        limit == 0 ==> drawn is None,
        limit > 0 && lobbies.len() == 0 ==> drawn is Some,
{
    let mut draws: u64 = 0;
    while draws < limit
        invariant
            draws <= limit,
            draws > 0 ==> lobbies.len() > 0,
        decreases limit - draws,
    {
        let code = generate_code(rng);
        if code_is_free(lobbies, &code) {
            return Some(code);
        }
        proof {
            if lobbies.len() == 0 {
                assert(codes(lobby_views(lobbies@)) =~= Seq::<Seq<char>>::empty());
            }
        }
        draws += 1;
    }
    None
}

/// What `Create` does: a new waiting session under a well-formed code that
/// no session had, or `CodesExhausted` and no change.
pub open spec fn create_post(
    before: Seq<LobbyView>,
    after: Seq<LobbyView>,
    reply: Result<Lobby, LobbyError>,
) -> bool {
    match reply {
        Ok(lobby) => {
            &&& is_code(lobby@.code)
            &&& !codes(before).contains(lobby@.code)
            &&& lobby@ == new_session(lobby@.code)
            &&& after == before.push(lobby@)
        },
        Err(error) => error == LobbyError::CodesExhausted && after == before,
    }
}

/// What is owed of the draw for a new session: with no draw allowed the
/// answer is `CodesExhausted`, and with a draw allowed and no session
/// registered the first draw is free, so the answer is a session. Anywhere
/// else the draws decide.
pub open spec fn draw_owed(
    before: Seq<LobbyView>,
    limit: u64,
    reply: Result<Lobby, LobbyError>,
) -> bool {
    &&& limit == 0 ==> reply == Err::<Lobby, LobbyError>(LobbyError::CodesExhausted)
    &&& limit > 0 && before.len() == 0 ==> reply is Ok
}

/// What `Join` does: `LobbyNotFound` for a code that no session has, the
/// session's own refusal where it refuses, and else the join.
pub open spec fn join_post(
    before: Seq<LobbyView>,
    after: Seq<LobbyView>,
    name: Seq<char>,
    code: Seq<char>,
    reply: Result<Lobby, LobbyError>,
    events: Seq<Delivery>,
) -> bool {
    match codes(before).index_of_first(code) {
        None => {
            &&& reply == Err::<Lobby, LobbyError>(LobbyError::LobbyNotFound)
            &&& after == before
            &&& events.len() == 0
        },
        Some(i) => match before[i].join_error(name) {
            Some(error) => {
                &&& reply == Err::<Lobby, LobbyError>(error)
                &&& after == before
                &&& events.len() == 0
            },
            None => {
                &&& reply matches Ok(lobby)
                &&& lobby@ == before[i].joined(name)
                &&& after == before.update(i, before[i].joined(name))
                &&& deliveries_view(events) == before[i].join_events(name)
            },
        },
    }
}

/// What `Find` does: `name` joins the first session that would take it;
/// where there is none, a new session is created and `name` joins that.
pub open spec fn find_post(
    before: Seq<LobbyView>,
    after: Seq<LobbyView>,
    name: Seq<char>,
    reply: Result<Lobby, LobbyError>,
    events: Seq<Delivery>,
) -> bool {
    match open_to(before, name).index_of_first(true) {
        Some(i) => {
            &&& reply matches Ok(lobby)
            &&& lobby@ == before[i].joined(name)
            &&& after == before.update(i, before[i].joined(name))
            &&& deliveries_view(events) == before[i].join_events(name)
        },
        None => match reply {
            Ok(lobby) => {
                &&& is_code(lobby@.code)
                &&& !codes(before).contains(lobby@.code)
                &&& lobby@ == new_session(lobby@.code).joined(name)
                &&& after == before.push(lobby@)
                &&& deliveries_view(events) == new_session(lobby@.code).join_events(name)
            },
            Err(error) => {
                &&& error == LobbyError::CodesExhausted
                &&& after == before
                &&& events.len() == 0
            },
        },
    }
}

/// What `Leave` does: nothing for a code that no session has; else the
/// player leaves, and a session left without players is deleted.
pub open spec fn leave_post(
    before: Seq<LobbyView>,
    after: Seq<LobbyView>,
    name: Seq<char>,
    code: Seq<char>,
    events: Seq<Delivery>,
) -> bool {
    match codes(before).index_of_first(code) {
        None => after == before && events.len() == 0,
        Some(i) => {
            &&& after == if before[i].left(name).players.len() == 0 {
                before.remove(i)
            } else {
                before.update(i, before[i].left(name))
            }
            &&& deliveries_view(events) == before[i].leave_events(name)
        },
    }
}

/// Why `UpdateBoard` is turned down, if it is: `LobbyNotFound` for a code
/// that no session has, `GameNotStarted` for a session that is not playing.
pub open spec fn update_refusal(before: Seq<LobbyView>, code: Seq<char>) -> Option<LobbyError> {
    match codes(before).index_of_first(code) {
        None => Some(LobbyError::LobbyNotFound),
        Some(i) => before[i].update_error(),
    }
}

/// What `UpdateBoard` does: nothing where it is turned down, and else the
/// update, which passes over a board under a name that is not in the
/// session.
pub open spec fn update_post(
    before: Seq<LobbyView>,
    after: Seq<LobbyView>,
    code: Seq<char>,
    name: Seq<char>,
    board: BoardView,
    events: Seq<Delivery>,
) -> bool {
    match update_refusal(before, code) {
        Some(_) => after == before && events.len() == 0,
        None => {
            let i = codes(before).index_of_first(code).unwrap();
            &&& after == before.update(i, before[i].updated(name, board))
            &&& deliveries_view(events) == before[i].update_events(name, board)
        },
    }
}

/// Every session, in the order in which they were created, and the
/// generator that their codes are drawn from.
pub struct Sessions {
    lobbies: Vec<Lobby>,
    rng: fastrand::Rng,
    draw_limit: u64,
}

impl View for Sessions {
    type V = Seq<LobbyView>;

    closed spec fn view(&self) -> Seq<LobbyView> {
        lobby_views(self.lobbies@)
    }
}

impl Sessions {
    /// The sessions are in order: see `sessions_wf`.
    pub open spec fn wf(&self) -> bool {
        sessions_wf(self@)
    }

    /// How many codes a new session may draw.
    pub closed spec fn draw_limit(&self) -> u64 {
        self.draw_limit
    }

    /// A table without sessions that draws codes from `rng`.
    pub fn new(rng: fastrand::Rng) -> (table: Self)
        ensures
            table@ == Seq::<LobbyView>::empty(),
            table.draw_limit() == DEFAULT_DRAW_LIMIT,
            table.wf(),
    {
        Self::with_draw_limit(rng, DEFAULT_DRAW_LIMIT)
    }

    /// A table without sessions that draws at most `draw_limit` codes from
    /// `rng` for a new session.
    pub fn with_draw_limit(rng: fastrand::Rng, draw_limit: u64) -> (table: Self)
        ensures
            table@ == Seq::<LobbyView>::empty(),
            table.draw_limit() == draw_limit,
            table.wf(),
    {
        let table = Sessions { lobbies: Vec::new(), rng, draw_limit };
        assert(table@ =~= Seq::<LobbyView>::empty());
        assert(codes(table@) =~= Seq::<Seq<char>>::empty());
        table
    }

    /// The sessions, in the order in which they were created.
    pub fn lobbies(&self) -> (lobbies: &Vec<Lobby>)
        ensures
            lobby_views(lobbies@) == self@,
    {
        &self.lobbies
    }

    /// Registers a new waiting session under `drawn`, the outcome of a draw.
    fn register(&mut self, drawn: Option<String>) -> (reply: Result<Lobby, LobbyError>)
        requires
            drawn matches Some(code) ==> is_code(code@) && !codes(old(self)@).contains(code@),
        ensures
            match drawn {
                Some(code) => {
                    &&& reply matches Ok(lobby)
                    &&& lobby@ == new_session(code@)
                    &&& final(self)@ == old(self)@.push(new_session(code@))
                },
                None => {
                    &&& reply == Err::<Lobby, LobbyError>(LobbyError::CodesExhausted)
                    &&& final(self)@ == old(self)@
                },
            },
            create_post(old(self)@, final(self)@, reply),
            final(self).draw_limit() == old(self).draw_limit(),
            old(self).wf() ==> final(self).wf(),
    {
        match drawn {
            Some(code) => {
                let lobby = Lobby::new(code);
                let snapshot = lobby.clone();
                let ghost before = self@;
                self.lobbies.push(lobby);
                proof {
                    assert(self@ =~= before.push(lobby@));
                    if sessions_wf(before) {
                        lemma_push_wf(before, lobby@);
                    }
                }
                Ok(snapshot)
            },
            None => Err(LobbyError::CodesExhausted),
        }
    }

    /// Registers a new waiting session under a freshly drawn code.
    pub fn create(&mut self) -> (reply: Result<Lobby, LobbyError>)
        ensures
            create_post(old(self)@, final(self)@, reply),
            draw_owed(old(self)@, old(self).draw_limit(), reply),
            final(self).draw_limit() == old(self).draw_limit(),
            old(self).wf() ==> final(self).wf(),
    {
        let drawn = generate_lobby_code(&self.lobbies, &mut self.rng, self.draw_limit);
        self.register(drawn)
    }

    /// Index of the first session that `name` could join.
    fn find_open(&self, name: &String) -> (found: Option<usize>)
        ensures
            match found {
                Some(i) => i < self.lobbies.len() && open_to(self@, name@).index_of_first(true)
                    == Some(i as int),
                None => open_to(self@, name@).index_of_first(true) is None,
            },
    {
        let ghost open = open_to(self@, name@);
        let mut i: usize = 0;
        while i < self.lobbies.len()
            invariant
                i <= self.lobbies.len(),
                open == open_to(self@, name@),
                forall|j: int| 0 <= j < i ==> !open[j],
            decreases self.lobbies.len() - i,
        {
            if self.lobbies[i].can_add_player(name) {
                proof {
                    assert(open[i as int]);
                    open.index_of_first_ensures(true);
                }
                return Some(i);
            }
            i += 1;
        }
        proof {
            open.index_of_first_ensures(true);
        }
        None
    }

    /// Lets `name` join session `i`.
    fn join_at(&mut self, i: usize, name: String) -> (out: (Result<Lobby, LobbyError>, Vec<Delivery>))
        requires
            i < old(self)@.len(),
        ensures
            final(self).draw_limit() == old(self).draw_limit(),
            match old(self)@[i as int].join_error(name@) {
                Some(error) => {
                    &&& out.0 == Err::<Lobby, LobbyError>(error)
                    &&& final(self)@ == old(self)@
                    &&& out.1@.len() == 0
                },
                None => {
                    &&& out.0 matches Ok(lobby)
                    &&& lobby@ == old(self)@[i as int].joined(name@)
                    &&& final(self)@ == old(self)@.update(i as int, old(self)@[i as int].joined(name@))
                    &&& deliveries_view(out.1@) == old(self)@[i as int].join_events(name@)
                },
            },
            old(self).wf() ==> final(self).wf(),
    {
        let ghost before = self@;
        let result = self.lobbies[i].add_player(name);
        let snapshot = self.lobbies[i].clone();
        proof {
            assert(self@ =~= before.update(i as int, snapshot@));
            if sessions_wf(before) {
                lemma_update_wf(before, i as int, snapshot@);
            }
        }
        match result {
            Ok(events) => (Ok(snapshot), events),
            Err(error) => {
                assert(self@ =~= before);
                (Err(error), Vec::new())
            },
        }
    }

    /// Lets `name` join the session registered under `code`.
    pub fn join(&mut self, name: String, code: String) -> (out: (
        Result<Lobby, LobbyError>,
        Vec<Delivery>,
    ))
        ensures
            join_post(old(self)@, final(self)@, name@, code@, out.0, out.1@),
            final(self).draw_limit() == old(self).draw_limit(),
            old(self).wf() ==> final(self).wf(),
    {
        match find_lobby(&self.lobbies, &code) {
            Some(i) => self.join_at(i, name),
            None => (Err(LobbyError::LobbyNotFound), Vec::new()),
        }
    }

    /// Lets `name` join the first session that would take it, or a new one
    /// where there is none.
    pub fn find(&mut self, name: String) -> (out: (Result<Lobby, LobbyError>, Vec<Delivery>))
        ensures
            find_post(old(self)@, final(self)@, name@, out.0, out.1@),
            open_to(old(self)@, name@).index_of_first(true) is None ==> draw_owed(
                old(self)@,
                old(self).draw_limit(),
                out.0,
            ),
            final(self).draw_limit() == old(self).draw_limit(),
            old(self).wf() ==> final(self).wf(),
    {
        proof {
            open_to(self@, name@).index_of_first_ensures(true);
        }
        match self.find_open(&name) {
            Some(i) => self.join_at(i, name),
            None => {
                let drawn = generate_lobby_code(&self.lobbies, &mut self.rng, self.draw_limit);
                let ghost before = self@;
                match self.register(drawn) {
                    Ok(_) => {
                        assert(self@.len() == before.len() + 1);
                        assert(self.lobbies@.len() == self@.len());
                        let last = self.lobbies.len() - 1;
                        let out = self.join_at(last, name);
                        proof {
                            let created = before.push(new_session(out.0->Ok_0@.code));
                            assert(created.update(last as int, created[last as int].joined(name@))
                                =~= before.push(created[last as int].joined(name@)));
                        }
                        out
                    },
                    Err(error) => (Err(error), Vec::new()),
                }
            },
        }
    }

    /// Takes `name` out of the session registered under `code`, and deletes
    /// the session if no player is left in it.
    pub fn leave(&mut self, name: String, code: String) -> (events: Vec<Delivery>)
        ensures
            leave_post(old(self)@, final(self)@, name@, code@, events@),
            final(self).draw_limit() == old(self).draw_limit(),
            old(self).wf() ==> final(self).wf(),
    {
        match find_lobby(&self.lobbies, &code) {
            Some(i) => {
                let ghost before = self@;
                let events = self.lobbies[i].remove_player(name);
                let ghost left = self.lobbies@[i as int]@;
                proof {
                    assert(self@ =~= before.update(i as int, left));
                    if sessions_wf(before) {
                        lemma_update_wf(before, i as int, left);
                    }
                }
                if self.lobbies[i].players().len() == 0 {
                    self.lobbies.remove(i);
                    proof {
                        assert(self@ =~= before.remove(i as int));
                        if sessions_wf(before) {
                            lemma_remove_wf(before, i as int);
                        }
                    }
                }
                events
            },
            None => Vec::new(),
        }
    }

    /// Takes `board` as the latest board of `name` in the session registered
    /// under `code`.
    pub fn update_board(&mut self, code: String, name: String, board: BoardState) -> (result:
        Result<Vec<Delivery>, LobbyError>)
        ensures
            match result {
                Ok(events) => {
                    &&& update_refusal(old(self)@, code@) is None
                    &&& update_post(old(self)@, final(self)@, code@, name@, board@, events@)
                },
                Err(error) => {
                    &&& update_refusal(old(self)@, code@) == Some(error)
                    &&& final(self)@ == old(self)@
                },
            },
            final(self).draw_limit() == old(self).draw_limit(),
            old(self).wf() ==> final(self).wf(),
    {
        match find_lobby(&self.lobbies, &code) {
            Some(i) => {
                let ghost before = self@;
                let result = self.lobbies[i].update_board(name, board);
                proof {
                    let after = self.lobbies@[i as int]@;
                    assert(self@ =~= before.update(i as int, after));
                    if sessions_wf(before) {
                        lemma_update_wf(before, i as int, after);
                    }
                    if result is Err {
                        assert(self@ =~= before);
                    }
                }
                result
            },
            None => Err(LobbyError::LobbyNotFound),
        }
    }

}

/// A well-formed session under a well-formed code that no session has can
/// be registered.
pub proof fn lemma_push_wf(sessions: Seq<LobbyView>, session: LobbyView)
    requires
        sessions_wf(sessions),
        session.wf(),
        is_code(session.code),
        !codes(sessions).contains(session.code),
    ensures
        sessions_wf(sessions.push(session)),
{
    let after = sessions.push(session);
    assert(codes(after) =~= codes(sessions).push(session.code));
    assert forall|i: int, j: int|
        0 <= i < codes(after).len() && 0 <= j < codes(after).len() && i != j implies codes(after)[i]
        != codes(after)[j] by {
        if i < sessions.len() {
            assert(codes(sessions).contains(codes(sessions)[i]));
        }
        if j < sessions.len() {
            assert(codes(sessions).contains(codes(sessions)[j]));
        }
    }
}

/// A session may be replaced by a well-formed one under the same code.
pub proof fn lemma_update_wf(sessions: Seq<LobbyView>, i: int, session: LobbyView)
    requires
        sessions_wf(sessions),
        0 <= i < sessions.len(),
        session.wf(),
        session.code == sessions[i].code,
    ensures
        sessions_wf(sessions.update(i, session)),
{
    let after = sessions.update(i, session);
    assert(codes(after) =~= codes(sessions));
}

/// A session may be deleted.
pub proof fn lemma_remove_wf(sessions: Seq<LobbyView>, i: int)
    requires
        sessions_wf(sessions),
        0 <= i < sessions.len(),
    ensures
        sessions_wf(sessions.remove(i)),
{
    let after = sessions.remove(i);
    assert forall|k: int| 0 <= k < after.len() implies #[trigger] after[k] == sessions[if k < i {
        k
    } else {
        k + 1
    }] by {}
    assert forall|a: int, b: int|
        0 <= a < codes(after).len() && 0 <= b < codes(after).len() && a != b implies codes(after)[a]
        != codes(after)[b] by {
        let a0 = if a < i { a } else { a + 1 };
        let b0 = if b < i { b } else { b + 1 };
        assert(codes(after)[a] == codes(sessions)[a0]);
        assert(codes(after)[b] == codes(sessions)[b0]);
    }
}

/// At any time no two registered sessions share a code.
pub proof fn law_codes_unique(sessions: Seq<LobbyView>, i: int, j: int)
    requires
        sessions_wf(sessions),
        0 <= i < sessions.len(),
        0 <= j < sessions.len(),
        i != j,
    ensures
        sessions[i].code != sessions[j].code,
{
    assert(codes(sessions)[i] == sessions[i].code);
    assert(codes(sessions)[j] == sessions[j].code);
}

/// At any time no registered session has more than `MAX_PLAYERS` players.
pub proof fn law_roster_bounded(sessions: Seq<LobbyView>, i: int)
    requires
        sessions_wf(sessions),
        0 <= i < sessions.len(),
    ensures
        sessions[i].players.len() <= MAX_PLAYERS,
{
}

} // verus!
