//! The session manager: it creates sessions, each a game controller with its
//! turn barrier, hands out their identifiers, and answers status queries.
//! Sessions are never removed; a finished one stays queryable.

use vstd::prelude::*;

use crate::barrier::{without, TurnBarrier};
use crate::game::{state_messages, turn_messages, next_world, PlanetWarsGame, PlayerMsg, Summary};
use crate::protocol::{host_msgs_view, HostMsg, HostMsgView};
use crate::rules::living;

verus! {

/// One session: its identifier, its game, and the barrier gathering its inputs.
pub struct Session {
    pub id: u64,
    pub game: PlanetWarsGame,
    pub barrier: TurnBarrier,
}

/// All sessions of this server.
pub struct SessionManager {
    pub sessions: Vec<Session>,
    /// The identifier that the next session receives.
    pub next_id: u64,
}

/// What is known of a session.
pub enum SessionLookup {
    /// The game runs on the named map.
    Running(String),
    /// The game is over.
    Finished(Summary),
    /// No session was ever registered under the identifier.
    Unknown,
}

/// Some session of `s` has identifier `id`.
pub open spec fn has_session(s: Seq<Session>, id: u64) -> bool {
    exists|i: int| 0 <= i < s.len() && (#[trigger] s[i]).id == id
}

/// The position of the session with identifier `id`.
pub open spec fn session_index(s: Seq<Session>, id: u64) -> int {
    choose|i: int| 0 <= i < s.len() && (#[trigger] s[i]).id == id
}

/// The barrier slots once every player kicked in `msgs` has left.
pub open spec fn drop_kicked(slots: Seq<(u64, Option<String>)>, msgs: Seq<HostMsgView>) -> Seq<(u64, Option<String>)>
    decreases msgs.len(),
{
    if msgs.len() == 0 {
        slots
    } else {
        let r = drop_kicked(slots, msgs.drop_last());
        match msgs.last() {
            HostMsgView::Kick(p) => without(r, p),
            _ => r,
        }
    }
}

impl SessionManager {
    /// Identifiers are unique and below the next one; every game and barrier
    /// is well formed.
    pub open spec fn wf(&self) -> bool {
        &&& forall|i: int| 0 <= i < self.sessions@.len() ==> (#[trigger] self.sessions@[i]).id < self.next_id
        &&& forall|i: int, j: int|
            0 <= i < self.sessions@.len() && 0 <= j < self.sessions@.len() && i != j
                ==> (#[trigger] self.sessions@[i]).id != (#[trigger] self.sessions@[j]).id
        &&& forall|i: int| 0 <= i < self.sessions@.len() ==> {
            &&& (#[trigger] self.sessions@[i]).game.state@.wf()
            &&& self.sessions@[i].barrier.wf()
        }
    }

    /// A manager without sessions.
    pub fn new() -> (r: Self)
        ensures
            r.wf(),
            r.sessions@.len() == 0,
            r.next_id == 0,
    {
        SessionManager { sessions: Vec::new(), next_id: 0 }
    }

    /// The position of the session `id`, if it exists.
    fn find(&self, id: u64) -> (r: Option<usize>)
        requires
            self.wf(),
        ensures
            match r {
                Some(k) => has_session(self.sessions@, id) && k == session_index(self.sessions@, id),
                None => !has_session(self.sessions@, id),
            },
    {
        let n = self.sessions.len();
        let mut i: usize = 0;
        while i < n
            invariant
                self.wf(),
                n == self.sessions@.len(),
                i <= n,
                forall|j: int| 0 <= j < i ==> (#[trigger] self.sessions@[j]).id != id,
            decreases n - i,
        {
            if self.sessions[i].id == id {
                proof {
                    let k = session_index(self.sessions@, id);
                    assert(has_session(self.sessions@, id));
                    if k != i as int {
                        assert(self.sessions@[k].id != self.sessions@[i as int].id);
                    }
                }
                return Some(i);
            }
            i = i + 1;
        }
        None
    }

    /// Registers a session for `game` with players `0 .. players`, and returns
    /// its identifier with the game's opening messages. `None`, with nothing
    /// changed, once every identifier has been used.
    pub fn start_game(&mut self, game: PlanetWarsGame, players: u64) -> (r: Option<(u64, Vec<HostMsg>)>)
        requires
            old(self).wf(),
            game.state@.wf(),
        ensures
            final(self).wf(),
            match r {
                Some((id, msgs)) => {
                    &&& old(self).next_id < u64::MAX
                    &&& id == old(self).next_id
                    &&& final(self).next_id == id + 1
                    &&& final(self).sessions@.len() == old(self).sessions@.len() + 1
                    &&& final(self).sessions@.drop_last() == old(self).sessions@
                    &&& final(self).sessions@.last().id == id
                    &&& final(self).sessions@.last().game == game
                    &&& final(self).sessions@.last().barrier.slots@
                        == Seq::new(players as nat, |i: int| (i as u64, None::<String>))
                    &&& host_msgs_view(msgs@) == state_messages(game.state@, living(game.state@.players))
                },
                None => old(self).next_id == u64::MAX && *final(self) == *old(self),
            },
    {
        if self.next_id == u64::MAX {
            return None;
        }
        let id = self.next_id;
        let mut game = game;
        let msgs = game.start();
        let barrier = TurnBarrier::new(players);
        let ghost before = self.sessions@;
        self.sessions.push(Session { id, game, barrier });
        self.next_id = id + 1;
        proof {
            assert(self.sessions@.drop_last() =~= before);
            assert forall|i: int, j: int|
                0 <= i < self.sessions@.len() && 0 <= j < self.sessions@.len() && i != j
                    implies (#[trigger] self.sessions@[i]).id != (#[trigger] self.sessions@[j]).id by {
                if i < before.len() && j < before.len() {
                    assert(before[i].id != before[j].id);
                } else if i < before.len() {
                    assert(before[i].id < id);
                } else {
                    assert(before[j].id < id);
                }
            }
        }
        Some((id, msgs))
    }

    /// The status of session `id`.
    pub fn get_state(&self, id: u64) -> (r: SessionLookup)
        requires
            self.wf(),
        ensures
            !has_session(self.sessions@, id) <==> r is Unknown,
            has_session(self.sessions@, id) ==> {
                let g = self.sessions@[session_index(self.sessions@, id)].game;
                match r {
                    SessionLookup::Running(map) => !g.state@.is_finished() && map@ == g.map@,
                    SessionLookup::Finished(s) => {
                        &&& g.state@.is_finished()
                        &&& s.winners@ == living(g.state@.players)
                        &&& s.turns == g.state.turn_num
                        &&& s.name@ == g.name@
                        &&& s.map@ == g.map@
                        &&& s.file@ == g.log_file_loc@
                    },
                    SessionLookup::Unknown => false,
                }
            },
    {
        match self.find(id) {
            None => SessionLookup::Unknown,
            Some(k) => match self.sessions[k].game.is_done() {
                Some(s) => SessionLookup::Finished(s),
                None => SessionLookup::Running(self.sessions[k].game.state()),
            },
        }
    }

    /// Passes `player`'s payload to the barrier of session `id`; false when
    /// the session is unknown or the barrier does not take it.
    pub fn submit(&mut self, id: u64, player: u64, payload: String) -> (accepted: bool)
        requires
            old(self).wf(),
        ensures
            final(self).wf(),
            final(self).next_id == old(self).next_id,
            !has_session(old(self).sessions@, id) ==> !accepted && final(self).sessions@ == old(self).sessions@,
            has_session(old(self).sessions@, id) ==> {
                let k = session_index(old(self).sessions@, id);
                let s = old(self).sessions@[k];
                let b = s.barrier.slots@;
                let accepted_here = has_slot_open(b, player);
                &&& accepted == accepted_here
                &&& final(self).sessions@.len() == old(self).sessions@.len()
                &&& forall|j: int| 0 <= j < old(self).sessions@.len() && j != k
                    ==> #[trigger] final(self).sessions@[j] == old(self).sessions@[j]
                &&& final(self).sessions@[k].id == s.id
                &&& final(self).sessions@[k].game == s.game
                &&& final(self).sessions@[k].barrier.slots@ == if accepted_here {
                    b.update(crate::barrier::slot_index(b, player), (player, Some(payload)))
                } else {
                    b
                }
            },
    {
        match self.find(id) {
            None => false,
            Some(k) => {
                let ghost before = self.sessions@;
                let mut s = self.sessions.remove(k);
                let accepted = s.barrier.submit(player, payload);
                self.sessions.insert(k, s);
                proof {
                    assert(self.sessions@ =~= before.update(k as int, s));
                    self.lemma_wf_after_update(before, k as int);
                }
                accepted
            },
        }
    }

    /// Whether every active player of session `id` has submitted in this
    /// window; false for an unknown session.
    pub fn window_complete(&self, id: u64) -> (r: bool)
        requires
            self.wf(),
        ensures
            r == (has_session(self.sessions@, id) && {
                let b = self.sessions@[session_index(self.sessions@, id)].barrier.slots@;
                forall|i: int| 0 <= i < b.len() ==> (#[trigger] b[i]).1 is Some
            }),
    {
        match self.find(id) {
            None => false,
            Some(k) => self.sessions[k].barrier.is_complete(),
        }
    }

    /// Closes the collection window of session `id` and hands out what each
    /// active player sent; `None` for an unknown session.
    pub fn close_window(&mut self, id: u64) -> (r: Option<Vec<(u64, Option<String>)>>)
        requires
            old(self).wf(),
        ensures
            final(self).wf(),
            final(self).next_id == old(self).next_id,
            !has_session(old(self).sessions@, id) ==> r is None && final(self).sessions@ == old(self).sessions@,
            has_session(old(self).sessions@, id) ==> {
                let k = session_index(old(self).sessions@, id);
                let s = old(self).sessions@[k];
                &&& r matches Some(turn) && turn@ == s.barrier.slots@
                &&& final(self).sessions@.len() == old(self).sessions@.len()
                &&& forall|j: int| 0 <= j < old(self).sessions@.len() && j != k
                    ==> #[trigger] final(self).sessions@[j] == old(self).sessions@[j]
                &&& final(self).sessions@[k].id == s.id
                &&& final(self).sessions@[k].game == s.game
                &&& final(self).sessions@[k].barrier.slots@ == crate::barrier::emptied(s.barrier.slots@)
            },
    {
        match self.find(id) {
            None => None,
            Some(k) => {
                let ghost before = self.sessions@;
                let mut s = self.sessions.remove(k);
                let turn = s.barrier.take_turn();
                self.sessions.insert(k, s);
                proof {
                    assert(self.sessions@ =~= before.update(k as int, s));
                    self.lemma_wf_after_update(before, k as int);
                }
                Some(turn)
            },
        }
    }

    /// Plays one turn of session `id` with the decoded inputs, and stops
    /// waiting for the players the turn kicked. `None`, with nothing changed,
    /// for an unknown session or a finished game.
    pub fn play_turn(&mut self, id: u64, turns: Vec<PlayerMsg>) -> (r: Option<Vec<HostMsg>>)
        requires
            old(self).wf(),
        ensures
            final(self).wf(),
            final(self).next_id == old(self).next_id,
            !has_session(old(self).sessions@, id) ==> r is None && final(self).sessions@ == old(self).sessions@,
            has_session(old(self).sessions@, id) ==> {
                let k = session_index(old(self).sessions@, id);
                let s = old(self).sessions@[k];
                let w = s.game.state@;
                if w.is_finished() {
                    r is None && final(self).sessions@ == old(self).sessions@
                } else {
                    &&& r matches Some(msgs) && host_msgs_view(msgs@) == turn_messages(w, turns@)
                    &&& final(self).sessions@.len() == old(self).sessions@.len()
                    &&& forall|j: int| 0 <= j < old(self).sessions@.len() && j != k
                        ==> #[trigger] final(self).sessions@[j] == old(self).sessions@[j]
                    &&& final(self).sessions@[k].id == s.id
                    &&& final(self).sessions@[k].game.state@ == next_world(w, turns@)
                    &&& final(self).sessions@[k].game.name == s.game.name
                    &&& final(self).sessions@[k].game.map == s.game.map
                    &&& final(self).sessions@[k].game.log_file_loc == s.game.log_file_loc
                    &&& final(self).sessions@[k].barrier.slots@
                        == drop_kicked(s.barrier.slots@, turn_messages(w, turns@))
                }
            },
    {
        let k = match self.find(id) {
            None => {
                return None;
            },
            Some(k) => k,
        };
        if self.sessions[k].game.state.is_finished() {
            return None;
        }
        let ghost before = self.sessions@;
        let mut s = self.sessions.remove(k);
        let msgs = s.game.step(turns);
        let n = msgs.len();
        let ghost start = s.barrier.slots@;
        let ghost stepped = s.game;
        let ghost sid = s.id;
        let mut i: usize = 0;
        while i < n
            invariant
                n == msgs@.len(),
                i <= n,
                s.game == stepped,
                s.id == sid,
                s.barrier.wf(),
                s.barrier.slots@ == drop_kicked(start, host_msgs_view(msgs@).take(i as int)),
            decreases n - i,
        {
            proof {
                assert(host_msgs_view(msgs@).take(i + 1).drop_last() =~= host_msgs_view(msgs@).take(i as int));
                assert(host_msgs_view(msgs@).take(i + 1).last() == msgs@[i as int]@);
            }
            match &msgs[i] {
                HostMsg::Kick(p) => {
                    s.barrier.remove_player(*p);
                },
                _ => {},
            }
            i = i + 1;
        }
        assert(host_msgs_view(msgs@).take(n as int) =~= host_msgs_view(msgs@));
        self.sessions.insert(k, s);
        proof {
            assert(self.sessions@ =~= before.update(k as int, s));
            self.lemma_wf_after_update(before, k as int);
        }
        Some(msgs)
    }

    /// Replacing one session by another with the same identifier, a well
    /// formed game and a well formed barrier keeps the manager well formed.
    proof fn lemma_wf_after_update(&self, before: Seq<Session>, k: int)
        requires
            0 <= k < before.len(),
            self.sessions@ == before.update(k, self.sessions@[k]),
            self.sessions@[k].id == before[k].id,
            self.sessions@[k].game.state@.wf(),
            self.sessions@[k].barrier.wf(),
            forall|i: int| 0 <= i < before.len() ==> (#[trigger] before[i]).id < self.next_id,
            forall|i: int, j: int|
                0 <= i < before.len() && 0 <= j < before.len() && i != j
                    ==> (#[trigger] before[i]).id != (#[trigger] before[j]).id,
            forall|i: int| 0 <= i < before.len() ==> {
                &&& (#[trigger] before[i]).game.state@.wf()
                &&& before[i].barrier.wf()
            },
        ensures
            self.wf(),
    {
        assert forall|i: int, j: int|
            0 <= i < self.sessions@.len() && 0 <= j < self.sessions@.len() && i != j
                implies (#[trigger] self.sessions@[i]).id != (#[trigger] self.sessions@[j]).id by {
            assert(before[i].id != before[j].id);
        }
        assert forall|i: int| 0 <= i < self.sessions@.len() implies (#[trigger] self.sessions@[i]).id < self.next_id by {
            assert(before[i].id < self.next_id);
        }
        assert forall|i: int| 0 <= i < self.sessions@.len() implies {
            &&& (#[trigger] self.sessions@[i]).game.state@.wf()
            &&& self.sessions@[i].barrier.wf()
        } by {
            if i != k {
                assert(self.sessions@[i] == before[i]);
            }
        }
    }
}

/// Some slot of `slots` belongs to `player` and is still empty.
pub open spec fn has_slot_open(slots: Seq<(u64, Option<String>)>, player: u64) -> bool {
    crate::barrier::has_slot(slots, player) && slots[crate::barrier::slot_index(slots, player)].1 is None
}

} // verus!
