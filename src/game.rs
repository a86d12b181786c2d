//! The controller of one planet-wars session: it decodes nothing itself, but
//! applies each player's commands in turn, advances the world, and tells every
//! player what happened.

use vstd::prelude::*;

use crate::protocol::{
    Action, Command, CommandError, HostMsg, HostMsgView, PlayerAction, PlayerActionView,
    PlayerCommand, ServerMessage, ServerMessageView,
};
use crate::rules::{living, owns_planet, PlanetWars, World};
use crate::serializer::{project, serialize, serialize_rotated};

verus! {

/// One player's input for a turn: absent when nothing arrived in time, an
/// error text when the payload could not be decoded, or the decoded action.
pub struct PlayerMsg {
    pub id: u64,
    pub data: Option<Result<Action, String>>,
}

/// The terminal summary of a finished game.
pub struct Summary {
    pub winners: Vec<u64>,
    pub turns: u64,
    pub name: String,
    pub map: String,
    pub file: String,
}

/// A running game of planet wars.
pub struct PlanetWarsGame {
    pub state: PlanetWars,
    /// Where the replay log of this game is kept.
    pub log_file_loc: String,
    pub name: String,
    /// The name of the map, without directory or extension.
    pub map: String,
}

/// The final component of a path without its extension, as the standard
/// library determines it.
pub uninterp spec fn file_stem_of(path: Seq<char>) -> Option<Seq<char>>;

/// Relies on `std::path::Path::file_stem`: the stem of the path's last
/// component, if it has one.
#[verifier::external_body]
fn file_stem(path: &str) -> (r: Option<String>)
    ensures
        match r {
            Some(s) => file_stem_of(path@) == Some(s@),
            None => file_stem_of(path@) is None,
        },
{
    match std::path::Path::new(path).file_stem() {
        Some(stem) => match stem.to_str() {
            Some(s) => Some(s.to_string()),
            None => None,
        },
        None => None,
    }
}

/// The world after `player`'s command, when it is valid; else unchanged.
pub open spec fn apply_command(w: World, player: u64, c: Command) -> World {
    match w.validate(player, c) {
        Ok(d) => w.dispatch(d),
        Err(_) => w,
    }
}

/// The world after `player`'s commands, each checked against the world that
/// the ones before it left.
pub open spec fn apply_commands(w: World, player: u64, cmds: Seq<Command>) -> World
    decreases cmds.len(),
{
    if cmds.len() == 0 {
        w
    } else {
        apply_command(apply_commands(w, player, cmds.drop_last()), player, cmds.last())
    }
}

/// The error of a validation, if any.
pub open spec fn error_of(r: Result<crate::rules::Dispatch, CommandError>) -> Option<CommandError> {
    match r {
        Ok(_) => None,
        Err(e) => Some(e),
    }
}

/// One report per command of `cmds`, in order.
pub open spec fn command_reports(w: World, player: u64, cmds: Seq<Command>) -> Seq<PlayerCommand>
    decreases cmds.len(),
{
    if cmds.len() == 0 {
        Seq::empty()
    } else {
        let before = apply_commands(w, player, cmds.drop_last());
        command_reports(w, player, cmds.drop_last()).push(
            PlayerCommand { command: cmds.last(), error: error_of(before.validate(player, cmds.last())) },
        )
    }
}

/// The world after one player's input, and the report on it.
pub open spec fn action_result(w: World, player: u64, data: Option<Result<Action, String>>) -> (World, PlayerActionView) {
    match data {
        None => (w, PlayerActionView::Timeout),
        Some(Err(e)) => (w, PlayerActionView::ParseError(e@)),
        Some(Ok(a)) => (
            apply_commands(w, player, a.commands@),
            PlayerActionView::Commands(command_reports(w, player, a.commands@)),
        ),
    }
}

/// The world after all inputs of a turn, in the order received, and the
/// report addressed to each submitting player.
pub open spec fn execute_turns(w: World, turns: Seq<PlayerMsg>) -> (World, Seq<HostMsgView>)
    decreases turns.len(),
{
    if turns.len() == 0 {
        (w, Seq::empty())
    } else {
        let (w1, msgs) = execute_turns(w, turns.drop_last());
        let t = turns.last();
        let (w2, report) = action_result(w1, t.id, t.data);
        (w2, msgs.push(HostMsgView::Data(ServerMessageView::PlayerAction(report), Some(t.id))))
    }
}

/// What player `id` receives after a turn: its view of the world, and, once it
/// is out or the game is over, the final view and a kick.
pub open spec fn player_update(w: World, id: u64, alive: bool) -> Seq<HostMsgView> {
    let view = project(w, id);
    if alive && !w.is_finished() {
        seq![HostMsgView::Data(ServerMessageView::GameState(view), Some(id))]
    } else {
        seq![HostMsgView::Data(ServerMessageView::FinalState(view), Some(id)), HostMsgView::Kick(id)]
    }
}

/// The updates for those of `players` whose identifier is in `were_alive`.
pub open spec fn player_updates(w: World, were_alive: Seq<u64>, players: Seq<crate::rules::Player>) -> Seq<HostMsgView>
    decreases players.len(),
{
    if players.len() == 0 {
        Seq::empty()
    } else {
        let r = player_updates(w, were_alive, players.drop_last());
        let p = players.last();
        if were_alive.contains(p.id) {
            r + player_update(w, p.id, p.alive)
        } else {
            r
        }
    }
}

/// The replay record of `w`, then an update for each player of `were_alive`.
pub open spec fn state_messages(w: World, were_alive: Seq<u64>) -> Seq<HostMsgView> {
    seq![HostMsgView::Record(project(w, 0))] + player_updates(w, were_alive, w.players)
}

/// The world after a full turn: growth, then the players' commands, then the
/// movement of the fleets.
pub open spec fn next_world(w: World, turns: Seq<PlayerMsg>) -> World {
    execute_turns(w.repopulate(), turns).0.step()
}

/// Everything a turn hands to the host: the reports on the inputs, then the
/// state messages for the players alive when the turn began.
pub open spec fn turn_messages(w: World, turns: Seq<PlayerMsg>) -> Seq<HostMsgView> {
    execute_turns(w.repopulate(), turns).1 + state_messages(next_world(w, turns), living(w.players))
}

fn contains(ids: &Vec<u64>, id: u64) -> (r: bool)
    ensures
        r == ids@.contains(id),
{
    let n = ids.len();
    let mut i: usize = 0;
    while i < n
        invariant
            n == ids@.len(),
            i <= n,
            forall|j: int| 0 <= j < i ==> ids@[j] != id,
        decreases n - i,
    {
        if ids[i] == id {
            assert(ids@[i as int] == id);
            return true;
        }
        i = i + 1;
    }
    false
}

impl PlanetWarsGame {
    /// A game in `state`, logging to `location`, under the name `name`, on the
    /// map found at the path `map`.
    pub fn new(state: PlanetWars, location: &str, name: &str, map: &str) -> (r: Self)
        requires
            file_stem_of(map@) is Some,
        ensures
            r.state == state,
            r.log_file_loc@ == location@,
            r.name@ == name@,
            Some(r.map@) == file_stem_of(map@),
    {
        let stem = file_stem(map);
        let map_name = match stem {
            Some(s) => s,
            None => String::new(),
        };
        PlanetWarsGame {
            state,
            log_file_loc: location.to_string(),
            name: name.to_string(),
            map: map_name,
        }
    }

    /// Like `new`, but `None` when the map path has no file stem.
    pub fn try_new(state: PlanetWars, location: &str, name: &str, map: &str) -> (r: Option<Self>)
        ensures
            match r {
                Some(g) => {
                    &&& file_stem_of(map@) is Some
                    &&& g.state == state
                    &&& g.log_file_loc@ == location@
                    &&& g.name@ == name@
                    &&& Some(g.map@) == file_stem_of(map@)
                },
                None => file_stem_of(map@) is None,
            },
    {
        match file_stem(map) {
            Some(_) => Some(Self::new(state, location, name, map)),
            None => None,
        }
    }

    /// Applies one player's input and reports on each of its commands.
    pub fn execute_action(&mut self, player: u64, turn: Option<Result<Action, String>>) -> (r: PlayerAction)
        requires
            old(self).state@.wf(),
        ensures
            (final(self).state@, r@) == action_result(old(self).state@, player, turn),
            final(self).state@.wf(),
            final(self).log_file_loc == old(self).log_file_loc,
            final(self).name == old(self).name,
            final(self).map == old(self).map,
    {
        let action = match turn {
            None => {
                return PlayerAction::Timeout;
            },
            Some(Err(e)) => {
                return PlayerAction::ParseError(e);
            },
            Some(Ok(action)) => action,
        };
        let ghost w0 = self.state@;
        let ghost all = action.commands@;
        let mut rest = action.commands;
        let mut reports: Vec<PlayerCommand> = Vec::new();
        let ghost mut i: int = 0;
        while rest.len() > 0
            invariant
                0 <= i <= all.len(),
                rest@ == all.skip(i),
                self.state@ == apply_commands(w0, player, all.take(i)),
                reports@ == command_reports(w0, player, all.take(i)),
                self.state@.wf(),
                self.log_file_loc == old(self).log_file_loc,
                self.name == old(self).name,
                self.map == old(self).map,
            decreases rest.len(),
        {
            let c = rest.remove(0);
            proof {
                assert(all.take(i + 1).drop_last() == all.take(i));
                assert(all.take(i + 1).last() == c);
            }
            let checked = self.state.check_valid_command(player, &c);
            match checked {
                Ok(d) => {
                    self.state.dispatch(&d);
                    reports.push(PlayerCommand { command: c, error: None });
                },
                Err(e) => {
                    reports.push(PlayerCommand { command: c, error: Some(e) });
                },
            }
            proof {
                i = i + 1;
                assert(rest@ =~= all.skip(i));
            }
        }
        assert(all.take(i) == all);
        PlayerAction::Commands(reports)
    }

    /// Applies the inputs of a turn in the order received, and appends to
    /// `updates` the report for each submitting player.
    fn execute_commands(&mut self, turns: Vec<PlayerMsg>, updates: &mut Vec<HostMsg>)
        requires
            old(self).state@.wf(),
        ensures
            final(self).state@ == execute_turns(old(self).state@, turns@).0,
            crate::protocol::host_msgs_view(final(updates)@)
                == crate::protocol::host_msgs_view(old(updates)@) + execute_turns(old(self).state@, turns@).1,
            final(self).state@.wf(),
            final(self).log_file_loc == old(self).log_file_loc,
            final(self).name == old(self).name,
            final(self).map == old(self).map,
    {
        let ghost w0 = self.state@;
        let ghost all = turns@;
        let ghost start = crate::protocol::host_msgs_view(updates@);
        let mut rest = turns;
        let ghost mut i: int = 0;
        while rest.len() > 0
            invariant
                0 <= i <= all.len(),
                rest@ == all.skip(i),
                self.state@ == execute_turns(w0, all.take(i)).0,
                crate::protocol::host_msgs_view(updates@) == start + execute_turns(w0, all.take(i)).1,
                self.state@.wf(),
                self.log_file_loc == old(self).log_file_loc,
                self.name == old(self).name,
                self.map == old(self).map,
            decreases rest.len(),
        {
            let t = rest.remove(0);
            proof {
                assert(all.take(i + 1).drop_last() == all.take(i));
                assert(all.take(i + 1).last() == t);
            }
            let id = t.id;
            let report = self.execute_action(id, t.data);
            let ghost before = crate::protocol::host_msgs_view(updates@);
            updates.push(HostMsg::Data(ServerMessage::PlayerAction(report), Some(id)));
            proof {
                assert(crate::protocol::host_msgs_view(updates@) =~= before.push(
                    HostMsgView::Data(ServerMessageView::PlayerAction(report@), Some(id))));
                i = i + 1;
                assert(rest@ =~= all.skip(i));
            }
        }
        assert(all.take(i) == all);
    }

    /// Appends to `updates` the replay record and the update of each player
    /// whose identifier is in `were_alive`.
    fn dispatch_state(&self, were_alive: &Vec<u64>, updates: &mut Vec<HostMsg>)
        requires
            self.state@.wf(),
        ensures
            crate::protocol::host_msgs_view(final(updates)@)
                == crate::protocol::host_msgs_view(old(updates)@) + state_messages(self.state@, were_alive@),
    {
        let ghost w = self.state@;
        let ghost start = crate::protocol::host_msgs_view(updates@);
        updates.push(HostMsg::Record(serialize(&self.state)));
        let finished = self.state.is_finished();
        let n = self.state.players.len();
        let mut i: usize = 0;
        while i < n
            invariant
                w == self.state@,
                w.wf(),
                finished == w.is_finished(),
                n == w.players.len(),
                i <= n,
                crate::protocol::host_msgs_view(updates@) == start + seq![HostMsgView::Record(project(w, 0))]
                    + player_updates(w, were_alive@, w.players.take(i as int)),
            decreases n - i,
        {
            let p = self.state.players[i];
            proof {
                assert(w.players.take(i + 1).drop_last() == w.players.take(i as int));
                assert(w.players.take(i + 1).last() == p);
            }
            if contains(were_alive, p.id) {
                let view = serialize_rotated(&self.state, p.id);
                let ghost before = crate::protocol::host_msgs_view(updates@);
                if p.alive && !finished {
                    updates.push(HostMsg::Data(ServerMessage::GameState(view), Some(p.id)));
                    assert(crate::protocol::host_msgs_view(updates@) =~= before + player_update(w, p.id, p.alive));
                } else {
                    updates.push(HostMsg::Data(ServerMessage::FinalState(view), Some(p.id)));
                    updates.push(HostMsg::Kick(p.id));
                    assert(crate::protocol::host_msgs_view(updates@) =~= before + player_update(w, p.id, p.alive));
                }
            }
            i = i + 1;
        }
        assert(w.players.take(n as int) == w.players);
    }

    /// The opening messages: every living player's view of the initial world.
    pub fn start(&mut self) -> (r: Vec<HostMsg>)
        requires
            old(self).state@.wf(),
        ensures
            *final(self) == *old(self),
            crate::protocol::host_msgs_view(r@) == state_messages(old(self).state@, living(old(self).state@.players)),
    {
        let mut updates: Vec<HostMsg> = Vec::new();
        let alive = self.state.living_players();
        self.dispatch_state(&alive, &mut updates);
        updates
    }

    /// Plays one turn with the players' inputs and returns what the host must
    /// deliver and record.
    pub fn step(&mut self, turns: Vec<PlayerMsg>) -> (r: Vec<HostMsg>)
        requires
            old(self).state@.wf(),
            old(self).state.turn_num < u64::MAX,
        ensures
            final(self).state@ == next_world(old(self).state@, turns@),
            crate::protocol::host_msgs_view(r@) == turn_messages(old(self).state@, turns@),
            final(self).state@.wf(),
            final(self).log_file_loc == old(self).log_file_loc,
            final(self).name == old(self).name,
            final(self).map == old(self).map,
    {
        let ghost w0 = self.state@;
        let mut updates: Vec<HostMsg> = Vec::new();
        let alive = self.state.living_players();
        self.state.repopulate();
        self.execute_commands(turns, &mut updates);
        proof {
            lemma_execute_turns_keeps_turn(w0.repopulate(), turns@);
        }
        self.state.step();
        self.dispatch_state(&alive, &mut updates);
        proof {
            assert(crate::protocol::host_msgs_view(Seq::<HostMsg>::empty()) =~= Seq::<HostMsgView>::empty());
            assert(execute_turns(w0.repopulate(), turns@).1 =~= Seq::<HostMsgView>::empty() + execute_turns(w0.repopulate(), turns@).1);
        }
        updates
    }

    /// The name of the map, for status queries.
    pub fn state(&self) -> (r: String)
        ensures
            r@ == self.map@,
    {
        self.map.clone()
    }

    /// The summary of the game once it is over; `None` while it runs.
    pub fn is_done(&self) -> (r: Option<Summary>)
        ensures
            match r {
                Some(s) => {
                    &&& self.state@.is_finished()
                    &&& s.winners@ == living(self.state@.players)
                    &&& s.turns == self.state.turn_num
                    &&& s.name@ == self.name@
                    &&& s.map@ == self.map@
                    &&& s.file@ == self.log_file_loc@
                },
                None => !self.state@.is_finished(),
            },
    {
        if self.state.is_finished() {
            Some(Summary {
                winners: self.state.living_players(),
                turns: self.state.turn_num,
                name: self.name.clone(),
                map: self.map.clone(),
                file: self.log_file_loc.clone(),
            })
        } else {
            None
        }
    }
}

/// The world after a sequence of turns, one input list per turn.
pub open spec fn run_turns(w: World, inputs: Seq<Seq<PlayerMsg>>) -> World
    decreases inputs.len(),
{
    if inputs.len() == 0 {
        w
    } else {
        next_world(run_turns(w, inputs.drop_last()), inputs.last())
    }
}

/// Number of kicks of player `p` among `msgs`.
pub open spec fn kicks(msgs: Seq<HostMsgView>, p: u64) -> nat
    decreases msgs.len(),
{
    if msgs.len() == 0 {
        0
    } else {
        kicks(msgs.drop_last(), p) + if msgs.last() == HostMsgView::Kick(p) { 1nat } else { 0nat }
    }
}

/// Whether `m` is a running-game view sent to player `p`.
pub open spec fn is_game_state_for(m: HostMsgView, p: u64) -> bool {
    m matches HostMsgView::Data(ServerMessageView::GameState(_), Some(q)) && q == p
}

/// Whether `m` is a view of the world, running or final, sent to player `p`.
pub open spec fn is_view_for(m: HostMsgView, p: u64) -> bool {
    ||| is_game_state_for(m, p)
    ||| m matches HostMsgView::Data(ServerMessageView::FinalState(_), Some(q)) && q == p
}

/// Some message of `msgs` is a running-game view for `p`.
pub open spec fn game_state_sent(msgs: Seq<HostMsgView>, p: u64) -> bool {
    exists|i: int| 0 <= i < msgs.len() && is_game_state_for(#[trigger] msgs[i], p)
}

/// Some message of `msgs` is a view of the world for `p`.
pub open spec fn view_sent(msgs: Seq<HostMsgView>, p: u64) -> bool {
    exists|i: int| 0 <= i < msgs.len() && is_view_for(#[trigger] msgs[i], p)
}

proof fn lemma_kicks_add(a: Seq<HostMsgView>, b: Seq<HostMsgView>, p: u64)
    ensures
        kicks(a + b, p) == kicks(a, p) + kicks(b, p),
    decreases b.len(),
{
    if b.len() > 0 {
        lemma_kicks_add(a, b.drop_last(), p);
        assert((a + b).drop_last() =~= a + b.drop_last());
    }
}

proof fn lemma_sent_add(a: Seq<HostMsgView>, b: Seq<HostMsgView>, p: u64)
    ensures
        game_state_sent(a + b, p) == (game_state_sent(a, p) || game_state_sent(b, p)),
        view_sent(a + b, p) == (view_sent(a, p) || view_sent(b, p)),
{
    if game_state_sent(a + b, p) {
        let i = choose|i: int| 0 <= i < (a + b).len() && is_game_state_for(#[trigger] (a + b)[i], p);
        if i < a.len() {
            assert(a[i] == (a + b)[i]);
        } else {
            assert(b[i - a.len()] == (a + b)[i]);
        }
    }
    if view_sent(a + b, p) {
        let i = choose|i: int| 0 <= i < (a + b).len() && is_view_for(#[trigger] (a + b)[i], p);
        if i < a.len() {
            assert(a[i] == (a + b)[i]);
        } else {
            assert(b[i - a.len()] == (a + b)[i]);
        }
    }
    if game_state_sent(a, p) {
        let i = choose|i: int| 0 <= i < a.len() && is_game_state_for(#[trigger] a[i], p);
        assert((a + b)[i] == a[i]);
    }
    if game_state_sent(b, p) {
        let i = choose|i: int| 0 <= i < b.len() && is_game_state_for(#[trigger] b[i], p);
        assert((a + b)[a.len() + i] == b[i]);
    }
    if view_sent(a, p) {
        let i = choose|i: int| 0 <= i < a.len() && is_view_for(#[trigger] a[i], p);
        assert((a + b)[i] == a[i]);
    }
    if view_sent(b, p) {
        let i = choose|i: int| 0 <= i < b.len() && is_view_for(#[trigger] b[i], p);
        assert((a + b)[a.len() + i] == b[i]);
    }
}

/// Identifiers match positions.
pub open spec fn ids_match(players: Seq<crate::rules::Player>) -> bool {
    forall|i: int| 0 <= i < players.len() ==> (#[trigger] players[i]).id == i
}

proof fn lemma_player_updates_for(w: World, were_alive: Seq<u64>, players: Seq<crate::rules::Player>, p: u64)
    requires
        ids_match(players),
    ensures
        p < players.len() ==> kicks(player_updates(w, were_alive, players), p)
            == if were_alive.contains(p) && (!players[p as int].alive || w.is_finished()) { 1nat } else { 0nat },
        p < players.len() ==> game_state_sent(player_updates(w, were_alive, players), p)
            == (were_alive.contains(p) && players[p as int].alive && !w.is_finished()),
        p < players.len() ==> view_sent(player_updates(w, were_alive, players), p) == were_alive.contains(p),
        p >= players.len() ==> kicks(player_updates(w, were_alive, players), p) == 0,
        p >= players.len() ==> !view_sent(player_updates(w, were_alive, players), p),
    decreases players.len(),
{
    if players.len() > 0 {
        let init = players.drop_last();
        let last = players.last();
        assert(ids_match(init)) by {
            assert forall|i: int| 0 <= i < init.len() implies (#[trigger] init[i]).id == i by {
                assert(init[i] == players[i]);
            }
        }
        lemma_player_updates_for(w, were_alive, init, p);
        let r = player_updates(w, were_alive, init);
        assert(last.id == players.len() - 1);
        if were_alive.contains(last.id) {
            let u = player_update(w, last.id, last.alive);
            lemma_kicks_add(r, u, p);
            lemma_sent_add(r, u, p);
            assert(kicks(u, p) == if last.id == p && (!last.alive || w.is_finished()) { 1nat } else { 0nat }) by {
                if last.alive && !w.is_finished() {
                    assert(u.drop_last() =~= Seq::<HostMsgView>::empty());
                    assert(kicks(u.drop_last(), p) == 0);
                } else {
                    assert(u.drop_last().drop_last() =~= Seq::<HostMsgView>::empty());
                    assert(kicks(u.drop_last().drop_last(), p) == 0);
                    assert(kicks(u.drop_last(), p) == 0);
                }
            }
            assert(game_state_sent(u, p) == (last.id == p && last.alive && !w.is_finished())) by {
                if game_state_sent(u, p) {
                    let i = choose|i: int| 0 <= i < u.len() && is_game_state_for(#[trigger] u[i], p);
                }
                if last.id == p && last.alive && !w.is_finished() {
                    assert(is_game_state_for(u[0], p));
                }
            }
            assert(view_sent(u, p) == (last.id == p)) by {
                if view_sent(u, p) {
                    let i = choose|i: int| 0 <= i < u.len() && is_view_for(#[trigger] u[i], p);
                }
                if last.id == p {
                    assert(is_view_for(u[0], p));
                }
            }
        }
        if p < init.len() {
            assert(players[p as int] == init[p as int]);
        }
    } else {
        assert(!view_sent(player_updates(w, were_alive, players), p));
    }
}

proof fn lemma_push_contains(s: Seq<u64>, x: u64, p: u64)
    ensures
        s.push(x).contains(p) == (s.contains(p) || x == p),
{
    if s.contains(p) {
        let k = choose|k: int| 0 <= k < s.len() && s[k] == p;
        assert(s.push(x)[k] == p);
    }
    if x == p {
        assert(s.push(x)[s.len() as int] == p);
    }
    if s.push(x).contains(p) && x != p {
        let k = choose|k: int| 0 <= k < s.push(x).len() && s.push(x)[k] == p;
        assert(s[k] == p);
    }
}

proof fn lemma_living_contains(players: Seq<crate::rules::Player>, p: u64)
    requires
        ids_match(players),
    ensures
        living(players).contains(p) == (p < players.len() && players[p as int].alive),
    decreases players.len(),
{
    if players.len() > 0 {
        let init = players.drop_last();
        assert(ids_match(init)) by {
            assert forall|i: int| 0 <= i < init.len() implies (#[trigger] init[i]).id == i by {
                assert(init[i] == players[i]);
            }
        }
        lemma_living_contains(init, p);
        let last = players.last();
        assert(last.id == players.len() - 1);
        if last.alive {
            lemma_push_contains(living(init), last.id, p);
        }
        if p < init.len() {
            assert(players[p as int] == init[p as int]);
        }
    } else {
        assert(living(players) =~= Seq::<u64>::empty());
    }
}

proof fn lemma_reports_only(w: World, turns: Seq<PlayerMsg>, p: u64)
    ensures
        kicks(execute_turns(w, turns).1, p) == 0,
        !view_sent(execute_turns(w, turns).1, p),
        execute_turns(w, turns).0.players == w.players,
    decreases turns.len(),
{
    if turns.len() > 0 {
        lemma_reports_only(w, turns.drop_last(), p);
        let (w1, msgs) = execute_turns(w, turns.drop_last());
        let t = turns.last();
        let (w2, report) = action_result(w1, t.id, t.data);
        let m = HostMsgView::Data(ServerMessageView::PlayerAction(report), Some(t.id));
        assert(execute_turns(w, turns).1 == msgs.push(m));
        assert(msgs.push(m).drop_last() =~= msgs);
        assert(kicks(msgs.push(m), p) == kicks(msgs, p));
        lemma_sent_add(msgs, seq![m], p);
        assert(msgs.push(m) =~= msgs + seq![m]);
        assert(!view_sent(seq![m], p)) by {
            if view_sent(seq![m], p) {
                let i = choose|i: int| 0 <= i < 1 && is_view_for(#[trigger] seq![m][i], p);
            }
        }
        match t.data {
            Some(Ok(a)) => lemma_apply_commands_keeps_players(w1, t.id, a.commands@),
            _ => {},
        }
    }
}

/// Commands never change the players.
proof fn lemma_apply_commands_keeps_players(w: World, player: u64, cmds: Seq<Command>)
    ensures
        apply_commands(w, player, cmds).players == w.players,
    decreases cmds.len(),
{
    if cmds.len() > 0 {
        lemma_apply_commands_keeps_players(w, player, cmds.drop_last());
    }
}

/// A player who owns a planet when a turn begins and owns none when it ends
/// is kicked exactly once in that turn's messages, and is sent no
/// running-game view of it.
pub proof fn lemma_elimination_kicks_once(w: World, turns: Seq<PlayerMsg>, p: u64)
    requires
        w.wf(),
        p < w.players.len(),
        owns_planet(w.planets, p),
        !owns_planet(next_world(w, turns).planets, p),
    ensures
        kicks(turn_messages(w, turns), p) == 1,
        !game_state_sent(turn_messages(w, turns), p),
{
    let w1 = w.repopulate();
    let (w2, reports) = execute_turns(w1, turns);
    let w3 = next_world(w, turns);
    lemma_reports_only(w1, turns, p);
    assert(w3.players.len() == w.players.len());
    assert(!w3.players[p as int].alive);
    assert(ids_match(w3.players)) by {
        assert forall|i: int| 0 <= i < w3.players.len() implies (#[trigger] w3.players[i]).id == i by {
            assert(w.players[i].id == i);
        }
    }
    assert(ids_match(w.players)) by {
        assert forall|i: int| 0 <= i < w.players.len() implies (#[trigger] w.players[i]).id == i by {
            assert(w.players[i].id == i);
        }
    }
    lemma_living_contains(w.players, p);
    lemma_player_updates_for(w3, living(w.players), w3.players, p);
    let head = seq![HostMsgView::Record(project(w3, 0))];
    let ups = player_updates(w3, living(w.players), w3.players);
    assert(head.drop_last() =~= Seq::<HostMsgView>::empty());
    assert(kicks(head.drop_last(), p) == 0);
    assert(kicks(head, p) == 0);
    assert(!game_state_sent(head, p)) by {
        if game_state_sent(head, p) {
            let i = choose|i: int| 0 <= i < head.len() && is_game_state_for(#[trigger] head[i], p);
        }
    }
    assert(!game_state_sent(reports, p)) by {
        if game_state_sent(reports, p) {
            let i = choose|i: int| 0 <= i < reports.len() && is_game_state_for(#[trigger] reports[i], p);
            assert(is_view_for(reports[i], p));
        }
    }
    lemma_kicks_add(head, ups, p);
    lemma_sent_add(head, ups, p);
    lemma_kicks_add(reports, head + ups, p);
    lemma_sent_add(reports, head + ups, p);
}

/// A player who owns no planet when a turn begins is neither kicked nor sent
/// any view of the world in that turn.
pub proof fn lemma_eliminated_stay_silent(w: World, turns: Seq<PlayerMsg>, p: u64)
    requires
        w.wf(),
        p < w.players.len(),
        !owns_planet(w.planets, p),
    ensures
        kicks(turn_messages(w, turns), p) == 0,
        !view_sent(turn_messages(w, turns), p),
{
    let w1 = w.repopulate();
    let (w2, reports) = execute_turns(w1, turns);
    let w3 = next_world(w, turns);
    lemma_reports_only(w1, turns, p);
    assert(ids_match(w3.players)) by {
        assert forall|i: int| 0 <= i < w3.players.len() implies (#[trigger] w3.players[i]).id == i by {
            assert(w.players[i].id == i);
        }
    }
    assert(ids_match(w.players)) by {
        assert forall|i: int| 0 <= i < w.players.len() implies (#[trigger] w.players[i]).id == i by {
            assert(w.players[i].id == i);
        }
    }
    lemma_living_contains(w.players, p);
    lemma_player_updates_for(w3, living(w.players), w3.players, p);
    let head = seq![HostMsgView::Record(project(w3, 0))];
    let ups = player_updates(w3, living(w.players), w3.players);
    assert(head.drop_last() =~= Seq::<HostMsgView>::empty());
    assert(kicks(head.drop_last(), p) == 0);
    assert(kicks(head, p) == 0);
    assert(!view_sent(head, p)) by {
        if view_sent(head, p) {
            let i = choose|i: int| 0 <= i < head.len() && is_view_for(#[trigger] head[i], p);
        }
    }
    lemma_kicks_add(head, ups, p);
    lemma_sent_add(head, ups, p);
    lemma_kicks_add(reports, head + ups, p);
    lemma_sent_add(reports, head + ups, p);
}

/// A command that names an unknown origin or destination gets the matching
/// error and leaves the world as it was.
pub proof fn lemma_unknown_planet_rejected(w: World, player: u64, c: Command)
    requires
        !w.has_planet(c.origin@) || !w.has_planet(c.destination@),
    ensures
        !w.has_planet(c.origin@) ==> w.validate(player, c) == Err::<crate::rules::Dispatch, CommandError>(
            CommandError::OriginDoesNotExist,
        ),
        w.has_planet(c.origin@) ==> w.validate(player, c) == Err::<crate::rules::Dispatch, CommandError>(
            CommandError::DestinationDoesNotExist,
        ),
        apply_command(w, player, c) == w,
{
}

/// A session that starts at turn zero with a limit of `max_turns` turns is
/// finished once that many turns have been played.
pub proof fn lemma_finished_within_max_turns(w: World, inputs: Seq<Seq<PlayerMsg>>)
    requires
        w.turn_num == 0,
        inputs.len() == w.max_turns,
    ensures
        run_turns(w, inputs).is_finished(),
{
    lemma_run_turns_counts(w, inputs);
}

proof fn lemma_run_turns_counts(w: World, inputs: Seq<Seq<PlayerMsg>>)
    requires
        w.turn_num + inputs.len() <= u64::MAX,
    ensures
        run_turns(w, inputs).turn_num == w.turn_num + inputs.len(),
        run_turns(w, inputs).max_turns == w.max_turns,
    decreases inputs.len(),
{
    if inputs.len() > 0 {
        lemma_run_turns_counts(w, inputs.drop_last());
        let prev = run_turns(w, inputs.drop_last());
        lemma_execute_turns_keeps_turn(prev.repopulate(), inputs.last());
    }
}

/// Commands never move the turn counter or the turn limit.
pub proof fn lemma_apply_commands_keeps_turn(w: World, player: u64, cmds: Seq<Command>)
    ensures
        apply_commands(w, player, cmds).turn_num == w.turn_num,
        apply_commands(w, player, cmds).max_turns == w.max_turns,
    decreases cmds.len(),
{
    if cmds.len() > 0 {
        lemma_apply_commands_keeps_turn(w, player, cmds.drop_last());
    }
}

/// The inputs of a turn never move the turn counter or the turn limit.
pub proof fn lemma_execute_turns_keeps_turn(w: World, turns: Seq<PlayerMsg>)
    ensures
        execute_turns(w, turns).0.turn_num == w.turn_num,
        execute_turns(w, turns).0.max_turns == w.max_turns,
    decreases turns.len(),
{
    if turns.len() > 0 {
        lemma_execute_turns_keeps_turn(w, turns.drop_last());
        let w1 = execute_turns(w, turns.drop_last()).0;
        let t = turns.last();
        match t.data {
            Some(Ok(a)) => lemma_apply_commands_keeps_turn(w1, t.id, a.commands@),
            _ => {},
        }
    }
}

} // verus!
