//! The registry of sessions and the status reports built from it.

use vstd::prelude::*;
use vstd::string::StrSliceExecFns;

verus! {

/// A player's connection, as the transport reports it.
pub enum ConnectionStatus {
    /// Nobody has claimed the slot yet; it waits for the holder of `key`.
    Waiting(u64),
    /// A client with this name is connected.
    Connected(String),
    /// The client with this name lost its connection and is expected back.
    Reconnecting(String),
}

/// The state of a player in a running game, for display.
#[derive(Debug, PartialEq, Eq)]
pub struct PlayerStatus {
    pub waiting: bool,
    pub connected: bool,
    pub reconnecting: bool,
    pub value: String,
}

/// The value of a `PlayerStatus`.
pub struct PlayerStatusView {
    pub waiting: bool,
    pub connected: bool,
    pub reconnecting: bool,
    pub value: Seq<char>,
}

impl View for PlayerStatus {
    type V = PlayerStatusView;

    open spec fn view(&self) -> PlayerStatusView {
        PlayerStatusView {
            waiting: self.waiting,
            connected: self.connected,
            reconnecting: self.reconnecting,
            value: self.value@,
        }
    }
}

/// How a connection is displayed: a waiting slot shows its key, the others
/// the client's name.
pub open spec fn status_view(c: ConnectionStatus) -> PlayerStatusView {
    match c {
        ConnectionStatus::Connected(name) => PlayerStatusView {
            waiting: false,
            connected: true,
            reconnecting: false,
            value: name@,
        },
        ConnectionStatus::Reconnecting(name) => PlayerStatusView {
            waiting: false,
            connected: true,
            reconnecting: true,
            value: name@,
        },
        ConnectionStatus::Waiting(key) => PlayerStatusView {
            waiting: true,
            connected: false,
            reconnecting: false,
            value: key_text(key),
        },
    }
}

/// The character of decimal digit `d`.
pub open spec fn digit_char(d: nat) -> char {
    if d == 0 { '0' }
    else if d == 1 { '1' }
    else if d == 2 { '2' }
    else if d == 3 { '3' }
    else if d == 4 { '4' }
    else if d == 5 { '5' }
    else if d == 6 { '6' }
    else if d == 7 { '7' }
    else if d == 8 { '8' }
    else { '9' }
}

/// The decimal notation of `n`, without leading zeros.
pub open spec fn decimal(n: nat) -> Seq<char>
    decreases n,
{
    if n < 10 {
        seq![digit_char(n)]
    } else {
        decimal(n / 10).push(digit_char(n % 10))
    }
}

/// The text shown for a slot that waits for `key`.
pub open spec fn key_text(key: u64) -> Seq<char> {
    seq!['K', 'e', 'y', ':', ' '] + decimal(key as nat)
}

fn digit_str(d: u64) -> (r: &'static str)
    requires
        d < 10,
    ensures
        r@ == seq![digit_char(d as nat)],
{
    if d == 0 {
        proof { reveal_strlit("0"); }
        "0"
    } else if d == 1 {
        proof { reveal_strlit("1"); }
        "1"
    } else if d == 2 {
        proof { reveal_strlit("2"); }
        "2"
    } else if d == 3 {
        proof { reveal_strlit("3"); }
        "3"
    } else if d == 4 {
        proof { reveal_strlit("4"); }
        "4"
    } else if d == 5 {
        proof { reveal_strlit("5"); }
        "5"
    } else if d == 6 {
        proof { reveal_strlit("6"); }
        "6"
    } else if d == 7 {
        proof { reveal_strlit("7"); }
        "7"
    } else if d == 8 {
        proof { reveal_strlit("8"); }
        "8"
    } else {
        proof { reveal_strlit("9"); }
        "9"
    }
}

/// Appends the decimal notation of `n` to `s`.
fn push_decimal(s: &mut String, n: u64)
    ensures
        final(s)@ == old(s)@ + decimal(n as nat),
    decreases n,
{
    if n >= 10 {
        push_decimal(s, n / 10);
    }
    s.append(digit_str(n % 10));
    proof {
        if n >= 10 {
            assert(final(s)@ =~= old(s)@ + decimal(n as nat)) by {
                assert(decimal(n as nat) == decimal((n / 10) as nat).push(digit_char((n % 10) as nat)));
            }
        }
    }
}

impl PlayerStatus {
    /// The display state of a connection.
    pub fn from(value: ConnectionStatus) -> (r: PlayerStatus)
        ensures
            r@ == status_view(value),
    {
        match value {
            ConnectionStatus::Connected(name) => {
                let r = PlayerStatus { waiting: false, connected: true, reconnecting: false, value: name };
                assert(r@.value == name@);
                r
            },
            ConnectionStatus::Reconnecting(name) => {
                let r = PlayerStatus { waiting: false, connected: true, reconnecting: true, value: name };
                assert(r@.value == name@);
                r
            },
            ConnectionStatus::Waiting(key) => {
                proof { reveal_strlit("Key: "); }
                let mut text = String::from_str("Key: ");
                assert(text@ =~= seq!['K', 'e', 'y', ':', ' ']);
                push_decimal(&mut text, key);
                assert(text@ =~= key_text(key));
                PlayerStatus { waiting: true, connected: false, reconnecting: false, value: text }
            },
        }
    }
}


/// Declares `serde_json::Value`, the JSON value that a running game reports as
/// its state; the library carries it through without reading it.
#[verifier::external_type_specification]
#[verifier::external_body]
pub struct ExValue(serde_json::Value);

/// The record of a finished game.
pub struct FinishedState {
    pub winners: Vec<u64>,
    pub turns: u64,
    pub name: String,
    pub file: String,
    pub map: String,
    /// When the game ended, in seconds since the Unix epoch.
    pub time: u64,
    /// Each participant's identifier and name.
    pub players: Vec<(u64, String)>,
}

/// A game as the lobby lists it.
#[allow(inconsistent_fields)]
pub enum GameState {
    Finished {
        name: String,
        map: String,
        /// Each participant's name, and whether it is among the winners.
        players: Vec<(String, bool)>,
        turns: u64,
        file: String,
    },
    Playing {
        name: String,
        map: String,
        players: Vec<PlayerStatus>,
        connected: usize,
        total: usize,
        state: serde_json::Value,
    },
}

/// The value of a `GameState`.
#[allow(inconsistent_fields)]
pub enum GameStateView {
    Finished { name: Seq<char>, map: Seq<char>, players: Seq<(String, bool)>, turns: u64, file: Seq<char> },
    Playing {
        name: Seq<char>,
        map: Seq<char>,
        players: Seq<PlayerStatusView>,
        connected: nat,
        total: nat,
        state: serde_json::Value,
    },
}

impl View for GameState {
    type V = GameStateView;

    open spec fn view(&self) -> GameStateView {
        match self {
            GameState::Finished { name, map, players, turns, file } => GameStateView::Finished {
                name: name@,
                map: map@,
                players: players@,
                turns: *turns,
                file: file@,
            },
            GameState::Playing { name, map, players, connected, total, state } => GameStateView::Playing {
                name: name@,
                map: map@,
                players: players@.map_values(|p: PlayerStatus| p@),
                connected: *connected as nat,
                total: *total as nat,
                state: *state,
            },
        }
    }
}

/// `players` stably sorted by identifier: each one is placed after every
/// earlier one whose identifier is not larger.
pub open spec fn sort_by_id(players: Seq<(u64, String)>) -> Seq<(u64, String)>
    decreases players.len(),
{
    if players.len() == 0 {
        players
    } else {
        insert_by_id(sort_by_id(players.drop_last()), players.last())
    }
}

/// `x` inserted into `s` after every element whose identifier is not larger.
pub open spec fn insert_by_id(s: Seq<(u64, String)>, x: (u64, String)) -> Seq<(u64, String)>
    decreases s.len(),
{
    if s.len() == 0 {
        seq![x]
    } else if s.last().0 <= x.0 {
        s.push(x)
    } else {
        insert_by_id(s.drop_last(), x).push(s.last())
    }
}

proof fn lemma_insert_by_id_at(s: Seq<(u64, String)>, x: (u64, String), j: int)
    requires
        0 <= j <= s.len(),
        forall|k: int| j <= k < s.len() ==> (#[trigger] s[k]).0 > x.0,
        j == 0 || s[j - 1].0 <= x.0,
    ensures
        insert_by_id(s, x) == s.insert(j, x),
    decreases s.len(),
{
    if s.len() == 0 {
        assert(s.insert(j, x) =~= seq![x]);
    } else if j == s.len() {
        assert(s.insert(j, x) =~= s.push(x));
    } else {
        let init = s.drop_last();
        assert(s.last().0 > x.0);
        assert forall|k: int| j <= k < init.len() implies (#[trigger] init[k]).0 > x.0 by {
            assert(init[k] == s[k]);
        }
        if j > 0 {
            assert(init[j - 1] == s[j - 1]);
        }
        lemma_insert_by_id_at(init, x, j);
        assert(init.insert(j, x).push(s.last()) =~= s.insert(j, x));
    }
}

/// Identifiers never decrease along `s`.
pub open spec fn ids_sorted(s: Seq<(u64, String)>) -> bool {
    forall|i: int, j: int| 0 <= i < j < s.len() ==> (#[trigger] s[i]).0 <= (#[trigger] s[j]).0
}

proof fn lemma_insert_by_id_facts(s: Seq<(u64, String)>, x: (u64, String))
    requires
        ids_sorted(s),
    ensures
        ids_sorted(insert_by_id(s, x)),
        insert_by_id(s, x).to_multiset() == s.to_multiset().insert(x),
        forall|y: (u64, String)| insert_by_id(s, x).contains(y) ==> y == x || s.contains(y),
    decreases s.len(),
{
    broadcast use vstd::seq_lib::group_to_multiset_ensures;

    if s.len() == 0 {
        assert(insert_by_id(s, x) == seq![x]);
        assert(seq![x] == s.push(x));
        assert forall|y: (u64, String)| insert_by_id(s, x).contains(y) implies y == x || s.contains(y) by {
            let k = choose|k: int| 0 <= k < insert_by_id(s, x).len() && insert_by_id(s, x)[k] == y;
        }
    } else if s.last().0 <= x.0 {
        let r = s.push(x);
        assert forall|i: int, j: int| 0 <= i < j < r.len() implies (#[trigger] r[i]).0 <= (#[trigger] r[j]).0 by {
            if j == s.len() && i < s.len() - 1 {
                assert(s[i].0 <= s[s.len() - 1].0);
            }
        }
        assert forall|y: (u64, String)| r.contains(y) implies y == x || s.contains(y) by {
            let k = choose|k: int| 0 <= k < r.len() && r[k] == y;
            if k < s.len() {
                assert(s[k] == y);
            }
        }
    } else {
        let init = s.drop_last();
        let last = s.last();
        assert(ids_sorted(init)) by {
            assert forall|i: int, j: int| 0 <= i < j < init.len() implies (#[trigger] init[i]).0 <= (#[trigger] init[j]).0 by {
                assert(init[i] == s[i] && init[j] == s[j]);
            }
        }
        lemma_insert_by_id_facts(init, x);
        let m = insert_by_id(init, x);
        let r = m.push(last);
        assert forall|i: int, j: int| 0 <= i < j < r.len() implies (#[trigger] r[i]).0 <= (#[trigger] r[j]).0 by {
            if j == m.len() {
                assert(r[i] == m[i]);
                assert(m.contains(r[i]));
                if r[i] != x {
                    assert(init.contains(r[i]));
                    let k = choose|k: int| 0 <= k < init.len() && init[k] == r[i];
                    assert(s[k] == r[i]);
                    assert(s[k].0 <= s[s.len() - 1].0);
                }
            } else {
                assert(r[i] == m[i] && r[j] == m[j]);
            }
        }
        assert forall|y: (u64, String)| r.contains(y) implies y == x || s.contains(y) by {
            let k = choose|k: int| 0 <= k < r.len() && r[k] == y;
            if k < m.len() {
                assert(r[k] == m[k]);
                assert(m.contains(y));
                if y != x {
                    assert(init.contains(y));
                    let q = choose|q: int| 0 <= q < init.len() && init[q] == y;
                    assert(s[q] == y);
                    assert(s.contains(y));
                }
            } else {
                assert(s[s.len() - 1] == y);
                assert(s.contains(y));
            }
        }
        assert(s == init.push(last));
        assert(r.to_multiset() =~= s.to_multiset().insert(x));
    }
}

/// Sorting by identifier orders its input and loses or adds nothing.
pub proof fn lemma_sort_by_id(s: Seq<(u64, String)>)
    ensures
        ids_sorted(sort_by_id(s)),
        sort_by_id(s).to_multiset() == s.to_multiset(),
    decreases s.len(),
{
    broadcast use vstd::seq_lib::group_to_multiset_ensures;

    if s.len() > 0 {
        lemma_sort_by_id(s.drop_last());
        lemma_insert_by_id_facts(sort_by_id(s.drop_last()), s.last());
        assert(s == s.drop_last().push(s.last()));
    }
}

/// Sorts `players` by identifier, keeping the order of equal identifiers.
fn sort_players(players: Vec<(u64, String)>) -> (r: Vec<(u64, String)>)
    ensures
        r@ == sort_by_id(players@),
{
    let ghost all = players@;
    let mut rest = players;
    let mut out: Vec<(u64, String)> = Vec::new();
    let ghost mut i: int = 0;
    while rest.len() > 0
        invariant
            0 <= i <= all.len(),
            rest@ == all.skip(i),
            out@ == sort_by_id(all.take(i)),
        decreases rest.len(),
    {
        let x = rest.remove(0);
        proof {
            assert(all.take(i + 1).drop_last() == all.take(i));
            assert(all.take(i + 1).last() == x);
        }
        let mut j: usize = out.len();
        while j > 0 && out[j - 1].0 > x.0
            invariant
                j <= out@.len(),
                forall|k: int| j <= k < out@.len() ==> (#[trigger] out@[k]).0 > x.0,
            decreases j,
        {
            j = j - 1;
        }
        proof {
            lemma_insert_by_id_at(out@, x, j as int);
        }
        out.insert(j, x);
        proof {
            i = i + 1;
            assert(rest@ =~= all.skip(i));
        }
    }
    assert(all.take(i) == all);
    out
}

/// The lobby entry of a finished game: participants by identifier, each with
/// whether it won.
pub open spec fn finished_entry(winners: Seq<u64>, players: Seq<(u64, String)>) -> Seq<(String, bool)> {
    sort_by_id(players).map_values(|p: (u64, String)| (p.1, winners.contains(p.0)))
}

fn contains_id(ids: &Vec<u64>, id: u64) -> (r: bool)
    ensures
        r == ids@.contains(id),
{
    let n = ids.len();
    let mut i: usize = 0;
    while i < n
        invariant
            n == ids@.len(),
            i <= n,
            forall|j: int| 0 <= j < i ==> ids@[j] != id,
        decreases n - i,
    {
        if ids[i] == id {
            assert(ids@[i as int] == id);
            return true;
        }
        i = i + 1;
    }
    false
}

impl GameState {
    /// The lobby entry of a finished game.
    pub fn from(state: FinishedState) -> (r: GameState)
        ensures
            r@ == (GameStateView::Finished {
                name: state.name@,
                map: state.map@,
                players: finished_entry(state.winners@, state.players@),
                turns: state.turns,
                file: state.file@,
            }),
    {
        let FinishedState { winners, turns, name, file, map, time: _, players } = state;
        let sorted = sort_players(players);
        let ghost target = finished_entry(winners@, state.players@);
        let n = sorted.len();
        let mut entries: Vec<(String, bool)> = Vec::new();
        let mut i: usize = 0;
        while i < n
            invariant
                n == sorted@.len(),
                sorted@ == sort_by_id(state.players@),
                winners@ == state.winners@,
                target == finished_entry(winners@, state.players@),
                i <= n,
                entries@ == target.take(i as int),
            decreases n - i,
        {
            let won = contains_id(&winners, sorted[i].0);
            entries.push((sorted[i].1.clone(), won));
            assert(entries@ =~= target.take(i + 1));
            i = i + 1;
        }
        assert(target.take(n as int) =~= target);
        GameState::Finished { players: entries, map, name, turns, file }
    }
}


/// What the session manager knows of a session.
pub enum SessionStatus {
    /// The game runs; it reports this state and its players' connections.
    Running(serde_json::Value, Vec<ConnectionStatus>),
    /// The game is over.
    Finished(FinishedState),
    /// No session was ever registered under the identifier.
    Unknown,
}

/// Lexicographic order on character sequences from position `i` on, by code
/// point; a prefix comes first.
pub open spec fn lex_le_from(a: Seq<char>, b: Seq<char>, i: int) -> bool
    decreases a.len() - i,
{
    if i >= a.len() {
        true
    } else if i >= b.len() {
        false
    } else if (a[i] as u32) < (b[i] as u32) {
        true
    } else if (a[i] as u32) > (b[i] as u32) {
        false
    } else {
        lex_le_from(a, b, i + 1)
    }
}

/// `a` is not after `b` in lexicographic order.
pub open spec fn lex_le(a: Seq<char>, b: Seq<char>) -> bool {
    lex_le_from(a, b, 0)
}

/// Running games come before finished ones.
pub open spec fn rank(g: GameStateView) -> nat {
    match g {
        GameStateView::Playing { .. } => 0,
        GameStateView::Finished { .. } => 1,
    }
}

/// The name of a listed game.
pub open spec fn name_of(g: GameStateView) -> Seq<char> {
    match g {
        GameStateView::Playing { name, .. } => name,
        GameStateView::Finished { name, .. } => name,
    }
}

/// `a` is not after `b` in the lobby order: running games first, then by name.
pub open spec fn state_le(a: GameStateView, b: GameStateView) -> bool {
    rank(a) < rank(b) || (rank(a) == rank(b) && lex_le(name_of(a), name_of(b)))
}

/// `x` inserted into `s` after every element not after it.
pub open spec fn insert_state(s: Seq<GameStateView>, x: GameStateView) -> Seq<GameStateView>
    decreases s.len(),
{
    if s.len() == 0 {
        seq![x]
    } else if state_le(s.last(), x) {
        s.push(x)
    } else {
        insert_state(s.drop_last(), x).push(s.last())
    }
}

/// `s` stably sorted in the lobby order.
pub open spec fn sort_states(s: Seq<GameStateView>) -> Seq<GameStateView>
    decreases s.len(),
{
    if s.len() == 0 {
        s
    } else {
        insert_state(sort_states(s.drop_last()), s.last())
    }
}

proof fn lemma_insert_state_at(s: Seq<GameStateView>, x: GameStateView, j: int)
    requires
        0 <= j <= s.len(),
        forall|k: int| j <= k < s.len() ==> !state_le(#[trigger] s[k], x),
        j == 0 || state_le(s[j - 1], x),
    ensures
        insert_state(s, x) == s.insert(j, x),
    decreases s.len(),
{
    if s.len() == 0 {
        assert(s.insert(j, x) =~= seq![x]);
    } else if j == s.len() {
        assert(s.insert(j, x) =~= s.push(x));
    } else {
        let init = s.drop_last();
        assert(!state_le(s[s.len() - 1], x));
        assert forall|k: int| j <= k < init.len() implies !state_le(#[trigger] init[k], x) by {
            assert(init[k] == s[k]);
        }
        if j > 0 {
            assert(init[j - 1] == s[j - 1]);
        }
        lemma_insert_state_at(init, x, j);
        assert(init.insert(j, x).push(s.last()) =~= s.insert(j, x));
    }
}

/// Each element of `s` is not after any later one in the lobby order.
pub open spec fn states_sorted(s: Seq<GameStateView>) -> bool {
    forall|i: int, j: int| 0 <= i < j < s.len() ==> state_le(#[trigger] s[i], #[trigger] s[j])
}

proof fn lemma_lex_total(a: Seq<char>, b: Seq<char>, i: int)
    requires
        0 <= i,
    ensures
        lex_le_from(a, b, i) || lex_le_from(b, a, i),
    decreases a.len() - i,
{
    if i < a.len() && i < b.len() && (a[i] as u32) == (b[i] as u32) {
        lemma_lex_total(a, b, i + 1);
    }
}

proof fn lemma_lex_trans(a: Seq<char>, b: Seq<char>, c: Seq<char>, i: int)
    requires
        0 <= i,
        lex_le_from(a, b, i),
        lex_le_from(b, c, i),
    ensures
        lex_le_from(a, c, i),
    decreases a.len() - i,
{
    if i < a.len() && i < b.len() && i < c.len() && (a[i] as u32) == (b[i] as u32) && (b[i] as u32) == (c[i] as u32) {
        lemma_lex_trans(a, b, c, i + 1);
    }
}

/// The lobby order is total and transitive.
pub proof fn lemma_state_le_order(a: GameStateView, b: GameStateView, c: GameStateView)
    ensures
        state_le(a, b) || state_le(b, a),
        state_le(a, b) && state_le(b, c) ==> state_le(a, c),
{
    lemma_lex_total(name_of(a), name_of(b), 0);
    if state_le(a, b) && state_le(b, c) && rank(a) == rank(b) && rank(b) == rank(c) {
        lemma_lex_trans(name_of(a), name_of(b), name_of(c), 0);
    }
}

proof fn lemma_insert_state_facts(s: Seq<GameStateView>, x: GameStateView)
    requires
        states_sorted(s),
    ensures
        states_sorted(insert_state(s, x)),
        insert_state(s, x).to_multiset() == s.to_multiset().insert(x),
        forall|y: GameStateView| insert_state(s, x).contains(y) ==> y == x || s.contains(y),
    decreases s.len(),
{
    broadcast use vstd::seq_lib::group_to_multiset_ensures;

    if s.len() == 0 {
        assert(insert_state(s, x) == seq![x]);
        assert(seq![x] == s.push(x));
        assert forall|y: GameStateView| insert_state(s, x).contains(y) implies y == x || s.contains(y) by {
            let k = choose|k: int| 0 <= k < insert_state(s, x).len() && insert_state(s, x)[k] == y;
        }
    } else if state_le(s.last(), x) {
        let r = s.push(x);
        assert forall|i: int, j: int| 0 <= i < j < r.len() implies state_le(#[trigger] r[i], #[trigger] r[j]) by {
            if j == s.len() {
                if i < s.len() - 1 {
                    lemma_state_le_order(s[i], s.last(), x);
                }
            }
        }
        assert forall|y: GameStateView| r.contains(y) implies y == x || s.contains(y) by {
            let k = choose|k: int| 0 <= k < r.len() && r[k] == y;
            if k < s.len() {
                assert(s[k] == y);
            }
        }
    } else {
        let init = s.drop_last();
        let last = s.last();
        assert(states_sorted(init)) by {
            assert forall|i: int, j: int| 0 <= i < j < init.len() implies state_le(#[trigger] init[i], #[trigger] init[j]) by {
                assert(init[i] == s[i] && init[j] == s[j]);
            }
        }
        lemma_insert_state_facts(init, x);
        let m = insert_state(init, x);
        let r = m.push(last);
        lemma_state_le_order(last, x, x);
        assert forall|i: int, j: int| 0 <= i < j < r.len() implies state_le(#[trigger] r[i], #[trigger] r[j]) by {
            if j == m.len() {
                assert(r[i] == m[i]);
                assert(m.contains(r[i]));
                assert(r[j] == last);
                if r[i] != x {
                    assert(init.contains(r[i]));
                    let k = choose|k: int| 0 <= k < init.len() && init[k] == r[i];
                    assert(s[k] == r[i]);
                    assert(state_le(s[k], s[s.len() - 1]));
                }
            } else {
                assert(r[i] == m[i] && r[j] == m[j]);
            }
        }
        assert forall|y: GameStateView| r.contains(y) implies y == x || s.contains(y) by {
            let k = choose|k: int| 0 <= k < r.len() && r[k] == y;
            if k < m.len() {
                assert(r[k] == m[k]);
                assert(m.contains(y));
                if y != x {
                    assert(init.contains(y));
                    let q = choose|q: int| 0 <= q < init.len() && init[q] == y;
                    assert(s[q] == y);
                    assert(s.contains(y));
                }
            } else {
                assert(s[s.len() - 1] == y);
                assert(s.contains(y));
            }
        }
        assert(s == init.push(last));
        assert(r.to_multiset() =~= s.to_multiset().insert(x));
    }
}

/// The lobby sort orders its input and loses or adds nothing.
pub proof fn lemma_sort_states(s: Seq<GameStateView>)
    ensures
        states_sorted(sort_states(s)),
        sort_states(s).to_multiset() == s.to_multiset(),
    decreases s.len(),
{
    broadcast use vstd::seq_lib::group_to_multiset_ensures;

    if s.len() > 0 {
        lemma_sort_states(s.drop_last());
        lemma_insert_state_facts(sort_states(s.drop_last()), s.last());
        assert(s == s.drop_last().push(s.last()));
    }
}

/// Whether `a` is not after `b` in lexicographic order.
fn names_le(a: &String, b: &String) -> (r: bool)
    ensures
        r == lex_le(a@, b@),
{
    let sa = a.as_str();
    let sb = b.as_str();
    let la = sa.unicode_len();
    let lb = sb.unicode_len();
    let mut i: usize = 0;
    while i < la && i < lb
        invariant
            sa@ == a@,
            sb@ == b@,
            la == a@.len(),
            lb == b@.len(),
            i <= la,
            i <= lb,
            lex_le(a@, b@) == lex_le_from(a@, b@, i as int),
        decreases la - i,
    {
        let ca = sa.get_char(i);
        let cb = sb.get_char(i);
        if (ca as u32) < (cb as u32) {
            return true;
        }
        if (ca as u32) > (cb as u32) {
            return false;
        }
        i = i + 1;
    }
    i >= la
}

/// Whether `a` is not after `b` in the lobby order.
fn game_state_le(a: &GameState, b: &GameState) -> (r: bool)
    ensures
        r == state_le(a@, b@),
{
    match (a, b) {
        (GameState::Playing { .. }, GameState::Finished { .. }) => true,
        (GameState::Finished { .. }, GameState::Playing { .. }) => false,
        (GameState::Playing { name: x, .. }, GameState::Playing { name: y, .. }) => names_le(x, y),
        (GameState::Finished { name: x, .. }, GameState::Finished { name: y, .. }) => names_le(x, y),
    }
}

/// The values of a list of games.
pub open spec fn states_view(s: Seq<GameState>) -> Seq<GameStateView> {
    s.map_values(|g: GameState| g@)
}

/// Sorts `states` in the lobby order, keeping the order of equal entries.
pub fn sort_game_states(states: Vec<GameState>) -> (r: Vec<GameState>)
    ensures
        states_view(r@) == sort_states(states_view(states@)),
{
    let ghost all = states_view(states@);
    let mut rest = states;
    let mut out: Vec<GameState> = Vec::new();
    let ghost mut i: int = 0;
    while rest.len() > 0
        invariant
            0 <= i <= all.len(),
            states_view(rest@) == all.skip(i),
            states_view(out@) == sort_states(all.take(i)),
        decreases rest.len(),
    {
        let ghost rest_before = rest@;
        let x = rest.remove(0);
        proof {
            assert(states_view(rest_before).len() == rest_before.len());
            assert(i < all.len());
            assert(states_view(rest_before)[0] == x@);
            assert(all.take(i + 1).drop_last() =~= all.take(i));
            assert(all.take(i + 1).last() == all[i]);
            assert(all.skip(i)[0] == all[i]);
        }
        let mut j: usize = out.len();
        while j > 0 && !game_state_le(&out[j - 1], &x)
            invariant
                j <= out@.len(),
                forall|k: int| j <= k < out@.len() ==> !state_le(#[trigger] states_view(out@)[k], x@),
            decreases j,
        {
            j = j - 1;
        }
        proof {
            lemma_insert_state_at(states_view(out@), x@, j as int);
        }
        let ghost out_before = out@;
        out.insert(j, x);
        proof {
            assert(states_view(out@) =~= states_view(out_before).insert(j as int, x@));
            assert(rest@ =~= rest_before.subrange(1, rest_before.len() as int));
            assert forall|k: int| 0 <= k < rest@.len() implies states_view(rest@)[k] == all.skip(i + 1)[k] by {
                assert(rest@[k] == rest_before[k + 1]);
                assert(states_view(rest_before)[k + 1] == all.skip(i)[k + 1]);
            }
            i = i + 1;
            assert(states_view(rest@) =~= all.skip(i));
        }
    }
    assert(all.take(i) == all);
    out
}

/// Number of connected players among `players`.
pub open spec fn connected_count(players: Seq<PlayerStatusView>) -> nat
    decreases players.len(),
{
    if players.len() == 0 {
        0
    } else {
        connected_count(players.drop_last()) + if players.last().connected { 1nat } else { 0nat }
    }
}

/// The lobby entry of the session named `name`, unless it is unknown.
pub open spec fn entry_of(name: String, status: SessionStatus) -> Option<GameStateView> {
    match status {
        SessionStatus::Running(state, conns) => {
            let players = conns@.map_values(|c: ConnectionStatus| status_view(c));
            Some(GameStateView::Playing {
                name: name@,
                map: Seq::empty(),
                players,
                connected: connected_count(players),
                total: players.len(),
                state,
            })
        },
        SessionStatus::Finished(f) => Some(GameStateView::Finished {
            name: f.name@,
            map: f.map@,
            players: finished_entry(f.winners@, f.players@),
            turns: f.turns,
            file: f.file@,
        }),
        SessionStatus::Unknown => None,
    }
}

/// The lobby entries of the known sessions among `entries`, in their order.
pub open spec fn entries_of(entries: Seq<(String, SessionStatus)>) -> Seq<GameStateView>
    decreases entries.len(),
{
    if entries.len() == 0 {
        Seq::empty()
    } else {
        let r = entries_of(entries.drop_last());
        match entry_of(entries.last().0, entries.last().1) {
            Some(g) => r.push(g),
            None => r,
        }
    }
}

/// The display states of a running game's connections, and how many of them
/// are connected.
fn player_statuses(conns: Vec<ConnectionStatus>) -> (r: (Vec<PlayerStatus>, usize))
    ensures
        r.0@.map_values(|p: PlayerStatus| p@) == conns@.map_values(|c: ConnectionStatus| status_view(c)),
        r.1 == connected_count(r.0@.map_values(|p: PlayerStatus| p@)),
{
    let ghost all = conns@;
    let ghost target = all.map_values(|c: ConnectionStatus| status_view(c));
    let total_len = conns.len();
    let mut rest = conns;
    let mut out: Vec<PlayerStatus> = Vec::new();
    let mut connected: usize = 0;
    let ghost mut i: int = 0;
    while rest.len() > 0
        invariant
            0 <= i <= all.len(),
            all.len() == total_len,
            target == all.map_values(|c: ConnectionStatus| status_view(c)),
            rest@ == all.skip(i),
            out@.map_values(|p: PlayerStatus| p@) == target.take(i),
            connected == connected_count(target.take(i)),
            connected <= i,
        decreases rest.len(),
    {
        let c = rest.remove(0);
        proof {
            assert(all.skip(i)[0] == c);
            assert(target.take(i + 1).drop_last() =~= target.take(i));
        }
        let st = PlayerStatus::from(c);
        if st.connected {
            connected = connected + 1;
        }
        out.push(st);
        proof {
            assert(out@.map_values(|p: PlayerStatus| p@) =~= target.take(i + 1));
            i = i + 1;
            assert(rest@ =~= all.skip(i));
        }
    }
    assert(target.take(i) =~= target);
    (out, connected)
}

/// The lobby listing: one entry per known session among `entries`, running
/// games first, then by name.
pub fn get_states(entries: Vec<(String, SessionStatus)>) -> (r: Vec<GameState>)
    ensures
        states_view(r@) == sort_states(entries_of(entries@)),
        states_sorted(states_view(r@)),
        states_view(r@).to_multiset() == entries_of(entries@).to_multiset(),
{
    proof {
        lemma_sort_states(entries_of(entries@));
    }
    let ghost all = entries@;
    let mut rest = entries;
    let mut states: Vec<GameState> = Vec::new();
    let ghost mut i: int = 0;
    while rest.len() > 0
        invariant
            0 <= i <= all.len(),
            rest@ == all.skip(i),
            states_view(states@) == entries_of(all.take(i)),
        decreases rest.len(),
    {
        let (name, status) = rest.remove(0);
        proof {
            assert(all.skip(i)[0] == (name, status));
            assert(all.take(i + 1).drop_last() =~= all.take(i));
            assert(all.take(i + 1).last() == (name, status));
        }
        let ghost before = states@;
        match status {
            SessionStatus::Running(state, conns) => {
                let (players, connected) = player_statuses(conns);
                let total = players.len();
                states.push(GameState::Playing { name, map: String::new(), players, connected, total, state });
                assert(states_view(states@) =~= states_view(before).push(states@.last()@));
            },
            SessionStatus::Finished(f) => {
                states.push(GameState::from(f));
                assert(states_view(states@) =~= states_view(before).push(states@.last()@));
            },
            SessionStatus::Unknown => {},
        }
        proof {
            i = i + 1;
            assert(rest@ =~= all.skip(i));
        }
    }
    assert(all.take(i) == all);
    sort_game_states(states)
}


/// The games started on this server: each one's name and session identifier,
/// in the order they were added.
pub struct Games {
    pub inner: Vec<(String, u64)>,
}

impl Games {
    /// An empty registry.
    pub fn new() -> (r: Self)
        ensures
            r.inner@.len() == 0,
    {
        Games { inner: Vec::new() }
    }

    /// Registers the game `name` under the session identifier `id`.
    pub fn add_game(&mut self, name: String, id: u64)
        ensures
            final(self).inner@ == old(self).inner@.push((name, id)),
    {
        self.inner.push((name, id));
    }

    /// A copy of every registered game, in the order they were added.
    pub fn get_games(&self) -> (r: Vec<(String, u64)>)
        ensures
            r@ == self.inner@,
    {
        let n = self.inner.len();
        let mut out: Vec<(String, u64)> = Vec::new();
        let mut i: usize = 0;
        while i < n
            invariant
                n == self.inner@.len(),
                i <= n,
                out@ == self.inner@.take(i as int),
            decreases n - i,
        {
            let name = self.inner[i].0.clone();
            out.push((name, self.inner[i].1));
            assert(out@ =~= self.inner@.take(i + 1));
            i = i + 1;
        }
        assert(self.inner@.take(n as int) =~= self.inner@);
        out
    }
}

/// An ASCII letter or digit.
pub open spec fn is_alphanumeric(c: char) -> bool {
    ('a' <= c && c <= 'z') || ('A' <= c && c <= 'Z') || ('0' <= c && c <= '9')
}

/// Relies on rand's `thread_rng` sampled with `distributions::Alphanumeric`:
/// `len` characters, each an ASCII letter or digit, drawn at random.
#[verifier::external_body]
fn random_alphanumeric(len: usize) -> (r: String)
    ensures
        r@.len() == len,
        forall|i: int| 0 <= i < len ==> is_alphanumeric(#[trigger] r@[i]),
{
    rand::Rng::sample_iter(rand::thread_rng(), rand::distributions::Alphanumeric).take(len).collect::<String>()
}

/// A fresh random file name for a game's replay log: fifteen letters or
/// digits followed by `.json`.
pub fn generate_string_id() -> (r: String)
    ensures
        r@.len() == 20,
        forall|i: int| 0 <= i < 15 ==> is_alphanumeric(#[trigger] r@[i]),
        r@.subrange(15, 20) == seq!['.', 'j', 's', 'o', 'n'],
{
    let mut id = random_alphanumeric(15);
    let ghost prefix = id@;
    proof { reveal_strlit(".json"); }
    id.append(".json");
    assert(id@.subrange(15, 20) =~= seq!['.', 'j', 's', 'o', 'n']);
    assert forall|i: int| 0 <= i < 15 implies is_alphanumeric(#[trigger] id@[i]) by {
        assert(id@[i] == prefix[i]);
    }
    id
}

} // verus!
