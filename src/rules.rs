//! The rule engine: planets, expeditions, players, and how one turn changes them.

use vstd::prelude::*;

use crate::protocol::{Command, CommandError};

verus! {

/// A planet of the game world. Coordinates are integral map units.
pub struct Planet {
    pub id: usize,
    pub name: String,
    pub owner: Option<u64>,
    pub ship_count: u64,
    pub x: i32,
    pub y: i32,
}

/// A fleet in flight between two planets.
#[derive(Clone, Copy, Debug, PartialEq, Eq, Structural)]
pub struct Expedition {
    pub id: u64,
    pub owner: u64,
    pub origin: usize,
    pub target: usize,
    pub ship_count: u64,
    pub turns_remaining: u64,
}

/// A participant of a session; alive while it owns at least one planet.
#[derive(Clone, Copy, Debug, PartialEq, Eq, Structural)]
pub struct Player {
    pub id: u64,
    pub alive: bool,
}

/// A validated move: the only form in which a command changes the world.
#[derive(Clone, Copy, Debug, PartialEq, Eq, Structural)]
pub struct Dispatch {
    pub origin: usize,
    pub target: usize,
    pub ship_count: u64,
}

/// The whole game world.
pub struct PlanetWars {
    pub players: Vec<Player>,
    pub planets: Vec<Planet>,
    pub expeditions: Vec<Expedition>,
    /// Identifier that the next expedition receives.
    pub expedition_num: u64,
    pub turn_num: u64,
    pub max_turns: u64,
    /// Ships that every owned planet gains at each repopulation.
    pub growth: u64,
}

/// Squared Euclidean distance between two planets.
pub open spec fn dist2(a: Planet, b: Planet) -> nat {
    let dx = a.x - b.x;
    let dy = a.y - b.y;
    (dx * dx + dy * dy) as nat
}

/// `r` is the square root of `d`, rounded up.
pub open spec fn is_ceil_sqrt(r: nat, d: nat) -> bool {
    &&& r * r >= d
    &&& (r == 0 || (r - 1) * (r - 1) < d)
}

/// Number of turns an expedition needs between two planets: their Euclidean
/// distance rounded up.
pub open spec fn travel_turns(a: Planet, b: Planet) -> nat {
    choose|r: nat| is_ceil_sqrt(r, dist2(a, b))
}

pub proof fn lemma_ceil_sqrt_unique(r1: nat, r2: nat, d: nat)
    requires
        is_ceil_sqrt(r1, d),
        is_ceil_sqrt(r2, d),
    ensures
        r1 == r2,
{
    if r1 < r2 {
        assert((r2 - 1) * (r2 - 1) < d);
        assert(r1 <= r2 - 1);
        assert(r1 * r1 <= (r2 - 1) * (r2 - 1)) by (nonlinear_arith)
            requires r1 <= r2 - 1, r1 >= 0;
    } else if r2 < r1 {
        assert(r2 * r2 <= (r1 - 1) * (r1 - 1)) by (nonlinear_arith)
            requires r2 <= r1 - 1, r2 >= 0;
    }
}

/// The square root of `d`, rounded up.
fn ceil_sqrt(d: u128) -> (r: u64)
    requires
        d <= 0x4_0000_0000_0000_0000u128,
    ensures
        is_ceil_sqrt(r as nat, d as nat),
{
    let mut lo: u64 = 0;
    let mut hi: u64 = 0x2_0000_0000;
    assert(0x2_0000_0000u128 * 0x2_0000_0000u128 == 0x4_0000_0000_0000_0000u128) by (nonlinear_arith);
    while lo < hi
        invariant
            lo <= hi <= 0x2_0000_0000,
            d <= 0x4_0000_0000_0000_0000u128,
            (hi as nat) * (hi as nat) >= d,
            lo == 0 || ((lo - 1) as nat) * ((lo - 1) as nat) < d,
        decreases hi - lo,
    {
        let mid: u64 = lo + (hi - lo) / 2;
        assert((mid as nat) * (mid as nat) <= 0x4_0000_0000_0000_0000) by (nonlinear_arith)
            requires mid <= 0x2_0000_0000;
        let sq: u128 = (mid as u128) * (mid as u128);
        if sq >= d {
            hi = mid;
        } else {
            lo = mid + 1;
        }
    }
    lo
}


/// The mathematical value of a game world.
pub struct World {
    pub players: Seq<Player>,
    pub planets: Seq<Planet>,
    pub expeditions: Seq<Expedition>,
    pub expedition_num: u64,
    pub turn_num: u64,
    pub max_turns: u64,
    pub growth: u64,
}

impl View for PlanetWars {
    type V = World;

    open spec fn view(&self) -> World {
        World {
            players: self.players@,
            planets: self.planets@,
            expeditions: self.expeditions@,
            expedition_num: self.expedition_num,
            turn_num: self.turn_num,
            max_turns: self.max_turns,
            growth: self.growth,
        }
    }
}

/// Some planet of `planets` belongs to `player`.
pub open spec fn owns_planet(planets: Seq<Planet>, player: u64) -> bool {
    exists|i: int| 0 <= i < planets.len() && (#[trigger] planets[i]).owner == Some(player)
}

/// The identifier that follows `n`; identifiers wrap around after the largest.
pub open spec fn next_id(n: u64) -> u64 {
    if n < u64::MAX {
        (n + 1) as u64
    } else {
        0
    }
}

impl World {
    /// Identifiers match positions, names are unique, every reference to a
    /// player or a planet is in range, and a player is alive exactly when it
    /// owns a planet.
    pub open spec fn wf(self) -> bool {
        &&& forall|i: int| 0 <= i < self.players.len() ==> (#[trigger] self.players[i]).id == i
        &&& forall|i: int| 0 <= i < self.players.len() ==>
            (#[trigger] self.players[i]).alive == owns_planet(self.planets, i as u64)
        &&& forall|i: int| 0 <= i < self.planets.len() ==> (#[trigger] self.planets[i]).id == i
        &&& forall|i: int| 0 <= i < self.planets.len() ==>
            ((#[trigger] self.planets[i]).owner matches Some(o) ==> o < self.players.len())
        &&& forall|i: int, j: int|
            0 <= i < self.planets.len() && 0 <= j < self.planets.len() && i != j
                ==> (#[trigger] self.planets[i]).name@ != (#[trigger] self.planets[j]).name@
        &&& forall|i: int| 0 <= i < self.expeditions.len() ==> {
            let e = #[trigger] self.expeditions[i];
            &&& e.origin < self.planets.len()
            &&& e.target < self.planets.len()
            &&& e.owner < self.players.len()
        }
    }

    /// Some planet carries the name `name`.
    pub open spec fn has_planet(self, name: Seq<char>) -> bool {
        exists|i: int| 0 <= i < self.planets.len() && (#[trigger] self.planets[i]).name@ == name
    }

    /// The position of the planet named `name`.
    pub open spec fn planet_index(self, name: Seq<char>) -> int {
        choose|i: int| 0 <= i < self.planets.len() && (#[trigger] self.planets[i]).name@ == name
    }

    /// What `player`'s command turns into: the checks run in a fixed order and
    /// the first that fails gives the error.
    pub open spec fn validate(self, player: u64, cmd: Command) -> Result<Dispatch, CommandError> {
        if !self.has_planet(cmd.origin@) {
            Err(CommandError::OriginDoesNotExist)
        } else if !self.has_planet(cmd.destination@) {
            Err(CommandError::DestinationDoesNotExist)
        } else {
            let o = self.planet_index(cmd.origin@);
            let t = self.planet_index(cmd.destination@);
            if self.planets[o].owner != Some(player) {
                Err(CommandError::OriginNotOwned)
            } else if self.planets[o].ship_count < cmd.ship_count {
                Err(CommandError::NotEnoughShips)
            } else if cmd.ship_count == 0 {
                Err(CommandError::ZeroShipMove)
            } else {
                Ok(Dispatch { origin: o as usize, target: t as usize, ship_count: cmd.ship_count })
            }
        }
    }
}

impl World {
    /// The world after `d` is applied: the ships leave the origin at once and
    /// travel as a new expedition of the origin's owner.
    pub open spec fn dispatch(self, d: Dispatch) -> World {
        let o = d.origin as int;
        let p = self.planets[o];
        let e = Expedition {
            id: self.expedition_num,
            owner: p.owner.unwrap(),
            origin: d.origin,
            target: d.target,
            ship_count: d.ship_count,
            turns_remaining: travel_turns(p, self.planets[d.target as int]) as u64,
        };
        World {
            planets: self.planets.update(o, Planet { ship_count: (p.ship_count - d.ship_count) as u64, ..p }),
            expeditions: self.expeditions.push(e),
            expedition_num: next_id(self.expedition_num),
            ..self
        }
    }

    /// The world after each owned planet has gained `growth` ships, saturating
    /// at the largest count.
    pub open spec fn repopulate(self) -> World {
        World { planets: Seq::new(self.planets.len(), |i: int| grown(self.planets[i], self.growth)), ..self }
    }
}

/// `e` one turn further on its way.
pub open spec fn tick(e: Expedition) -> Expedition {
    Expedition { turns_remaining: e.turns_remaining.saturating_sub(1), ..e }
}

/// Planet `p` after expedition `e` has arrived there. A fleet joins the ships
/// of a neutral planet or of its owner's own planet. Against another owner the
/// larger force wins and keeps the difference; on a tie the planet is left
/// neutral and empty.
pub open spec fn land(p: Planet, e: Expedition) -> Planet {
    match p.owner {
        None => Planet { ship_count: p.ship_count.saturating_add(e.ship_count), ..p },
        Some(o) => if o == e.owner {
            Planet { ship_count: p.ship_count.saturating_add(e.ship_count), ..p }
        } else if e.ship_count > p.ship_count {
            Planet { owner: Some(e.owner), ship_count: (e.ship_count - p.ship_count) as u64, ..p }
        } else if e.ship_count < p.ship_count {
            Planet { ship_count: (p.ship_count - e.ship_count) as u64, ..p }
        } else {
            Planet { owner: None, ship_count: 0, ..p }
        },
    }
}

/// The planets after the expeditions of `exps` whose journey is over have
/// arrived, one after another in their order.
pub open spec fn land_all(planets: Seq<Planet>, exps: Seq<Expedition>) -> Seq<Planet>
    decreases exps.len(),
{
    if exps.len() == 0 {
        planets
    } else {
        let ps = land_all(planets, exps.drop_last());
        let e = exps.last();
        if e.turns_remaining == 0 {
            ps.update(e.target as int, land(ps[e.target as int], e))
        } else {
            ps
        }
    }
}

/// The expeditions of `exps` that are still under way, in their order.
pub open spec fn in_flight(exps: Seq<Expedition>) -> Seq<Expedition>
    decreases exps.len(),
{
    if exps.len() == 0 {
        exps
    } else {
        let r = in_flight(exps.drop_last());
        if exps.last().turns_remaining > 0 {
            r.push(exps.last())
        } else {
            r
        }
    }
}

/// Number of players marked alive.
pub open spec fn alive_count(players: Seq<Player>) -> nat
    decreases players.len(),
{
    if players.len() == 0 {
        0
    } else {
        alive_count(players.drop_last()) + if players.last().alive { 1nat } else { 0nat }
    }
}

/// Identifiers of the players marked alive, in their order.
pub open spec fn living(players: Seq<Player>) -> Seq<u64>
    decreases players.len(),
{
    if players.len() == 0 {
        Seq::empty()
    } else {
        let r = living(players.drop_last());
        if players.last().alive {
            r.push(players.last().id)
        } else {
            r
        }
    }
}

impl World {
    /// The world one turn later: every expedition advances, those that have
    /// arrived land in order, each player is alive exactly when it still owns
    /// a planet, and the turn counter moves on by one.
    pub open spec fn step(self) -> World {
        let ticked = self.expeditions.map_values(|e: Expedition| tick(e));
        let planets = land_all(self.planets, ticked);
        World {
            planets,
            expeditions: in_flight(ticked),
            players: Seq::new(
                self.players.len(),
                |i: int| Player { id: self.players[i].id, alive: owns_planet(planets, i as u64) },
            ),
            turn_num: (self.turn_num + 1) as u64,
            ..self
        }
    }

    /// At most one player is left, or the turn limit is reached.
    pub open spec fn is_finished(self) -> bool {
        alive_count(self.players) <= 1 || self.turn_num >= self.max_turns
    }
}

/// `p` after one repopulation.
pub open spec fn grown(p: Planet, growth: u64) -> Planet {
    if p.owner is Some {
        Planet { ship_count: p.ship_count.saturating_add(growth), ..p }
    } else {
        p
    }
}

/// Number of turns between two planets.
fn travel_time(a: &Planet, b: &Planet) -> (r: u64)
    ensures
        r as nat == travel_turns(*a, *b),
{
    let dx: i64 = a.x as i64 - b.x as i64;
    let dy: i64 = a.y as i64 - b.y as i64;
    let ux: u128 = if dx < 0 { (-dx) as u128 } else { dx as u128 };
    let uy: u128 = if dy < 0 { (-dy) as u128 } else { dy as u128 };
    assert(ux * ux <= 0x1_0000_0000_0000_0000) by (nonlinear_arith)
        requires ux <= 0x1_0000_0000;
    assert(uy * uy <= 0x1_0000_0000_0000_0000) by (nonlinear_arith)
        requires uy <= 0x1_0000_0000;
    let d: u128 = ux * ux + uy * uy;
    assert(d as nat == dist2(*a, *b)) by (nonlinear_arith)
        requires
            d == ux * ux + uy * uy,
            ux == dx || ux == -dx,
            uy == dy || uy == -dy,
            dx == a.x - b.x,
            dy == a.y - b.y,
    ;
    let r = ceil_sqrt(d);
    proof {
        let k = travel_turns(*a, *b);
        assert(is_ceil_sqrt(r as nat, dist2(*a, *b)));
        assert(is_ceil_sqrt(k, dist2(*a, *b)));
        lemma_ceil_sqrt_unique(r as nat, k, dist2(*a, *b));
    }
    r
}

impl PlanetWars {
    /// The position of the planet named `name`, if there is one.
    pub fn planet_id(&self, name: &String) -> (r: Option<usize>)
        requires
            self@.wf(),
        ensures
            match r {
                Some(i) => self@.has_planet(name@) && i == self@.planet_index(name@),
                None => !self@.has_planet(name@),
            },
    {
        let n = self.planets.len();
        let mut i: usize = 0;
        while i < n
            invariant
                self@.wf(),
                n == self.planets@.len(),
                i <= n,
                forall|j: int| 0 <= j < i ==> (#[trigger] self.planets@[j]).name@ != name@,
            decreases n - i,
        {
            if self.planets[i].name == *name {
                proof {
                    let k = self@.planet_index(name@);
                    assert(self.planets@[i as int].name@ == name@);
                    assert(self@.has_planet(name@));
                    assert(self@.planets[k].name@ == name@);
                    if k != i as int {
                        assert(self@.planets[k].name@ != self@.planets[i as int].name@);
                    }
                }
                return Some(i);
            }
            i = i + 1;
        }
        None
    }

    /// Checks `player`'s command against the current world without changing it.
    pub fn check_valid_command(&self, player: u64, cmd: &Command) -> (r: Result<Dispatch, CommandError>)
        requires
            self@.wf(),
        ensures
            r == self@.validate(player, *cmd),
            !self@.has_planet(cmd.origin@) ==> r == Err::<Dispatch, CommandError>(CommandError::OriginDoesNotExist),
            self@.has_planet(cmd.origin@) && !self@.has_planet(cmd.destination@)
                ==> r == Err::<Dispatch, CommandError>(CommandError::DestinationDoesNotExist),
            cmd.ship_count == 0 ==> r.is_err(),
            cmd.ship_count == 0 && self@.has_planet(cmd.origin@) && self@.has_planet(cmd.destination@)
                && self@.planets[self@.planet_index(cmd.origin@)].owner == Some(player)
                ==> r == Err::<Dispatch, CommandError>(CommandError::ZeroShipMove),
            r matches Ok(d) ==> {
                &&& d.origin < self@.planets.len()
                &&& d.target < self@.planets.len()
                &&& self@.planets[d.origin as int].owner == Some(player)
                &&& 0 < d.ship_count <= self@.planets[d.origin as int].ship_count
            },
    {
        let origin = match self.planet_id(&cmd.origin) {
            Some(i) => i,
            None => {
                return Err(CommandError::OriginDoesNotExist);
            },
        };
        let target = match self.planet_id(&cmd.destination) {
            Some(i) => i,
            None => {
                return Err(CommandError::DestinationDoesNotExist);
            },
        };
        if self.planets[origin].owner != Some(player) {
            return Err(CommandError::OriginNotOwned);
        }
        if self.planets[origin].ship_count < cmd.ship_count {
            return Err(CommandError::NotEnoughShips);
        }
        if cmd.ship_count == 0 {
            return Err(CommandError::ZeroShipMove);
        }
        Ok(Dispatch { origin, target, ship_count: cmd.ship_count })
    }

    /// Applies a validated dispatch: the origin loses exactly `d.ship_count`
    /// ships and a new expedition of its owner sets out.
    pub fn dispatch(&mut self, d: &Dispatch)
        requires
            old(self)@.wf(),
            d.origin < old(self)@.planets.len(),
            d.target < old(self)@.planets.len(),
            old(self)@.planets[d.origin as int].owner is Some,
            d.ship_count <= old(self)@.planets[d.origin as int].ship_count,
        ensures
            final(self)@ == old(self)@.dispatch(*d),
            final(self)@.wf(),
            final(self)@.planets[d.origin as int].ship_count
                == old(self)@.planets[d.origin as int].ship_count - d.ship_count,
    {
        let turns = travel_time(&self.planets[d.origin], &self.planets[d.target]);
        let owner: u64 = match self.planets[d.origin].owner {
            Some(o) => o,
            None => 0,
        };
        let ships = self.planets[d.origin].ship_count - d.ship_count;
        self.planets[d.origin].ship_count = ships;
        let id = self.expedition_num;
        self.expeditions.push(Expedition {
            id,
            owner,
            origin: d.origin,
            target: d.target,
            ship_count: d.ship_count,
            turns_remaining: turns,
        });
        self.expedition_num = if id < u64::MAX { id + 1 } else { 0 };
        proof {
            let w0 = old(self)@;
            let w1 = self@;
            assert(w1.planets =~= w0.dispatch(*d).planets);
            assert(w1.expeditions =~= w0.dispatch(*d).expeditions);
            assert forall|p: u64| owns_planet(w1.planets, p) == owns_planet(w0.planets, p) by {
                if owns_planet(w0.planets, p) {
                    let i = choose|i: int| 0 <= i < w0.planets.len() && (#[trigger] w0.planets[i]).owner == Some(p);
                    assert(w1.planets[i].owner == Some(p));
                }
                if owns_planet(w1.planets, p) {
                    let i = choose|i: int| 0 <= i < w1.planets.len() && (#[trigger] w1.planets[i]).owner == Some(p);
                    assert(w0.planets[i].owner == Some(p));
                }
            }
        }
    }

    /// Lands `e` on its target planet.
    fn land_expedition(&mut self, e: Expedition)
        requires
            e.target < old(self).planets@.len(),
        ensures
            final(self).planets@ == old(self).planets@.update(
                e.target as int,
                land(old(self).planets@[e.target as int], e),
            ),
            final(self).players@ == old(self).players@,
            final(self).expeditions@ == old(self).expeditions@,
            final(self).expedition_num == old(self).expedition_num,
            final(self).turn_num == old(self).turn_num,
            final(self).max_turns == old(self).max_turns,
            final(self).growth == old(self).growth,
    {
        let t = e.target;
        let ships = self.planets[t].ship_count;
        match self.planets[t].owner {
            None => {
                self.planets[t].ship_count = ships.saturating_add(e.ship_count);
            },
            Some(o) => {
                if o == e.owner {
                    self.planets[t].ship_count = ships.saturating_add(e.ship_count);
                } else if e.ship_count > ships {
                    self.planets[t].owner = Some(e.owner);
                    self.planets[t].ship_count = e.ship_count - ships;
                } else if e.ship_count < ships {
                    self.planets[t].ship_count = ships - e.ship_count;
                } else {
                    self.planets[t].owner = None;
                    self.planets[t].ship_count = 0;
                }
            },
        }
        assert(self.planets@ =~= old(self).planets@.update(t as int, land(old(self).planets@[t as int], e)));
    }

    /// Whether some planet belongs to `player`.
    fn owns_any(&self, player: u64) -> (r: bool)
        ensures
            r == owns_planet(self.planets@, player),
    {
        let n = self.planets.len();
        let mut i: usize = 0;
        while i < n
            invariant
                n == self.planets@.len(),
                i <= n,
                forall|j: int| 0 <= j < i ==> (#[trigger] self.planets@[j]).owner != Some(player),
            decreases n - i,
        {
            if self.planets[i].owner == Some(player) {
                return true;
            }
            i = i + 1;
        }
        false
    }

    /// Advances the world by one turn.
    pub fn step(&mut self)
        requires
            old(self)@.wf(),
            old(self).turn_num < u64::MAX,
        ensures
            final(self)@ == old(self)@.step(),
            final(self)@.wf(),
            final(self).turn_num == old(self).turn_num + 1,
    {
        let ghost w0 = self@;
        let ghost ticked = w0.expeditions.map_values(|e: Expedition| tick(e));
        let n = self.expeditions.len();
        let mut flying: Vec<Expedition> = Vec::new();
        let mut i: usize = 0;
        while i < n
            invariant
                w0.wf(),
                ticked == w0.expeditions.map_values(|e: Expedition| tick(e)),
                n == w0.expeditions.len(),
                i <= n,
                self.expeditions@ == w0.expeditions,
                self.players@ == w0.players,
                self.expedition_num == w0.expedition_num,
                self.turn_num == w0.turn_num,
                self.max_turns == w0.max_turns,
                self.growth == w0.growth,
                self.planets@ == land_all(w0.planets, ticked.take(i as int)),
                flying@ == in_flight(ticked.take(i as int)),
                self.planets@.len() == w0.planets.len(),
                forall|j: int| 0 <= j < self.planets@.len() ==> {
                    &&& (#[trigger] self.planets@[j]).id == w0.planets[j].id
                    &&& self.planets@[j].name == w0.planets[j].name
                    &&& (self.planets@[j].owner matches Some(o) ==> o < w0.players.len())
                },
                forall|j: int| 0 <= j < flying@.len() ==> {
                    let e = #[trigger] flying@[j];
                    &&& e.origin < w0.planets.len()
                    &&& e.target < w0.planets.len()
                    &&& e.owner < w0.players.len()
                },
            decreases n - i,
        {
            let e = self.expeditions[i];
            let t = Expedition {
                turns_remaining: e.turns_remaining.saturating_sub(1),
                ..e
            };
            assert(ticked.take(i + 1).drop_last() == ticked.take(i as int));
            assert(ticked.take(i + 1).last() == t);
            if t.turns_remaining == 0 {
                let ghost before = self.planets@;
                self.land_expedition(t);
                proof {
                    assert forall|j: int| 0 <= j < self.planets@.len() implies {
                        &&& (#[trigger] self.planets@[j]).id == w0.planets[j].id
                        &&& self.planets@[j].name == w0.planets[j].name
                        &&& (self.planets@[j].owner matches Some(o) ==> o < w0.players.len())
                    } by {
                        if j != t.target as int {
                            assert(self.planets@[j] == before[j]);
                        }
                    }
                }
            } else {
                flying.push(t);
            }
            i = i + 1;
        }
        assert(ticked.take(n as int) == ticked);
        self.expeditions = flying;

        let ghost landed = self.planets@;
        let m = self.players.len();
        let mut k: usize = 0;
        while k < m
            invariant
                w0.wf(),
                w0.turn_num < u64::MAX,
                m == w0.players.len(),
                k <= m,
                self.planets@ == landed,
                landed == land_all(w0.planets, ticked),
                ticked == w0.expeditions.map_values(|e: Expedition| tick(e)),
                self.expeditions@ == in_flight(ticked),
                self.expedition_num == w0.expedition_num,
                self.turn_num == w0.turn_num,
                self.max_turns == w0.max_turns,
                self.growth == w0.growth,
                self.players@.len() == m,
                forall|j: int| 0 <= j < k ==> #[trigger] self.players@[j] == (Player {
                    id: w0.players[j].id,
                    alive: owns_planet(landed, j as u64),
                }),
                forall|j: int| k <= j < m ==> #[trigger] self.players@[j] == w0.players[j],
            decreases m - k,
        {
            let alive = self.owns_any(k as u64);
            self.players[k].alive = alive;
            k = k + 1;
        }
        self.turn_num = self.turn_num + 1;
        proof {
            let w1 = self@;
            let ws = w0.step();
            assert(w1.players =~= ws.players);
            assert(w1 == ws);
            assert forall|i: int, j: int|
                0 <= i < w1.planets.len() && 0 <= j < w1.planets.len() && i != j
                    implies (#[trigger] w1.planets[i]).name@ != (#[trigger] w1.planets[j]).name@ by {
                assert(w0.planets[i].name@ != w0.planets[j].name@);
            }
        }
    }

    /// Identifiers of the players that are still alive.
    pub fn living_players(&self) -> (r: Vec<u64>)
        ensures
            r@ == living(self.players@),
    {
        let n = self.players.len();
        let mut out: Vec<u64> = Vec::new();
        let mut i: usize = 0;
        while i < n
            invariant
                n == self.players@.len(),
                i <= n,
                out@ == living(self.players@.take(i as int)),
            decreases n - i,
        {
            assert(self.players@.take(i + 1).drop_last() == self.players@.take(i as int));
            if self.players[i].alive {
                out.push(self.players[i].id);
            }
            i = i + 1;
        }
        assert(self.players@.take(n as int) == self.players@);
        out
    }

    /// Whether the game is over: at most one player alive, or the turn limit reached.
    pub fn is_finished(&self) -> (r: bool)
        ensures
            r == self@.is_finished(),
    {
        let n = self.players.len();
        let mut count: usize = 0;
        let mut i: usize = 0;
        while i < n
            invariant
                n == self.players@.len(),
                i <= n,
                count == alive_count(self.players@.take(i as int)),
                count <= i,
            decreases n - i,
        {
            assert(self.players@.take(i + 1).drop_last() == self.players@.take(i as int));
            if self.players[i].alive {
                count = count + 1;
            }
            i = i + 1;
        }
        assert(self.players@.take(n as int) == self.players@);
        count <= 1 || self.turn_num >= self.max_turns
    }

    /// Every owned planet gains the configured growth in ships.
    pub fn repopulate(&mut self)
        requires
            old(self)@.wf(),
        ensures
            final(self)@ == old(self)@.repopulate(),
            final(self)@.wf(),
    {
        let n = self.planets.len();
        let growth = self.growth;
        let ghost w0 = self@;
        let mut i: usize = 0;
        while i < n
            invariant
                w0.wf(),
                growth == w0.growth,
                n == self.planets@.len(),
                n == w0.planets.len(),
                i <= n,
                self.players@ == w0.players,
                self.expeditions@ == w0.expeditions,
                self.expedition_num == w0.expedition_num,
                self.turn_num == w0.turn_num,
                self.max_turns == w0.max_turns,
                self.growth == w0.growth,
                forall|j: int| 0 <= j < i ==> #[trigger] self.planets@[j] == grown(w0.planets[j], growth),
                forall|j: int| i <= j < n ==> #[trigger] self.planets@[j] == w0.planets[j],
            decreases n - i,
        {
            if self.planets[i].owner.is_some() {
                let ships = self.planets[i].ship_count.saturating_add(growth);
                self.planets[i].ship_count = ships;
            }
            i = i + 1;
        }
        proof {
            let w1 = self@;
            assert(w1.planets =~= w0.repopulate().planets);
            assert forall|j: int| 0 <= j < n implies (#[trigger] w1.planets[j]).owner == w0.planets[j].owner
                && w1.planets[j].id == w0.planets[j].id && w1.planets[j].name == w0.planets[j].name by {
                assert(w1.planets[j] == grown(w0.planets[j], growth));
            }
            assert forall|p: u64| owns_planet(w1.planets, p) == owns_planet(w0.planets, p) by {
                if owns_planet(w0.planets, p) {
                    let i = choose|i: int| 0 <= i < w0.planets.len() && (#[trigger] w0.planets[i]).owner == Some(p);
                    assert(w1.planets[i].owner == Some(p));
                }
                if owns_planet(w1.planets, p) {
                    let i = choose|i: int| 0 <= i < w1.planets.len() && (#[trigger] w1.planets[i]).owner == Some(p);
                    assert(w0.planets[i].owner == Some(p));
                }
            }
        }
    }
}

} // verus!
