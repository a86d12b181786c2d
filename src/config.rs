//! Building the initial world of a session from a map.

use vstd::prelude::*;

use crate::rules::{owns_planet, Planet, PlanetWars, Player, World};

verus! {

/// A planet as a map describes it. Map owners are numbered from one.
pub struct MapPlanet {
    pub name: String,
    pub x: i32,
    pub y: i32,
    pub owner: Option<u64>,
    pub ship_count: u64,
}

/// Why a session could not be built.
#[derive(Clone, Copy, Debug, PartialEq, Eq, Structural)]
pub enum ConfigError {
    /// Two planets of the map share a name.
    DuplicatePlanetName,
}

/// The settings of a session.
pub struct Config {
    pub max_turns: u64,
    /// Ships gained by each owned planet at every turn.
    pub growth: u64,
}

/// The owner that map owner `owner` becomes in a game of `clients` players:
/// map players that take no part leave their planets neutral.
pub open spec fn map_owner(owner: Option<u64>, clients: u64) -> Option<u64> {
    match owner {
        Some(k) => if 1 <= k <= clients { Some((k - 1) as u64) } else { None },
        None => None,
    }
}

/// Planet number `i` of a game built from map planet `m`.
pub open spec fn planet_of(m: MapPlanet, i: int, clients: u64) -> Planet {
    Planet {
        id: i as usize,
        name: m.name,
        owner: map_owner(m.owner, clients),
        ship_count: m.ship_count,
        x: m.x,
        y: m.y,
    }
}

/// No two planets of the map share a name.
pub open spec fn names_unique(map: Seq<MapPlanet>) -> bool {
    forall|i: int, j: int|
        0 <= i < map.len() && 0 <= j < map.len() && i != j ==> (#[trigger] map[i]).name@ != (#[trigger] map[j]).name@
}

/// The world at the start of a game of `clients` players on `map`.
pub open spec fn initial_world(map: Seq<MapPlanet>, clients: u64, config: Config) -> World {
    let planets = Seq::new(map.len(), |i: int| planet_of(map[i], i, clients));
    World {
        players: Seq::new(clients as nat, |i: int| Player { id: i as u64, alive: owns_planet(planets, i as u64) }),
        planets,
        expeditions: Seq::empty(),
        expedition_num: 0,
        turn_num: 0,
        max_turns: config.max_turns,
        growth: config.growth,
    }
}

fn check_names_unique(map: &Vec<MapPlanet>) -> (r: bool)
    ensures
        r == names_unique(map@),
{
    let n = map.len();
    let mut i: usize = 0;
    while i < n
        invariant
            n == map@.len(),
            i <= n,
            forall|a: int, b: int| 0 <= a < i && 0 <= b < n && a != b ==> (#[trigger] map@[a]).name@ != (#[trigger] map@[b]).name@,
        decreases n - i,
    {
        let mut j: usize = 0;
        while j < n
            invariant
                n == map@.len(),
                i < n,
                j <= n,
                forall|a: int, b: int| 0 <= a < i && 0 <= b < n && a != b ==> (#[trigger] map@[a]).name@ != (#[trigger] map@[b]).name@,
                forall|b: int| 0 <= b < j && b != i ==> map@[i as int].name@ != (#[trigger] map@[b]).name@,
            decreases n - j,
        {
            if j != i && map[i].name == map[j].name {
                assert(!names_unique(map@)) by {
                    assert(map@[i as int].name@ == map@[j as int].name@);
                }
                return false;
            }
            j = j + 1;
        }
        i = i + 1;
    }
    true
}

impl Config {
    /// The initial world of a game of `clients` players on `map`; fails when
    /// two planets share a name.
    pub fn create_game(&self, map: &Vec<MapPlanet>, clients: u64) -> (r: Result<PlanetWars, ConfigError>)
        ensures
            match r {
                Ok(w) => names_unique(map@) && w@ == initial_world(map@, clients, *self) && w@.wf(),
                Err(e) => !names_unique(map@) && e == ConfigError::DuplicatePlanetName,
            },
    {
        if !check_names_unique(map) {
            return Err(ConfigError::DuplicatePlanetName);
        }
        let ghost target = initial_world(map@, clients, *self);
        let n = map.len();
        let mut planets: Vec<Planet> = Vec::new();
        let mut i: usize = 0;
        while i < n
            invariant
                n == map@.len(),
                i <= n,
                planets@.len() == i,
                forall|j: int| 0 <= j < i ==> #[trigger] planets@[j] == planet_of(map@[j], j, clients),
            decreases n - i,
        {
            let m = &map[i];
            let owner = match m.owner {
                Some(k) => if 1 <= k && k <= clients { Some(k - 1) } else { None },
                None => None,
            };
            planets.push(Planet { id: i, name: m.name.clone(), owner, ship_count: m.ship_count, x: m.x, y: m.y });
            i = i + 1;
        }
        assert(planets@ =~= target.planets);
        let mut players: Vec<Player> = Vec::new();
        let mut k: u64 = 0;
        while k < clients
            invariant
                k <= clients,
                planets@ == target.planets,
                players@.len() == k,
                forall|j: int| 0 <= j < k ==> #[trigger] players@[j] == (Player { id: j as u64, alive: owns_planet(target.planets, j as u64) }),
            decreases clients - k,
        {
            let mut alive = false;
            let mut j: usize = 0;
            while j < planets.len()
                invariant
                    j <= planets@.len(),
                    alive == exists|q: int| 0 <= q < j && (#[trigger] planets@[q]).owner == Some(k),
                decreases planets@.len() - j,
            {
                if planets[j].owner == Some(k) {
                    alive = true;
                }
                j = j + 1;
            }
            players.push(Player { id: k, alive });
            k = k + 1;
        }
        assert(players@ =~= target.players);
        let w = PlanetWars {
            players,
            planets,
            expeditions: Vec::new(),
            expedition_num: 0,
            turn_num: 0,
            max_turns: self.max_turns,
            growth: self.growth,
        };
        assert(w@.expeditions =~= target.expeditions);
        assert(w@ == target);
        proof {
            assert forall|a: int, b: int|
                0 <= a < w@.planets.len() && 0 <= b < w@.planets.len() && a != b
                    implies (#[trigger] w@.planets[a]).name@ != (#[trigger] w@.planets[b]).name@ by {
                assert(map@[a].name@ != map@[b].name@);
            }
        }
        Ok(w)
    }
}

} // verus!
