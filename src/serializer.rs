//! Projection of the world into the state that a player is shown.
//!
//! Each player sees itself as player one; the other players keep their cyclic
//! order after it, so the numbering is a bijection that never changes during a
//! session. The canonical view, used for the replay log, shifts by nobody.

use vstd::prelude::*;

use crate::protocol::{Expedition, Planet, State, StateView};
use crate::rules::{self, PlanetWars, World};

verus! {

/// The number under which player `p` appears to the player `offset`, among
/// `n` players.
pub open spec fn rotated(p: u64, offset: u64, n: nat) -> u64 {
    if p >= offset {
        (p - offset + 1) as u64
    } else {
        (p + n - offset + 1) as u64
    }
}

/// Planet `p` as seen by player `offset`.
pub open spec fn project_planet(w: World, offset: u64, p: rules::Planet) -> Planet {
    Planet {
        ship_count: p.ship_count,
        x: p.x,
        y: p.y,
        owner: match p.owner {
            Some(o) => Some(rotated(o, offset, w.players.len())),
            None => None,
        },
        name: p.name,
    }
}

/// Expedition `e` as seen by player `offset`.
pub open spec fn project_expedition(w: World, offset: u64, e: rules::Expedition) -> Expedition {
    Expedition {
        id: e.id,
        ship_count: e.ship_count,
        origin: w.planets[e.origin as int].name,
        destination: w.planets[e.target as int].name,
        owner: rotated(e.owner, offset, w.players.len()),
        turns_remaining: e.turns_remaining,
    }
}

/// The whole world as seen by player `offset`.
pub open spec fn project(w: World, offset: u64) -> StateView {
    StateView {
        planets: w.planets.map_values(|p: rules::Planet| project_planet(w, offset, p)),
        expeditions: w.expeditions.map_values(|e: rules::Expedition| project_expedition(w, offset, e)),
    }
}

/// A player sees itself as player one, and two different players never
/// appear under the same number.
pub proof fn lemma_rotation_bijective(offset: u64, p: u64, q: u64, n: nat)
    requires
        n <= u64::MAX,
        offset < n,
        p < n,
        q < n,
    ensures
        rotated(offset, offset, n) == 1,
        1 <= rotated(p, offset, n) <= n,
        p != q ==> rotated(p, offset, n) != rotated(q, offset, n),
{
}

fn rotate(p: u64, offset: u64, n: usize) -> (r: u64)
    requires
        p < n,
        offset < n,
    ensures
        r == rotated(p, offset, n as nat),
{
    if p >= offset {
        p - offset + 1
    } else {
        p + (n as u64 - offset) + 1
    }
}

/// The world as seen by player `offset`.
pub fn serialize_rotated(state: &PlanetWars, offset: u64) -> (r: State)
    requires
        state@.wf(),
        offset == 0 || offset < state@.players.len(),
    ensures
        r@ == project(state@, offset),
{
    let n = state.players.len();
    let ghost w = state@;
    let mut planets: Vec<Planet> = Vec::new();
    let mut i: usize = 0;
    while i < state.planets.len()
        invariant
            w == state@,
            w.wf(),
            n == w.players.len(),
            offset == 0 || offset < n,
            i <= w.planets.len(),
            planets@ == w.planets.take(i as int).map_values(|p: rules::Planet| project_planet(w, offset, p)),
        decreases w.planets.len() - i,
    {
        let p = &state.planets[i];
        let owner = match p.owner {
            Some(o) => Some(rotate(o, offset, n)),
            None => None,
        };
        planets.push(Planet { ship_count: p.ship_count, x: p.x, y: p.y, owner, name: p.name.clone() });
        assert(w.planets.take(i + 1).map_values(|p: rules::Planet| project_planet(w, offset, p))
            =~= w.planets.take(i as int).map_values(|p: rules::Planet| project_planet(w, offset, p)).push(
            project_planet(w, offset, w.planets[i as int])));
        i = i + 1;
    }
    let mut expeditions: Vec<Expedition> = Vec::new();
    let mut j: usize = 0;
    while j < state.expeditions.len()
        invariant
            w == state@,
            w.wf(),
            n == w.players.len(),
            offset == 0 || offset < n,
            j <= w.expeditions.len(),
            expeditions@ == w.expeditions.take(j as int).map_values(
                |e: rules::Expedition| project_expedition(w, offset, e),
            ),
        decreases w.expeditions.len() - j,
    {
        let e = state.expeditions[j];
        expeditions.push(Expedition {
            id: e.id,
            ship_count: e.ship_count,
            origin: state.planets[e.origin].name.clone(),
            destination: state.planets[e.target].name.clone(),
            owner: rotate(e.owner, offset, n),
            turns_remaining: e.turns_remaining,
        });
        assert(w.expeditions.take(j + 1).map_values(|e: rules::Expedition| project_expedition(w, offset, e))
            =~= w.expeditions.take(j as int).map_values(|e: rules::Expedition| project_expedition(w, offset, e)).push(
            project_expedition(w, offset, w.expeditions[j as int])));
        j = j + 1;
    }
    assert(w.planets.take(w.planets.len() as int) == w.planets);
    assert(w.expeditions.take(w.expeditions.len() as int) == w.expeditions);
    State { planets, expeditions }
}

/// The canonical view of the world, as recorded in the replay log.
pub fn serialize(state: &PlanetWars) -> (r: State)
    requires
        state@.wf(),
    ensures
        r@ == project(state@, 0),
{
    serialize_rotated(state, 0)
}

} // verus!
