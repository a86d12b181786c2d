use planetwars::config::{Config, MapPlanet};
use planetwars::serializer::{serialize, serialize_rotated};

fn three_players() -> planetwars::rules::PlanetWars {
    let map = vec![
        MapPlanet { name: "A".to_string(), x: 0, y: 0, owner: Some(1), ship_count: 5 },
        MapPlanet { name: "B".to_string(), x: 3, y: 4, owner: Some(2), ship_count: 6 },
        MapPlanet { name: "C".to_string(), x: 6, y: 8, owner: Some(3), ship_count: 7 },
        MapPlanet { name: "D".to_string(), x: 9, y: 9, owner: None, ship_count: 8 },
    ];
    Config { max_turns: 10, growth: 0 }.create_game(&map, 3).ok().unwrap()
}

#[test]
fn canonical_view_numbers_from_one() {
    let w = three_players();
    let s = serialize(&w);
    let owners: Vec<Option<u64>> = s.planets.iter().map(|p| p.owner).collect();
    assert_eq!(owners, vec![Some(1), Some(2), Some(3), None]);
    assert_eq!(s.planets[1].name, "B");
    assert_eq!(s.planets[1].x, 3);
    assert_eq!(s.planets[3].ship_count, 8);
}

#[test]
fn rotated_view_puts_player_first() {
    let mut w = three_players();
    let d = w.check_valid_command(2, &planetwars::protocol::Command {
        origin: "C".to_string(),
        destination: "A".to_string(),
        ship_count: 2,
    }).unwrap();
    w.dispatch(&d);
    let s = serialize_rotated(&w, 2);
    let owners: Vec<Option<u64>> = s.planets.iter().map(|p| p.owner).collect();
    assert_eq!(owners, vec![Some(2), Some(3), Some(1), None]);
    assert_eq!(s.expeditions.len(), 1);
    assert_eq!(s.expeditions[0].owner, 1);
    assert_eq!(s.expeditions[0].origin, "C");
    assert_eq!(s.expeditions[0].destination, "A");
    assert_eq!(s.expeditions[0].turns_remaining, 10);
    let s1 = serialize_rotated(&w, 1);
    let owners: Vec<Option<u64>> = s1.planets.iter().map(|p| p.owner).collect();
    assert_eq!(owners, vec![Some(3), Some(1), Some(2), None]);
}
