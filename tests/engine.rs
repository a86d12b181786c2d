use planetwars::config::{Config, ConfigError, MapPlanet};
use planetwars::game::{PlanetWarsGame, PlayerMsg};
use planetwars::protocol::{Action, Command, CommandError, HostMsg, PlayerAction, ServerMessage};
use planetwars::rules::{Dispatch, PlanetWars};

fn planet(name: &str, x: i32, y: i32, owner: Option<u64>, ship_count: u64) -> MapPlanet {
    MapPlanet { name: name.to_string(), x, y, owner, ship_count }
}

/// Earth (player 0, ten ships) and Mars (player 1, three ships), four turns apart.
fn earth_and_mars(growth: u64, max_turns: u64) -> PlanetWars {
    let map = vec![planet("Earth", 0, 0, Some(1), 10), planet("Mars", 0, 4, Some(2), 3)];
    Config { max_turns, growth }.create_game(&map, 2).ok().unwrap()
}

fn command(origin: &str, destination: &str, ship_count: u64) -> Command {
    Command { origin: origin.to_string(), destination: destination.to_string(), ship_count }
}

fn orders(id: u64, commands: Vec<Command>) -> PlayerMsg {
    PlayerMsg { id, data: Some(Ok(Action { commands })) }
}

#[test]
fn conquest_after_four_turns() {
    let mut w = earth_and_mars(0, 100);
    let d = w.check_valid_command(0, &command("Earth", "Mars", 5)).unwrap();
    assert_eq!(d, Dispatch { origin: 0, target: 1, ship_count: 5 });
    w.dispatch(&d);
    assert_eq!(w.planets[0].ship_count, 5);
    assert_eq!(w.expeditions.len(), 1);
    assert_eq!(w.expeditions[0].owner, 0);
    assert_eq!(w.expeditions[0].ship_count, 5);
    assert_eq!(w.expeditions[0].turns_remaining, 4);
    for _ in 0..3 {
        w.step();
        assert_eq!(w.planets[1].owner, Some(1));
    }
    w.step();
    assert!(w.expeditions.is_empty());
    assert_eq!(w.planets[1].owner, Some(0));
    assert_eq!(w.planets[1].ship_count, 2);
    assert!(!w.players[1].alive);
    assert_eq!(w.living_players(), vec![0]);
    assert!(w.is_finished());
}

#[test]
fn tie_leaves_planet_neutral() {
    let mut w = earth_and_mars(0, 100);
    let d = w.check_valid_command(0, &command("Earth", "Mars", 3)).unwrap();
    w.dispatch(&d);
    assert_eq!(w.planets[0].ship_count, 7);
    for _ in 0..4 {
        w.step();
    }
    assert_eq!(w.planets[1].owner, None);
    assert_eq!(w.planets[1].ship_count, 0);
    assert!(!w.players[1].alive);
}

#[test]
fn too_many_ships_rejected() {
    let mut g = PlanetWarsGame::new(earth_and_mars(0, 100), "log.json", "duel", "maps/duel.json");
    let report = g.execute_action(0, Some(Ok(Action { commands: vec![command("Earth", "Mars", 15)] })));
    match report {
        PlayerAction::Commands(c) => {
            assert_eq!(c.len(), 1);
            assert_eq!(c[0].error, Some(CommandError::NotEnoughShips));
            assert_eq!(c[0].command.ship_count, 15);
        }
        _ => panic!("expected a command report"),
    }
    assert_eq!(g.state.planets[0].ship_count, 10);
    assert!(g.state.expeditions.is_empty());
}

#[test]
fn validation_errors_in_order() {
    let w = earth_and_mars(0, 100);
    assert_eq!(w.check_valid_command(0, &command("Pluto", "Venus", 0)), Err(CommandError::OriginDoesNotExist));
    assert_eq!(w.check_valid_command(0, &command("Earth", "Venus", 0)), Err(CommandError::DestinationDoesNotExist));
    assert_eq!(w.check_valid_command(0, &command("Mars", "Earth", 20)), Err(CommandError::OriginNotOwned));
    assert_eq!(w.check_valid_command(0, &command("Earth", "Mars", 11)), Err(CommandError::NotEnoughShips));
    assert_eq!(w.check_valid_command(0, &command("Earth", "Mars", 0)), Err(CommandError::ZeroShipMove));
    assert_eq!(w.check_valid_command(0, &command("Earth", "Earth", 10)), Ok(Dispatch { origin: 0, target: 0, ship_count: 10 }));
}

#[test]
fn unknown_planet_changes_nothing() {
    let mut g = PlanetWarsGame::new(earth_and_mars(0, 100), "log.json", "duel", "maps/duel.json");
    let report = g.execute_action(0, Some(Ok(Action { commands: vec![command("Pluto", "Mars", 1), command("Earth", "Pluto", 1)] })));
    match report {
        PlayerAction::Commands(c) => {
            assert_eq!(c[0].error, Some(CommandError::OriginDoesNotExist));
            assert_eq!(c[1].error, Some(CommandError::DestinationDoesNotExist));
        }
        _ => panic!("expected a command report"),
    }
    assert_eq!(g.state.planets[0].ship_count, 10);
    assert_eq!(g.state.planets[1].ship_count, 3);
    assert!(g.state.expeditions.is_empty());
    assert_eq!(g.state.expedition_num, 0);
}

#[test]
fn zero_ship_move_rejected_even_when_owned() {
    let w = earth_and_mars(0, 100);
    assert_eq!(w.check_valid_command(0, &command("Earth", "Mars", 0)), Err(CommandError::ZeroShipMove));
    assert_eq!(w.check_valid_command(1, &command("Mars", "Earth", 0)), Err(CommandError::ZeroShipMove));
}

#[test]
fn commands_apply_in_sequence() {
    let mut g = PlanetWarsGame::new(earth_and_mars(0, 100), "log.json", "duel", "maps/duel.json");
    let report = g.execute_action(0, Some(Ok(Action { commands: vec![command("Earth", "Mars", 6), command("Earth", "Mars", 6)] })));
    match report {
        PlayerAction::Commands(c) => {
            assert_eq!(c[0].error, None);
            assert_eq!(c[1].error, Some(CommandError::NotEnoughShips));
        }
        _ => panic!("expected a command report"),
    }
    assert_eq!(g.state.planets[0].ship_count, 4);
    assert_eq!(g.state.expeditions.len(), 1);
    assert_eq!(g.state.expedition_num, 1);
}

#[test]
fn timeout_and_parse_error_reports() {
    let mut g = PlanetWarsGame::new(earth_and_mars(0, 100), "log.json", "duel", "maps/duel.json");
    assert!(matches!(g.execute_action(0, None), PlayerAction::Timeout));
    match g.execute_action(1, Some(Err("bad json".to_string()))) {
        PlayerAction::ParseError(e) => assert_eq!(e, "bad json"),
        _ => panic!("expected a parse error"),
    }
    assert_eq!(g.state.planets[0].ship_count, 10);
}

#[test]
fn travel_time_rounds_up() {
    let map = vec![planet("A", 0, 0, Some(1), 10), planet("B", 3, 2, None, 0), planet("C", -3, -4, None, 0)];
    let mut w = Config { max_turns: 10, growth: 0 }.create_game(&map, 1).ok().unwrap();
    let d = w.check_valid_command(0, &command("A", "B", 1)).unwrap();
    w.dispatch(&d);
    assert_eq!(w.expeditions[0].turns_remaining, 4);
    let d = w.check_valid_command(0, &command("A", "C", 1)).unwrap();
    w.dispatch(&d);
    assert_eq!(w.expeditions[1].turns_remaining, 5);
    assert_eq!(w.expeditions[1].id, 1);
    let d = w.check_valid_command(0, &command("A", "A", 1)).unwrap();
    w.dispatch(&d);
    assert_eq!(w.expeditions[2].turns_remaining, 0);
    w.step();
    assert_eq!(w.planets[0].ship_count, 8);
    assert_eq!(w.expeditions.len(), 2);
    assert_eq!(w.expeditions[0].turns_remaining, 3);
}

#[test]
fn arrivals_reinforce_own_and_neutral_planets() {
    let map = vec![planet("A", 0, 0, Some(1), 10), planet("B", 1, 0, Some(1), 1), planet("N", 0, 1, None, 4)];
    let mut w = Config { max_turns: 10, growth: 0 }.create_game(&map, 2).ok().unwrap();
    let d = w.check_valid_command(0, &command("A", "B", 2)).unwrap();
    w.dispatch(&d);
    let d = w.check_valid_command(0, &command("A", "N", 3)).unwrap();
    w.dispatch(&d);
    w.step();
    assert_eq!(w.planets[1].ship_count, 3);
    assert_eq!(w.planets[1].owner, Some(0));
    assert_eq!(w.planets[2].ship_count, 7);
    assert_eq!(w.planets[2].owner, None);
}

#[test]
fn defender_holds_against_smaller_fleet() {
    let map = vec![planet("A", 0, 0, Some(1), 10), planet("B", 1, 0, Some(2), 5)];
    let mut w = Config { max_turns: 10, growth: 0 }.create_game(&map, 2).ok().unwrap();
    let d = w.check_valid_command(0, &command("A", "B", 2)).unwrap();
    w.dispatch(&d);
    w.step();
    assert_eq!(w.planets[1].owner, Some(1));
    assert_eq!(w.planets[1].ship_count, 3);
}

#[test]
fn repopulation_grows_owned_planets_only() {
    let map = vec![planet("A", 0, 0, Some(1), 10), planet("N", 5, 5, None, 2), planet("Z", 9, 9, Some(2), u64::MAX - 1)];
    let mut w = Config { max_turns: 10, growth: 3 }.create_game(&map, 2).ok().unwrap();
    w.repopulate();
    assert_eq!(w.planets[0].ship_count, 13);
    assert_eq!(w.planets[1].ship_count, 2);
    assert_eq!(w.planets[2].ship_count, u64::MAX);
}

#[test]
fn create_game_maps_owners_and_players() {
    let map = vec![planet("A", 0, 0, Some(1), 1), planet("B", 1, 0, Some(3), 1), planet("C", 2, 0, Some(0), 1), planet("D", 3, 0, None, 1)];
    let w = Config { max_turns: 7, growth: 1 }.create_game(&map, 2).ok().unwrap();
    assert_eq!(w.planets[0].owner, Some(0));
    assert_eq!(w.planets[1].owner, None);
    assert_eq!(w.planets[2].owner, None);
    assert_eq!(w.planets[3].owner, None);
    assert_eq!(w.planets[2].id, 2);
    assert_eq!(w.players.len(), 2);
    assert!(w.players[0].alive);
    assert!(!w.players[1].alive);
    assert_eq!(w.turn_num, 0);
    assert_eq!(w.max_turns, 7);
}

#[test]
fn create_game_rejects_duplicate_names() {
    let map = vec![planet("A", 0, 0, Some(1), 1), planet("A", 1, 0, Some(2), 1)];
    assert!(matches!(Config { max_turns: 7, growth: 1 }.create_game(&map, 2), Err(ConfigError::DuplicatePlanetName)));
}

#[test]
fn finished_at_max_turns() {
    let mut g = PlanetWarsGame::new(earth_and_mars(0, 3), "log.json", "duel", "maps/duel.json");
    for turn in 0..3 {
        assert!(!g.state.is_finished());
        assert!(g.is_done().is_none());
        g.step(vec![PlayerMsg { id: 0, data: None }, PlayerMsg { id: 1, data: None }]);
        assert_eq!(g.state.turn_num, turn + 1);
    }
    assert!(g.state.is_finished());
    let s = g.is_done().unwrap();
    assert_eq!(s.turns, 3);
    assert_eq!(s.winners, vec![0, 1]);
    assert_eq!(s.name, "duel");
    assert_eq!(s.map, "duel");
    assert_eq!(s.file, "log.json");
}

fn kicks_of(msgs: &[HostMsg], p: u64) -> usize {
    msgs.iter().filter(|m| matches!(m, HostMsg::Kick(q) if *q == p)).count()
}

fn game_states_for(msgs: &[HostMsg], p: u64) -> usize {
    msgs.iter().filter(|m| matches!(m, HostMsg::Data(ServerMessage::GameState(_), Some(q)) if *q == p)).count()
}

#[test]
fn eliminated_player_kicked_once() {
    let map = vec![
        planet("Earth", 0, 0, Some(1), 10),
        planet("Mars", 1, 0, Some(2), 3),
        planet("Venus", 50, 50, Some(3), 3),
    ];
    let mut g = PlanetWarsGame::new(Config { max_turns: 100, growth: 0 }.create_game(&map, 3).ok().unwrap(), "l", "n", "m");
    let start = g.start();
    assert_eq!(game_states_for(&start, 1), 1);
    let msgs = g.step(vec![orders(0, vec![command("Earth", "Mars", 5)]), PlayerMsg { id: 1, data: None }]);
    assert!(!g.state.players[1].alive);
    assert_eq!(kicks_of(&msgs, 1), 1);
    assert_eq!(game_states_for(&msgs, 1), 0);
    assert!(msgs.iter().any(|m| matches!(m, HostMsg::Data(ServerMessage::FinalState(_), Some(1)))));
    assert_eq!(game_states_for(&msgs, 0), 1);
    assert_eq!(kicks_of(&msgs, 0), 0);
    let later = g.step(vec![]);
    assert_eq!(kicks_of(&later, 1), 0);
    assert_eq!(game_states_for(&later, 1), 0);
    assert!(!later.iter().any(|m| matches!(m, HostMsg::Data(_, Some(1)))));
    assert_eq!(game_states_for(&later, 2), 1);
}

#[test]
fn step_reports_then_records_then_updates() {
    let mut g = PlanetWarsGame::new(earth_and_mars(0, 100), "l", "n", "m");
    let msgs = g.step(vec![orders(1, vec![command("Mars", "Earth", 0)]), PlayerMsg { id: 0, data: None }]);
    assert_eq!(msgs.len(), 5);
    match &msgs[0] {
        HostMsg::Data(ServerMessage::PlayerAction(PlayerAction::Commands(c)), Some(1)) => {
            assert_eq!(c[0].error, Some(CommandError::ZeroShipMove));
        }
        _ => panic!("expected the report to player 1"),
    }
    assert!(matches!(&msgs[1], HostMsg::Data(ServerMessage::PlayerAction(PlayerAction::Timeout), Some(0))));
    assert!(matches!(&msgs[2], HostMsg::Record(_)));
    assert!(matches!(&msgs[3], HostMsg::Data(ServerMessage::GameState(_), Some(0))));
    assert!(matches!(&msgs[4], HostMsg::Data(ServerMessage::GameState(_), Some(1))));
}

#[test]
fn game_over_sends_final_state_and_kicks_everyone() {
    let mut g = PlanetWarsGame::new(earth_and_mars(0, 1), "l", "n", "m");
    let msgs = g.step(vec![]);
    assert_eq!(kicks_of(&msgs, 0), 1);
    assert_eq!(kicks_of(&msgs, 1), 1);
    assert_eq!(game_states_for(&msgs, 0), 0);
}

#[test]
fn try_new_takes_map_stem() {
    let g = PlanetWarsGame::try_new(earth_and_mars(0, 10), "abc.json", "duel", "maps/spiral.json").unwrap();
    assert_eq!(g.map, "spiral");
    assert_eq!(g.state(), "spiral");
    assert_eq!(g.log_file_loc, "abc.json");
    assert!(PlanetWarsGame::try_new(earth_and_mars(0, 10), "abc.json", "duel", "").is_none());
}
