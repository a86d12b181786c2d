use planetwars::config::{Config, MapPlanet};
use planetwars::game::{PlanetWarsGame, PlayerMsg};
use planetwars::manager::{SessionLookup, SessionManager};
use planetwars::protocol::{Action, Command, HostMsg};

fn game(max_turns: u64, map: &str) -> PlanetWarsGame {
    let planets = vec![
        MapPlanet { name: "Earth".to_string(), x: 0, y: 0, owner: Some(1), ship_count: 10 },
        MapPlanet { name: "Mars".to_string(), x: 1, y: 0, owner: Some(2), ship_count: 3 },
        MapPlanet { name: "Venus".to_string(), x: 40, y: 0, owner: Some(3), ship_count: 3 },
    ];
    let w = Config { max_turns, growth: 0 }.create_game(&planets, 3).ok().unwrap();
    PlanetWarsGame::try_new(w, "log.json", "match", map).unwrap()
}

#[test]
fn sessions_get_fresh_ids_and_stay_known() {
    let mut m = SessionManager::new();
    assert!(matches!(m.get_state(0), SessionLookup::Unknown));
    let (a, opening) = m.start_game(game(5, "maps/ring.json"), 3).unwrap();
    let (b, _) = m.start_game(game(5, "maps/duel.json"), 3).unwrap();
    assert_eq!(a, 0);
    assert_eq!(b, 1);
    assert_eq!(opening.len(), 4);
    assert!(matches!(&opening[0], HostMsg::Record(_)));
    match m.get_state(a) {
        SessionLookup::Running(map) => assert_eq!(map, "ring"),
        _ => panic!("expected a running game"),
    }
    match m.get_state(b) {
        SessionLookup::Running(map) => assert_eq!(map, "duel"),
        _ => panic!("expected a running game"),
    }
    assert!(matches!(m.get_state(2), SessionLookup::Unknown));
    assert!(!m.submit(7, 0, "{}".to_string()));
    assert!(m.close_window(7).is_none());
    assert!(m.play_turn(7, vec![]).is_none());
}

#[test]
fn turn_through_the_manager() {
    let mut m = SessionManager::new();
    let (id, _) = m.start_game(game(10, "maps/ring.json"), 3).unwrap();
    assert!(m.submit(id, 0, "raw".to_string()));
    assert!(!m.submit(id, 0, "again".to_string()));
    assert!(!m.window_complete(id));
    assert!(m.submit(id, 1, "x".to_string()));
    assert!(m.submit(id, 2, "y".to_string()));
    assert!(m.window_complete(id));
    let inputs = m.close_window(id).unwrap();
    assert_eq!(inputs, vec![(0, Some("raw".to_string())), (1, Some("x".to_string())), (2, Some("y".to_string()))]);
    let attack = Action {
        commands: vec![Command { origin: "Earth".to_string(), destination: "Mars".to_string(), ship_count: 5 }],
    };
    let msgs = m.play_turn(id, vec![PlayerMsg { id: 0, data: Some(Ok(attack)) }]).unwrap();
    assert_eq!(msgs.iter().filter(|x| matches!(x, HostMsg::Kick(1))).count(), 1);
    let slots: Vec<u64> = m.sessions[0].barrier.slots.iter().map(|s| s.0).collect();
    assert_eq!(slots, vec![0, 2]);
    assert!(!m.submit(id, 1, "late".to_string()));
    assert_eq!(m.sessions[0].game.state.turn_num, 1);
}

#[test]
fn finished_session_reports_summary_and_stops() {
    let mut m = SessionManager::new();
    let (id, _) = m.start_game(game(2, "maps/ring.json"), 3).unwrap();
    assert!(m.play_turn(id, vec![]).is_some());
    let last = m.play_turn(id, vec![]).unwrap();
    assert_eq!(last.iter().filter(|x| matches!(x, HostMsg::Kick(_))).count(), 3);
    assert!(m.sessions[0].barrier.slots.is_empty());
    match m.get_state(id) {
        SessionLookup::Finished(s) => {
            assert_eq!(s.turns, 2);
            assert_eq!(s.winners, vec![0, 1, 2]);
            assert_eq!(s.map, "ring");
        }
        _ => panic!("expected a finished game"),
    }
    assert!(m.play_turn(id, vec![]).is_none());
    assert_eq!(m.sessions[0].game.state.turn_num, 2);
}
