use planetwars::barrier::TurnBarrier;
use planetwars::context::{Context, Link};
use planetwars::sessions::{
    generate_string_id, get_states, ConnectionStatus, FinishedState, GameState, Games, PlayerStatus,
    SessionStatus,
};

fn finished(name: &str, winners: Vec<u64>, players: Vec<(u64, &str)>) -> FinishedState {
    FinishedState {
        winners,
        turns: 42,
        name: name.to_string(),
        file: format!("{}.json", name),
        map: "spiral".to_string(),
        time: 0,
        players: players.into_iter().map(|(i, n)| (i, n.to_string())).collect(),
    }
}

fn name_of(g: &GameState) -> &str {
    match g {
        GameState::Finished { name, .. } => name,
        GameState::Playing { name, .. } => name,
    }
}

#[test]
fn player_status_of_each_connection() {
    let w = PlayerStatus::from(ConnectionStatus::Waiting(4071));
    assert_eq!(w, PlayerStatus { waiting: true, connected: false, reconnecting: false, value: "Key: 4071".to_string() });
    let z = PlayerStatus::from(ConnectionStatus::Waiting(0));
    assert_eq!(z.value, "Key: 0");
    let m = PlayerStatus::from(ConnectionStatus::Waiting(u64::MAX));
    assert_eq!(m.value, format!("Key: {}", u64::MAX));
    let c = PlayerStatus::from(ConnectionStatus::Connected("ann".to_string()));
    assert_eq!(c, PlayerStatus { waiting: false, connected: true, reconnecting: false, value: "ann".to_string() });
    let r = PlayerStatus::from(ConnectionStatus::Reconnecting("bob".to_string()));
    assert_eq!(r, PlayerStatus { waiting: false, connected: true, reconnecting: true, value: "bob".to_string() });
}

#[test]
fn finished_game_lists_players_by_id() {
    let g = GameState::from(finished("final", vec![2], vec![(2, "carol"), (0, "ann"), (1, "bob")]));
    match g {
        GameState::Finished { name, map, players, turns, file } => {
            assert_eq!(name, "final");
            assert_eq!(map, "spiral");
            assert_eq!(turns, 42);
            assert_eq!(file, "final.json");
            assert_eq!(
                players,
                vec![("ann".to_string(), false), ("bob".to_string(), false), ("carol".to_string(), true)]
            );
        }
        _ => panic!("expected a finished game"),
    }
}

#[test]
fn equal_ids_keep_their_order() {
    let g = GameState::from(finished("f", vec![], vec![(1, "x"), (0, "y"), (1, "z")]));
    match g {
        GameState::Finished { players, .. } => {
            let names: Vec<&str> = players.iter().map(|p| p.0.as_str()).collect();
            assert_eq!(names, vec!["y", "x", "z"]);
        }
        _ => panic!("expected a finished game"),
    }
}

#[test]
fn lobby_lists_running_first_then_by_name() {
    let entries = vec![
        ("zeta".to_string(), SessionStatus::Finished(finished("zeta", vec![], vec![]))),
        ("beta".to_string(), SessionStatus::Running(serde_json::Value::Null, vec![
            ConnectionStatus::Connected("ann".to_string()),
            ConnectionStatus::Waiting(7),
            ConnectionStatus::Reconnecting("bob".to_string()),
        ])),
        ("ghost".to_string(), SessionStatus::Unknown),
        ("alpha".to_string(), SessionStatus::Finished(finished("alpha", vec![], vec![]))),
        ("Alpha".to_string(), SessionStatus::Running(serde_json::Value::Bool(true), vec![])),
        ("al".to_string(), SessionStatus::Running(serde_json::Value::Null, vec![])),
    ];
    let states = get_states(entries);
    let names: Vec<&str> = states.iter().map(name_of).collect();
    assert_eq!(names, vec!["Alpha", "al", "beta", "alpha", "zeta"]);
    match &states[2] {
        GameState::Playing { players, connected, total, map, state, .. } => {
            assert_eq!(*connected, 2);
            assert_eq!(*total, 3);
            assert_eq!(map, "");
            assert_eq!(players[1].value, "Key: 7");
            assert_eq!(*state, serde_json::Value::Null);
        }
        _ => panic!("expected a running game"),
    }
    match &states[0] {
        GameState::Playing { state, .. } => assert_eq!(*state, serde_json::Value::Bool(true)),
        _ => panic!("expected a running game"),
    }
}

#[test]
fn lobby_of_nothing_is_empty() {
    assert!(get_states(vec![]).is_empty());
    assert!(get_states(vec![("x".to_string(), SessionStatus::Unknown)]).is_empty());
}

#[test]
fn games_registry_keeps_order() {
    let mut g = Games::new();
    assert!(g.get_games().is_empty());
    g.add_game("one".to_string(), 11);
    g.add_game("two".to_string(), 7);
    g.add_game("one".to_string(), 3);
    assert_eq!(
        g.get_games(),
        vec![("one".to_string(), 11), ("two".to_string(), 7), ("one".to_string(), 3)]
    );
}

#[test]
fn barrier_collects_one_input_per_player() {
    let mut b = TurnBarrier::new(3);
    assert!(!b.is_complete());
    assert!(b.submit(1, "a".to_string()));
    assert!(!b.submit(1, "again".to_string()));
    assert!(!b.submit(9, "stranger".to_string()));
    assert!(b.submit(0, "b".to_string()));
    assert!(!b.is_complete());
    assert!(b.submit(2, "c".to_string()));
    assert!(b.is_complete());
    let turn = b.take_turn();
    assert_eq!(turn, vec![(0, Some("b".to_string())), (1, Some("a".to_string())), (2, Some("c".to_string()))]);
    assert!(!b.is_complete());
    assert!(b.submit(1, "next".to_string()));
}

#[test]
fn barrier_timeout_leaves_missing_inputs_empty() {
    let mut b = TurnBarrier::new(2);
    assert!(b.submit(1, "x".to_string()));
    let turn = b.take_turn();
    assert_eq!(turn, vec![(0, None), (1, Some("x".to_string()))]);
    let turn = b.take_turn();
    assert_eq!(turn, vec![(0, None), (1, None)]);
}

#[test]
fn barrier_stops_waiting_for_removed_player() {
    let mut b = TurnBarrier::new(3);
    b.remove_player(1);
    assert!(!b.submit(1, "late".to_string()));
    assert!(b.submit(0, "a".to_string()));
    assert!(b.submit(2, "c".to_string()));
    assert!(b.is_complete());
    assert_eq!(b.take_turn(), vec![(0, Some("a".to_string())), (2, Some("c".to_string()))]);
    b.remove_player(7);
    assert_eq!(b.slots.len(), 2);
}

#[test]
fn nav_marks_the_active_page() {
    let links = Link::build_nav("Lobby");
    let names: Vec<&str> = links.iter().map(|l| l.name.as_str()).collect();
    assert_eq!(names, vec!["Home", "Map Builder", "Lobby", "Visualizer", "Debug Station", "Info"]);
    let hrefs: Vec<&str> = links.iter().map(|l| l.href.as_str()).collect();
    assert_eq!(hrefs, vec!["/", "/mapbuilder", "/lobby", "/visualizer", "/debug", "/info"]);
    let active: Vec<bool> = links.iter().map(|l| l.active).collect();
    assert_eq!(active, vec![false, false, true, false, false, false]);
    let c = Context::new("Home");
    assert!(c.nav[0].active);
    assert!(c.t.is_none());
    assert_eq!(c.name, "");
    let c = Context::new_with("info", 5u8);
    assert!(c.nav.iter().all(|l| !l.active));
    assert_eq!(c.t, Some(5));
}

#[test]
fn string_id_shape() {
    let a = generate_string_id();
    assert_eq!(a.len(), 20);
    assert!(a.ends_with(".json"));
    assert!(a[..15].chars().all(|c| c.is_ascii_alphanumeric()));
    let b = generate_string_id();
    assert_ne!(a, b);
}
