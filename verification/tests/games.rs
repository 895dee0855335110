use planetwars_server::lobby::PwMapData;
use planetwars_server::planetwars::{
    begin_turn, execute_action, players_to_prompt, Command, CommandError, Dispatch, GamePlayer,
    Planet, Planetwars, PlayerAction, Turn,
};
use planetwars_server::pw_maps::{
    build_map_index, get_map_data, is_map_file, map_name, DirectoryEntry, MapFile,
};

fn game() -> Planetwars {
    Planetwars::create(&vec![
        ("earth".to_string(), 0),
        ("mars".to_string(), 1),
        ("venus".to_string(), 2),
    ])
}

fn planets() -> Vec<Planet> {
    vec![
        Planet { owner: Some(1), ship_count: 10 },
        Planet { owner: Some(2), ship_count: 10 },
        Planet { owner: None, ship_count: 3 },
    ]
}

fn mv(origin: &str, destination: &str, ship_count: u64) -> Command {
    Command { origin: origin.to_string(), destination: destination.to_string(), ship_count }
}

#[test]
fn move_of_own_ships_is_made() {
    let res = game().check_valid_command(&planets(), 1, &mv("earth", "venus", 10));
    assert_eq!(res, Ok(Dispatch { origin: 0, target: 2, ship_count: 10 }));
    let res = game().check_valid_command(&planets(), 2, &mv("mars", "earth", 1));
    assert_eq!(res, Ok(Dispatch { origin: 1, target: 0, ship_count: 1 }));
}

#[test]
fn wrong_moves_are_told_apart_in_turn() {
    let check = |player: usize, command: Command| {
        game().check_valid_command(&planets(), player, &command)
    };
    assert_eq!(check(1, mv("pluto", "moon", 0)), Err(CommandError::OriginDoesNotExist));
    assert_eq!(check(1, mv("mars", "moon", 0)), Err(CommandError::DestinationDoesNotExist));
    assert_eq!(check(1, mv("mars", "earth", 99)), Err(CommandError::OriginNotOwned));
    assert_eq!(check(1, mv("venus", "earth", 1)), Err(CommandError::OriginNotOwned));
    assert_eq!(check(1, mv("earth", "mars", 11)), Err(CommandError::NotEnoughShips));
    assert_eq!(check(1, mv("earth", "mars", 0)), Err(CommandError::ZeroShipMove));
}

#[test]
fn last_of_planets_with_one_name_counts() {
    let game = Planetwars::create(&vec![("earth".to_string(), 0), ("earth".to_string(), 1)]);
    let res = game.check_valid_command(&planets(), 2, &mv("earth", "earth", 4));
    assert_eq!(res, Ok(Dispatch { origin: 1, target: 1, ship_count: 4 }));
}

#[test]
fn moves_are_tried_one_after_the_other() {
    let game = game();
    let mut planets = planets();
    let commands = vec![
        mv("earth", "mars", 7),
        mv("earth", "venus", 7),
        mv("moon", "venus", 1),
        mv("earth", "venus", 3),
    ];
    let mut run = execute_action(1, Turn::Commands(commands)).unwrap();
    let mut made = Vec::new();
    while !run.is_done() {
        if let Some(dispatch) = run.step(&game, &planets) {
            planets[dispatch.origin].ship_count -= dispatch.ship_count;
            made.push(dispatch);
        }
    }
    assert_eq!(made.len(), 2);
    assert_eq!(made[0], Dispatch { origin: 0, target: 1, ship_count: 7 });
    assert_eq!(made[1], Dispatch { origin: 0, target: 2, ship_count: 3 });
    match run.finish() {
        PlayerAction::Commands(tried) => {
            assert_eq!(tried.len(), 4);
            assert_eq!(tried[0].error, None);
            assert_eq!(tried[1].error, Some(CommandError::NotEnoughShips));
            assert_eq!(tried[2].error, Some(CommandError::OriginDoesNotExist));
            assert_eq!(tried[2].command.origin, "moon");
            assert_eq!(tried[3].error, None);
            assert_eq!(tried[3].command.ship_count, 3);
        }
        other => panic!("unexpected action {:?}", other),
    }
}

#[test]
fn turn_sends_no_more_than_was_there() {
    let game = game();
    let mut planets = planets();
    let commands = vec![
        mv("earth", "mars", 6),
        mv("mars", "earth", 1),
        mv("earth", "mars", 5),
        mv("earth", "earth", 4),
        mv("earth", "mars", 1),
        mv("venus", "mars", 1),
    ];
    let mut run = execute_action(1, Turn::Commands(commands)).unwrap();
    let mut sent = vec![0, 0, 0];
    while !run.is_done() {
        assert!(run.starts_within(&game, planets.len()));
        if let Some(dispatch) = run.step(&game, &planets) {
            planets[dispatch.origin].ship_count -= dispatch.ship_count;
            sent[dispatch.origin] += dispatch.ship_count;
        }
    }
    assert_eq!(sent, vec![10, 0, 0]);
    assert_eq!(planets[0], Planet { owner: Some(1), ship_count: 0 });
    assert_eq!(planets[1], Planet { owner: Some(2), ship_count: 10 });
    assert_eq!(planets[2], Planet { owner: None, ship_count: 3 });
}

#[test]
fn only_the_origin_of_a_move_has_to_be_there() {
    let game = Planetwars::create(&vec![("earth".to_string(), 0), ("far".to_string(), 99)]);
    let res = game.check_valid_command(&planets(), 1, &mv("earth", "far", 2));
    assert_eq!(res, Ok(Dispatch { origin: 0, target: 99, ship_count: 2 }));
    let res = game.check_valid_command(&planets(), 1, &mv("far", "moon", 2));
    assert_eq!(res, Err(CommandError::DestinationDoesNotExist));
    let run = execute_action(1, Turn::Commands(vec![mv("far", "earth", 2)])).unwrap();
    assert!(!run.starts_within(&game, 3));
    assert!(run.starts_within(&game, 100));
    let run = execute_action(1, Turn::Commands(vec![mv("far", "moon", 2)])).unwrap();
    assert!(run.starts_within(&game, 3));
}

#[test]
fn turn_without_moves_is_done_at_once() {
    assert!(matches!(execute_action(1, Turn::Timeout), Err(PlayerAction::Timeout)));
    match execute_action(1, Turn::Unreadable("expected value".to_string())) {
        Err(PlayerAction::ParseError(msg)) => assert_eq!(msg, "expected value"),
        other => panic!("unexpected result {:?}", other),
    }
    let run = execute_action(1, Turn::Commands(vec![])).unwrap();
    assert!(run.is_done());
    assert!(matches!(run.finish(), PlayerAction::Commands(tried) if tried.is_empty()));
}

fn players() -> Vec<GamePlayer> {
    vec![
        GamePlayer { id: 1, alive: true },
        GamePlayer { id: 2, alive: false },
        GamePlayer { id: 3, alive: true },
    ]
}

#[test]
fn those_alive_are_asked_for_a_turn() {
    assert_eq!(players_to_prompt(&players()), vec![(1, 1), (3, 3)]);
    assert!(players_to_prompt(&vec![]).is_empty());
}

#[test]
fn nobody_is_asked_once_the_game_is_over() {
    assert_eq!(begin_turn(false, &players()), Some(vec![(1, 1), (3, 3)]));
    assert_eq!(begin_turn(true, &players()), None);
}

fn map(name: &str, owners: Vec<Option<usize>>) -> MapFile {
    MapFile { name: name.to_string(), owners }
}

#[test]
fn as_many_play_as_own_a_planet() {
    let data = get_map_data(&map("hex", vec![Some(1), None, Some(2), Some(1), None, Some(2)]));
    assert_eq!(data.name, "hex");
    assert_eq!(data.max_players, 2);
    assert_eq!(get_map_data(&map("void", vec![None, None])).max_players, 0);
    assert_eq!(get_map_data(&map("one", vec![Some(9)])).max_players, 1);
}

#[test]
fn maps_are_found_by_name() {
    let files = vec![
        map("hex", vec![Some(1), Some(2)]),
        map("one", vec![Some(1)]),
        map("hex", vec![Some(1), Some(2), Some(3)]),
    ];
    let maps = build_map_index(&files);
    assert_eq!(maps.entries().len(), 2);
    let hex: &PwMapData = maps.get(&"hex".to_string()).unwrap();
    assert_eq!(hex.name, "hex");
    assert_eq!(hex.max_players, 3);
    assert_eq!(maps.get(&"one".to_string()).unwrap().max_players, 1);
}

fn entry(is_file: bool, file_name: &[u8]) -> DirectoryEntry {
    DirectoryEntry { is_file, file_name: file_name.to_vec() }
}

#[test]
fn map_is_a_file_with_its_extension() {
    assert!(is_map_file(&entry(true, b"hex.json")));
    assert!(is_map_file(&entry(true, b"a.b.json")));
    assert!(is_map_file(&entry(true, b"..json")));
    assert!(is_map_file(&entry(true, b"\xff.json")));
    assert!(!is_map_file(&entry(true, b"hex.JSON")));
    assert!(!is_map_file(&entry(true, b"hex.jsonl")));
    assert!(!is_map_file(&entry(true, b"hex.jso")));
    assert!(!is_map_file(&entry(true, b"hex.json.")));
    assert!(!is_map_file(&entry(true, b"hex")));
    assert!(!is_map_file(&entry(true, b"json")));
    assert!(!is_map_file(&entry(true, b".json")));
    assert!(!is_map_file(&entry(true, b"")));
    assert!(!is_map_file(&entry(false, b"hex.json")));
}

#[test]
fn map_has_the_name_of_its_file() {
    assert_eq!(map_name(&entry(true, b"hex.json")), Some("hex".to_string()));
    assert_eq!(map_name(&entry(true, b"a.b.json")), Some("a.b".to_string()));
    assert_eq!(map_name(&entry(true, b".json")), Some(".json".to_string()));
    let file_name = "caf\u{e9}.json".as_bytes();
    assert_eq!(map_name(&entry(true, file_name)), Some("caf\u{e9}".to_string()));
    assert_eq!(map_name(&entry(true, b"\xff.json")), None);
    assert_eq!(map_name(&entry(true, b"\xc3.json")), None);
}

#[test]
fn names_of_map_files_are_read_as_paths_are() {
    for name in ["hex.json", "a.b.json", ".json", "..json", "hex", "hex.", "a.jsonl", "x.y."] {
        let path = std::path::Path::new(name);
        let found = entry(true, name.as_bytes());
        assert_eq!(is_map_file(&found), path.extension() == Some(std::path::Path::new("json").as_os_str()));
        let stem = path.file_stem().unwrap().to_str().unwrap();
        assert_eq!(map_name(&found), Some(stem.to_string()));
    }
}
