use std::path::Path;

use planetwars_server::error::Response;
use planetwars_server::game_manager::{
    create_match, gen_match_id, match_file_path, match_log_response, player_numbers, GameManager,
    MatchData,
};
use planetwars_server::match_log::{decode_match_log, encode_match_log};

fn lines(entries: &[&str]) -> Vec<String> {
    entries.iter().map(|entry| entry.to_string()).collect()
}

#[test]
fn log_is_kept_one_entry_to_a_line() {
    assert_eq!(encode_match_log(&lines(&["a", "", "bc"])), "a\n\nbc\n");
    assert_eq!(encode_match_log(&vec![]), "");
}

#[test]
fn log_is_read_as_it_was_written() {
    let log = lines(&["{\"turn\":1}", "", "caf\u{e9} \u{1f680}", "a\rb"]);
    assert_eq!(decode_match_log(&encode_match_log(&log)), log);
}

#[test]
fn lines_end_at_a_line_feed() {
    assert_eq!(decode_match_log(""), lines(&[]));
    assert_eq!(decode_match_log("\n"), lines(&[""]));
    assert_eq!(decode_match_log("a"), lines(&["a"]));
    assert_eq!(decode_match_log("a\nb"), lines(&["a", "b"]));
    assert_eq!(decode_match_log("a\r\nb\r\n"), lines(&["a", "b"]));
    assert_eq!(decode_match_log("a\r\r\nb\r"), lines(&["a\r", "b\r"]));
    assert_eq!(decode_match_log("\r\n\n\r"), lines(&["", "", "\r"]));
}

#[test]
fn entry_of_two_lines_comes_back_as_two() {
    assert_eq!(decode_match_log(&encode_match_log(&lines(&["a\nb"]))), lines(&["a", "b"]));
}

#[test]
fn log_is_kept_under_the_match() {
    let id = "00010a0f101f7f8099a0abcdeff0feff";
    assert_eq!(
        match_file_path(id),
        Path::new("matches").join("00010a0f101f7f8099a0abcdeff0feff.jsonl"),
    );
    assert_eq!(match_file_path("a.b"), Path::new("matches").join("a.jsonl"));
    assert_eq!(match_file_path(".a"), Path::new("matches").join(".a.jsonl"));
    assert_eq!(match_file_path("a."), Path::new("matches").join("a.jsonl"));
}

#[test]
fn log_of_an_odd_match_is_kept_where_its_names_lead() {
    assert_eq!(match_file_path(""), Path::new("matches.jsonl"));
    assert_eq!(match_file_path("."), Path::new("matches.jsonl"));
    assert_eq!(match_file_path(".."), Path::new("matches").join(".."));
    assert_eq!(match_file_path("a/b.c"), Path::new("matches").join("a").join("b.jsonl"));
    assert_eq!(match_file_path("a//./b/"), Path::new("matches").join("a").join("b.jsonl"));
    assert_eq!(match_file_path("a/.."), Path::new("matches").join("a").join(".."));
}

#[test]
fn log_of_a_match_at_the_root_is_kept_there() {
    assert_eq!(match_file_path("/a"), Path::new("/a.jsonl"));
    assert_eq!(match_file_path("/a/b.c"), Path::new("/a/b.jsonl"));
    assert_eq!(match_file_path("/./a//b/"), Path::new("/a/b.jsonl"));
    assert_eq!(match_file_path("/"), Path::new("/"));
    assert_eq!(match_file_path("/."), Path::new("/"));
    assert_eq!(match_file_path("/.."), Path::new("/.."));
}

#[test]
fn matches_are_kept_apart() {
    assert_ne!(match_file_path(&gen_match_id()), match_file_path(&gen_match_id()));
}

#[test]
fn match_runs_until_it_is_finished() {
    let mut games: GameManager<u8> = GameManager::init();
    assert!(games.list_matches().is_empty());
    let id = create_match(&mut games, 42);
    assert_eq!(games.list_matches(), vec![id.clone()]);
    assert!(matches!(games.get_match_data(&id), Some(MatchData::InProgress { log_stream: 42 })));
    assert_eq!(games.running_log(&id), Some(&42));
    assert_eq!(games.finished_log(&id), None);
    games.finish_match(id.clone(), match_file_path(&id));
    assert_eq!(games.running_log(&id), None);
    assert_eq!(games.finished_log(&id), Some(&match_file_path(&id)));
    assert_eq!(games.list_matches().len(), 1);
    assert!(games.get_match_data("other").is_none());
    assert_eq!(games.finished_log("other"), None);
}

#[test]
fn log_is_answered_once_it_was_read() {
    match match_log_response(Some(Ok(lines(&["a"])))) {
        Response::Json(log) => assert_eq!(log, lines(&["a"])),
        other => panic!("unexpected response {:?}", other),
    }
    match match_log_response(Some(Err("no such file".to_string()))) {
        Response::Status { code, message } => {
            assert_eq!(code, 500);
            assert_eq!(message, Some("no such file".to_string()));
        }
        other => panic!("unexpected response {:?}", other),
    }
    assert!(matches!(
        match_log_response(None),
        Response::Status { code: 404, message: None }
    ));
}

#[test]
fn players_are_counted_from_one() {
    assert_eq!(player_numbers(3), vec![1, 2, 3]);
    assert!(player_numbers(0).is_empty());
}
