use planetwars_server::game_manager::gen_match_id;
use planetwars_server::lobby::{Lobby, LobbyConfig};
use planetwars_server::membership::auth_player;
use planetwars_server::table::{Duplicate, Table};
use planetwars_server::token::{id_text, parse_auth, Token};

const BYTES: Token = [
    0x00, 0x01, 0x0a, 0x0f, 0x10, 0x1f, 0x7f, 0x80, 0x99, 0xa0, 0xab, 0xcd, 0xef, 0xf0, 0xfe, 0xff,
];
const TEXT: &str = "00010a0f101f7f8099a0abcdeff0feff";

#[test]
fn identifiers_are_written_in_lower_case_hex() {
    assert_eq!(id_text(&BYTES), TEXT);
    assert_eq!(id_text(&[0; 16]), "00000000000000000000000000000000");
}

#[test]
fn token_is_read_back_from_its_text() {
    assert_eq!(parse_auth(&id_text(&BYTES)), Some(BYTES));
}

#[test]
fn token_is_read_in_either_case() {
    assert_eq!(parse_auth(&TEXT.to_uppercase()), Some(BYTES));
    assert_eq!(parse_auth("00010A0f101F7f8099a0ABcdeff0FEff"), Some(BYTES));
}

#[test]
fn other_text_is_no_token() {
    assert_eq!(parse_auth(""), None);
    assert_eq!(parse_auth(&TEXT[..30]), None);
    assert_eq!(parse_auth(&TEXT[..31]), None);
    assert_eq!(parse_auth(&format!("{}00", TEXT)), None);
    assert_eq!(parse_auth("00010a0f101f7f8099a0abcdeff0fefg"), None);
    assert_eq!(parse_auth("00010a0f101f7f8099a0abcdeff0fe  "), None);
    assert_eq!(parse_auth("00010a0f101f7f8099a0abcdeff0fe\u{e9}\u{e9}"), None);
}

fn lobby_with(token: Token, player: usize) -> Lobby {
    let config = LobbyConfig { name: "lobby".to_string(), public: true };
    let mut lobby = Lobby::with_id(config, [7; 16], [8; 16]);
    lobby.token_player.insert(token, player);
    lobby
}

#[test]
fn header_carries_the_token_after_its_scheme() {
    let lobby = lobby_with(BYTES, 4);
    assert_eq!(auth_player(&Some(format!("Bearer {}", TEXT)), &lobby), Some(4));
    assert_eq!(auth_player(&Some(format!("Bearer {}", TEXT.to_uppercase())), &lobby), Some(4));
}

#[test]
fn header_without_a_known_token_authenticates_nobody() {
    let lobby = lobby_with(BYTES, 4);
    assert_eq!(auth_player(&None, &lobby), None);
    assert_eq!(auth_player(&Some(TEXT.to_string()), &lobby), None);
    assert_eq!(auth_player(&Some(format!("bearer {}", TEXT)), &lobby), None);
    assert_eq!(auth_player(&Some(format!("Bearer  {}", TEXT)), &lobby), None);
    assert_eq!(auth_player(&Some("Bearer".to_string()), &lobby), None);
    assert_eq!(auth_player(&Some("Bearer ".to_string()), &lobby), None);
    assert_eq!(auth_player(&Some(format!("Bearer {}", id_text(&[1; 16]))), &lobby), None);
}

#[test]
fn drawn_identifiers_are_hex_and_differ() {
    let a = gen_match_id();
    let b = gen_match_id();
    assert_eq!(a.len(), 32);
    assert!(a.bytes().all(|c| matches!(c, b'0'..=b'9' | b'a'..=b'f')));
    assert_ne!(a, b);
}

#[test]
fn lobby_is_given_what_was_drawn_for_it() {
    let config = LobbyConfig { name: "friday".to_string(), public: false };
    let lobby = Lobby::with_id(config, BYTES, [9; 16]);
    assert_eq!(lobby.id, TEXT);
    assert_eq!(lobby.name, "friday");
    assert!(!lobby.public);
    assert_eq!(lobby.next_player_id, 0);
    assert_eq!(lobby.lobby_token, [9; 16]);
    assert!(lobby.players.entries().is_empty());
    assert!(lobby.token_player.entries().is_empty());
    assert!(lobby.proposals.entries().is_empty());
    assert!(lobby.matches.entries().is_empty());
}

#[test]
fn lobbies_are_drawn_at_random() {
    let a = Lobby::from(LobbyConfig { name: "a".to_string(), public: true });
    let b = Lobby::from(LobbyConfig { name: "a".to_string(), public: true });
    assert_eq!(a.id.len(), 32);
    assert_ne!(a.id, b.id);
    assert_ne!(a.lobby_token, b.lobby_token);
    assert_ne!(a.id, id_text(&a.lobby_token));
}

#[test]
fn table_keeps_one_value_for_each_key() {
    let mut table: Table<String, usize> = Table::new();
    table.insert("a".to_string(), 1);
    table.insert("b".to_string(), 2);
    table.insert("a".to_string(), 3);
    assert_eq!(table.get(&"a".to_string()), Some(&3));
    assert_eq!(table.get(&"b".to_string()), Some(&2));
    assert_eq!(table.get(&"c".to_string()), None);
    assert_eq!(table.keys(), vec!["a".to_string(), "b".to_string()]);
    assert_eq!(table.values(), vec![3, 2]);
    let copy = table.duplicate();
    assert_eq!(table.remove(&"a".to_string()), Some(3));
    assert_eq!(table.remove(&"a".to_string()), None);
    assert!(!table.contains_key(&"a".to_string()));
    assert!(table.contains_key(&"b".to_string()));
    assert!(copy.contains_key(&"a".to_string()));
    assert_eq!(copy.keys(), vec!["a".to_string(), "b".to_string()]);
    table.insert("a".to_string(), 4);
    assert_eq!(table.keys(), vec!["b".to_string(), "a".to_string()]);
    assert_eq!(table.entries().len(), 2);
    assert_eq!(table.entries()[1], ("a".to_string(), 4));
}

#[test]
fn table_tells_tokens_apart_by_every_byte() {
    let mut table: Table<Token, usize> = Table::new();
    let mut i = 0;
    while i < 16 {
        let mut token = [0; 16];
        token[i] = 1;
        table.insert(token, i);
        i += 1;
    }
    assert_eq!(table.entries().len(), 16);
    let mut last = [0; 16];
    last[15] = 1;
    assert_eq!(table.get(&last), Some(&15));
    assert_eq!(table.get(&[0; 16]), None);
}
