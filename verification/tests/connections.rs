use planetwars_server::connection_handler::{
    match_log_event, AuthenticatePlayer, ConnectionHandler, HandlerAction, SubscribeToLobby,
    SubscribeToMatch, WsClientMessage, WsInput, WsStep,
};
use planetwars_server::event::LobbyEvent;
use planetwars_server::game_manager::{match_file_path, GameManager};
use planetwars_server::lobby::{Lobby, LobbyConfig};
use planetwars_server::lobby_manager::LobbyManager;
use planetwars_server::membership::PlayerParams;
use planetwars_server::table::Table;
use planetwars_server::token::Token;
use planetwars_server::websocket::{deliver, WsConnection};
use tokio::sync::mpsc::{unbounded_channel, UnboundedReceiver};

const ANN: Token = [1; 16];
const BEN: Token = [2; 16];

fn server() -> LobbyManager {
    let mut mgr = LobbyManager::create(Table::new());
    let config = LobbyConfig { name: "friday".to_string(), public: true };
    let mut lobby = Lobby::with_id(config, [0; 16], [0; 16]);
    lobby.id = "friday".to_string();
    lobby.join(PlayerParams { name: "ann".to_string(), token: ANN }, true).unwrap();
    lobby.join(PlayerParams { name: "ben".to_string(), token: BEN }, true).unwrap();
    mgr.add_lobby(&lobby);
    mgr
}

fn handler(conn_id: usize) -> (ConnectionHandler, UnboundedReceiver<String>) {
    let (tx, rx) = unbounded_channel();
    (ConnectionHandler::new(conn_id, tx), rx)
}

fn claim(lobby_id: &str, token: Token) -> AuthenticatePlayer {
    AuthenticatePlayer { lobby_id: lobby_id.to_string(), token }
}

fn count(mgr: &LobbyManager, player: usize) -> usize {
    mgr.lobbies.get(&"friday".to_string()).unwrap().players.get(&player).unwrap().connection_count
}

#[test]
fn message_reaches_an_open_connection() {
    let (tx, mut rx) = unbounded_channel();
    let mut conn = WsConnection::new(1, tx);
    assert_eq!(conn.send("hello".to_string()), Ok(()));
    assert_eq!(rx.try_recv().unwrap(), "hello");
}

#[test]
fn message_to_a_closed_connection_fails() {
    let (tx, rx) = unbounded_channel();
    let mut conn = WsConnection::new(1, tx);
    drop(rx);
    assert_eq!(conn.send("hello".to_string()), Err(()));
}

#[test]
fn shared_connection_reaches_the_same_client() {
    let (tx, mut rx) = unbounded_channel();
    let conn = WsConnection::new(1, tx);
    let mut other = conn.share();
    drop(conn);
    assert_eq!(other.send("hello".to_string()), Ok(()));
    assert_eq!(rx.try_recv().unwrap(), "hello");
    assert!(rx.try_recv().is_err());
}

#[test]
fn delivery_keeps_those_who_listen() {
    let mut connections = Vec::new();
    let mut receivers = Vec::new();
    for id in 0..4 {
        let (tx, rx) = unbounded_channel();
        connections.push(WsConnection::new(id, tx));
        receivers.push(rx);
    }
    // the first and the last hang up
    receivers.pop();
    receivers.remove(0);
    let dropped = deliver(&mut connections, &"news".to_string());
    assert_eq!(connections.len(), 2);
    assert_eq!(dropped.len(), 2);
    for rx in receivers.iter_mut() {
        assert_eq!(rx.try_recv().unwrap(), "news");
        assert!(rx.try_recv().is_err());
    }
    let dropped = deliver(&mut connections, &"more".to_string());
    assert!(dropped.is_empty());
    for rx in receivers.iter_mut() {
        assert_eq!(rx.try_recv().unwrap(), "more");
    }
}

#[test]
fn update_goes_to_the_listeners_of_one_lobby() {
    let mut mgr = server();
    let (mut here, mut heard_here) = handler(1);
    let (mut there, mut heard_there) = handler(2);
    assert_eq!(here.listen(&mut mgr, "friday".to_string(), "now".to_string()), Ok(()));
    assert_eq!(there.listen(&mut mgr, "sunday".to_string(), "then".to_string()), Ok(()));
    mgr.send_update("friday", &"news".to_string());
    assert_eq!(heard_here.try_recv().unwrap(), "now");
    assert_eq!(heard_here.try_recv().unwrap(), "news");
    assert_eq!(heard_there.try_recv().unwrap(), "then");
    assert!(heard_there.try_recv().is_err());
    mgr.send_update("monday", &"news".to_string());
    assert!(heard_here.try_recv().is_err());
}

#[test]
fn update_forgets_those_who_hung_up() {
    let mut mgr = server();
    let (mut gone, heard) = handler(1);
    let (mut there, _heard) = handler(2);
    gone.listen(&mut mgr, "friday".to_string(), "now".to_string()).unwrap();
    there.listen(&mut mgr, "friday".to_string(), "now".to_string()).unwrap();
    drop(heard);
    mgr.send_update("friday", &"news".to_string());
    assert_eq!(mgr.websocket_connections.get(&"friday".to_string()).unwrap().len(), 1);
}

#[test]
fn each_listener_hears_an_update_once() {
    let mut mgr = server();
    let (mut first, mut heard_first) = handler(1);
    let (mut second, mut heard_second) = handler(2);
    first.listen(&mut mgr, "friday".to_string(), "one".to_string()).unwrap();
    second.listen(&mut mgr, "friday".to_string(), "two".to_string()).unwrap();
    mgr.send_update("friday", &"news".to_string());
    mgr.send_update("friday", &"more".to_string());
    for (heard, state) in [(&mut heard_first, "one"), (&mut heard_second, "two")] {
        assert_eq!(heard.try_recv().unwrap(), state);
        assert_eq!(heard.try_recv().unwrap(), "news");
        assert_eq!(heard.try_recv().unwrap(), "more");
        assert!(heard.try_recv().is_err());
    }
}

#[test]
fn client_that_comes_and_goes_leaves_the_counts() {
    let mut mgr = server();
    let (mut other, _a) = handler(1);
    other.authenticate(&mut mgr, claim("friday", ANN));
    let (mut client, _b) = handler(2);
    client.authenticate(&mut mgr, claim("friday", ANN));
    client.authenticate(&mut mgr, claim("friday", BEN));
    client.authenticate(&mut mgr, claim("friday", ANN));
    assert_eq!((count(&mgr, 0), count(&mgr, 1)), (3, 1));
    client.disconnect(&mut mgr);
    assert_eq!((count(&mgr, 0), count(&mgr, 1)), (1, 0));
}

#[test]
fn client_that_hung_up_does_not_listen() {
    let mut mgr = server();
    let (mut gone, heard) = handler(1);
    drop(heard);
    assert_eq!(gone.listen(&mut mgr, "friday".to_string(), "now".to_string()), Err(()));
    assert!(mgr.websocket_connections.entries().is_empty());
}

#[test]
fn first_connection_of_a_player_is_told() {
    let mut mgr = server();
    let (mut first, _a) = handler(1);
    let (mut second, _b) = handler(2);
    let notice = first.authenticate(&mut mgr, claim("friday", ANN)).unwrap();
    assert_eq!(notice.lobby_id, "friday");
    assert!(matches!(
        notice.event,
        LobbyEvent::PlayerData(data) if data.id == 0 && data.connected
    ));
    assert!(second.authenticate(&mut mgr, claim("friday", ANN)).is_none());
    assert_eq!(count(&mgr, 0), 2);
    assert_eq!(count(&mgr, 1), 0);
}

#[test]
fn unknown_claims_are_passed_over() {
    let mut mgr = server();
    let (mut client, _heard) = handler(1);
    assert!(client.authenticate(&mut mgr, claim("sunday", ANN)).is_none());
    assert!(client.authenticate(&mut mgr, claim("FRIDAY", ANN)).is_none());
    assert!(client.authenticate(&mut mgr, claim("friday", [9; 16])).is_none());
    assert!(client.disconnect(&mut mgr).is_empty());
    assert_eq!(count(&mgr, 0), 0);
}

#[test]
fn last_connection_of_a_player_is_told() {
    let mut mgr = server();
    let (mut first, _a) = handler(1);
    let (mut second, _b) = handler(2);
    first.authenticate(&mut mgr, claim("friday", ANN));
    second.authenticate(&mut mgr, claim("friday", ANN));
    second.authenticate(&mut mgr, claim("friday", BEN));
    let notices = second.disconnect(&mut mgr);
    assert_eq!(notices.len(), 1);
    assert!(matches!(
        &notices[0].event,
        LobbyEvent::PlayerData(data) if data.id == 1 && !data.connected
    ));
    assert_eq!(count(&mgr, 0), 1);
    let notices = first.disconnect(&mut mgr);
    assert_eq!(notices.len(), 1);
    assert!(matches!(&notices[0].event, LobbyEvent::PlayerData(data) if data.id == 0));
    assert_eq!(count(&mgr, 0), 0);
}

#[test]
fn claim_made_twice_is_dropped_twice() {
    let mut mgr = server();
    let (mut client, _heard) = handler(1);
    client.authenticate(&mut mgr, claim("friday", ANN));
    client.authenticate(&mut mgr, claim("friday", ANN));
    assert_eq!(count(&mgr, 0), 2);
    assert_eq!(client.disconnect(&mut mgr).len(), 1);
    assert_eq!(count(&mgr, 0), 0);
}

#[test]
fn connections_never_fall_below_none() {
    let mut mgr = server();
    let (mut client, _heard) = handler(1);
    client.authenticate(&mut mgr, claim("friday", ANN));
    client.disconnect(&mut mgr);
    let notices = client.disconnect(&mut mgr);
    assert_eq!(notices.len(), 1);
    assert_eq!(count(&mgr, 0), 0);
}

#[test]
fn listener_is_shown_the_lobby_first() {
    let mut mgr = server();
    let games: GameManager<u8> = GameManager::init();
    let (mut client, _heard) = handler(1);
    let msg = WsClientMessage::SubscribeToLobby(SubscribeToLobby { lobby_id: "friday".to_string() });
    match client.handle_message(&mut mgr, &games, msg) {
        HandlerAction::ShowLobby { lobby_id, state: LobbyEvent::LobbyState(data) } => {
            assert_eq!(lobby_id, "friday");
            assert_eq!(data.id, "friday");
            assert_eq!(data.players.entries().len(), 2);
        }
        other => panic!("unexpected action {:?}", other),
    }
    let msg = WsClientMessage::SubscribeToLobby(SubscribeToLobby { lobby_id: "sunday".to_string() });
    assert!(matches!(client.handle_message(&mut mgr, &games, msg), HandlerAction::Nothing));
}

#[test]
fn running_match_is_followed() {
    let mut mgr = server();
    let mut games: GameManager<u8> = GameManager::init();
    games.register_match("m".to_string(), 42);
    games.register_match("n".to_string(), 43);
    games.finish_match("n".to_string(), match_file_path("n"));
    let (mut client, _heard) = handler(1);
    let subscribe = |id: &str| {
        WsClientMessage::SubscribeToMatch(SubscribeToMatch {
            match_id: id.to_string(),
            stream_id: 5,
        })
    };
    assert!(matches!(
        client.handle_message(&mut mgr, &games, subscribe("m")),
        HandlerAction::FollowMatch { stream_id: 5, log_stream: &42 }
    ));
    assert!(matches!(
        client.handle_message(&mut mgr, &games, subscribe("n")),
        HandlerAction::Nothing
    ));
    assert!(matches!(
        client.handle_message(&mut mgr, &games, subscribe("o")),
        HandlerAction::Nothing
    ));
}

#[test]
fn log_entry_is_told_with_its_stream() {
    match match_log_event(3, "entry".to_string()) {
        LobbyEvent::MatchLogEvent(event) => {
            assert_eq!(event.stream_id, 3);
            assert_eq!(event.event, "entry");
        }
        other => panic!("unexpected event {:?}", other),
    }
}

#[test]
fn connection_runs_until_it_is_closed() {
    let mut mgr = server();
    let games: GameManager<u8> = GameManager::init();
    let (mut client, _heard) = handler(1);
    assert!(matches!(
        client.step(&mut mgr, &games, WsInput::Unreadable),
        WsStep::Continue(HandlerAction::Nothing)
    ));
    let msg = WsInput::Message(WsClientMessage::AuthenticatePlayer(claim("friday", ANN)));
    match client.step(&mut mgr, &games, msg) {
        WsStep::Continue(HandlerAction::Tell(notice)) => assert_eq!(notice.lobby_id, "friday"),
        other => panic!("unexpected step {:?}", other),
    }
    let msg = WsInput::Message(WsClientMessage::AuthenticatePlayer(claim("friday", ANN)));
    assert!(matches!(
        client.step(&mut mgr, &games, msg),
        WsStep::Continue(HandlerAction::Nothing)
    ));
    match client.step(&mut mgr, &games, WsInput::Closed) {
        WsStep::Stop(notices) => assert_eq!(notices.len(), 1),
        other => panic!("unexpected step {:?}", other),
    }
    assert_eq!(count(&mgr, 0), 0);
}

#[test]
fn claim_that_cannot_be_counted_is_not_heard() {
    let mut mgr = server();
    let games: GameManager<u8> = GameManager::init();
    let mut lobby = mgr.lobbies.get(&"friday".to_string()).unwrap().clone();
    let mut ann = lobby.players.get(&0).unwrap().clone();
    ann.connection_count = usize::MAX;
    lobby.players.insert(0, ann);
    mgr.add_lobby(&lobby);
    let (mut client, _heard) = handler(1);
    let msg = WsInput::Message(WsClientMessage::AuthenticatePlayer(claim("friday", ANN)));
    assert!(client.try_step(&mut mgr, &games, msg).is_none());
    assert_eq!(count(&mgr, 0), usize::MAX);
    let msg = WsInput::Message(WsClientMessage::AuthenticatePlayer(claim("friday", BEN)));
    assert!(matches!(
        client.try_step(&mut mgr, &games, msg),
        Some(WsStep::Continue(HandlerAction::Tell(_)))
    ));
    let msg = WsInput::Message(WsClientMessage::AuthenticatePlayer(claim("sunday", ANN)));
    assert!(matches!(
        client.try_step(&mut mgr, &games, msg),
        Some(WsStep::Continue(HandlerAction::Nothing))
    ));
    assert!(matches!(
        client.try_step(&mut mgr, &games, WsInput::Closed),
        Some(WsStep::Stop(_))
    ));
}

#[test]
fn connection_that_fails_is_given_up() {
    let mut mgr = server();
    let games: GameManager<u8> = GameManager::init();
    let (mut client, _heard) = handler(1);
    client.authenticate(&mut mgr, claim("friday", BEN));
    match client.step(&mut mgr, &games, WsInput::Failed) {
        WsStep::Stop(notices) => assert_eq!(notices.len(), 1),
        other => panic!("unexpected step {:?}", other),
    }
    assert_eq!(count(&mgr, 1), 0);
}
