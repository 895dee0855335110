use planetwars_server::embedded::{
    encode_frame, frame_len, CtrlMsg, Handler, HandlerEvent, HandlerOutput, PlayerResponse,
    PlayerUid, ServerMessage, StartMatch,
};

#[test]
fn frame_begins_with_its_length() {
    assert_eq!(encode_frame(&vec![7, 8, 9]), vec![0, 0, 0, 3, 7, 8, 9]);
    assert_eq!(encode_frame(&vec![]), vec![0, 0, 0, 0]);
    assert_eq!(encode_frame(&vec![1; 0x1_0203])[..4], [0, 1, 2, 3]);
}

#[test]
fn length_is_read_highest_byte_first() {
    assert_eq!(frame_len(&[0, 0, 0, 0]), 0);
    assert_eq!(frame_len(&[1, 2, 3, 4]), 0x0102_0304);
    assert_eq!(frame_len(&[0xff; 4]), u32::MAX);
}

#[test]
fn frame_is_read_as_it_was_written() {
    let content: Vec<u8> = (0..300).map(|i| (i % 256) as u8).collect();
    let mut stream = encode_frame(&content);
    stream.extend(encode_frame(&vec![1]));
    let len = frame_len(&[stream[0], stream[1], stream[2], stream[3]]) as usize;
    assert_eq!(stream[4..4 + len], content[..]);
    assert_eq!(stream[4 + len..], [0, 0, 0, 1, 1]);
}

fn start(id: &str, num_players: usize) -> HandlerEvent<&'static str> {
    HandlerEvent::Control(CtrlMsg::StartMatch(StartMatch {
        match_id: id.to_string(),
        num_players,
        config: "hex",
    }))
}

#[test]
fn match_is_played_with_its_players() {
    let mut handler: Handler<u8> = Handler::new();
    match handler.handle_event(start("m", 2), 1) {
        HandlerOutput::Play { match_id, players, config } => {
            assert_eq!(match_id, "m");
            assert_eq!(config, "hex");
            assert_eq!(players.len(), 2);
            assert_eq!(players[0].match_id, "m");
            assert_eq!(players[0].player_id, 1);
            assert_eq!(players[1].player_id, 2);
        }
        other => panic!("unexpected output {:?}", other),
    }
    assert!(handler.is_running(&"m".to_string()));
    assert!(!handler.is_running(&"n".to_string()));
}

#[test]
fn answer_goes_to_the_match_it_names() {
    let mut handler: Handler<u8> = Handler::new();
    handler.handle_event(start("m", 2), 10);
    handler.handle_event(start("n", 2), 20);
    let response = PlayerResponse {
        match_id: "n".to_string(),
        player_id: 2,
        request_id: 7,
        content: vec![1, 2],
    };
    let event: HandlerEvent<&'static str> =
        HandlerEvent::Control(CtrlMsg::PlayerResponse(response));
    match handler.handle_event(event, 30) {
        HandlerOutput::Forward { event_bus, event } => {
            assert_eq!(*event_bus, 20);
            assert_eq!(event.player_id, 2);
            assert_eq!(event.request_id, 7);
            assert_eq!(event.response, vec![1, 2]);
        }
        other => panic!("unexpected output {:?}", other),
    }
}

#[test]
fn request_of_a_match_is_sent_out() {
    let mut handler: Handler<u8> = Handler::new();
    let event: HandlerEvent<&'static str> = HandlerEvent::Request {
        player: PlayerUid { match_id: "m".to_string(), player_id: 2 },
        request_id: 9,
        content: vec![3],
    };
    match handler.handle_event(event, 1) {
        HandlerOutput::Send(ServerMessage::PlayerRequest(req)) => {
            assert_eq!(req.match_id, "m");
            assert_eq!(req.player_id, 2);
            assert_eq!(req.request_id, 9);
            assert_eq!(req.content, vec![3]);
        }
        other => panic!("unexpected output {:?}", other),
    }
    assert!(!handler.is_running(&"m".to_string()));
}

#[test]
fn finished_match_is_forgotten_and_reported() {
    let mut handler: Handler<u8> = Handler::new();
    handler.handle_event(start("m", 1), 1);
    handler.handle_event(start("n", 1), 2);
    let event: HandlerEvent<&'static str> = HandlerEvent::MatchComplete {
        id: "m".to_string(),
        log: vec!["a".to_string(), "b".to_string()],
    };
    match handler.handle_event(event, 3) {
        HandlerOutput::Send(ServerMessage::MatchFinished(msg)) => {
            assert_eq!(msg.match_id, "m");
            assert_eq!(msg.match_log, vec!["a".to_string(), "b".to_string()]);
        }
        other => panic!("unexpected output {:?}", other),
    }
    assert!(!handler.is_running(&"m".to_string()));
    assert!(handler.is_running(&"n".to_string()));
}
