use planetwars_server::api::{
    accept_proposal, create_lobby, create_proposal, create_proposal_with_id, get_lobby_by_id,
    get_maps, join_lobby, start_proposal, start_proposal_with_id, try_create_proposal,
    try_join_lobby, AcceptParams, LobbyRequestCtx, Reply,
};
use planetwars_server::error::{result_to_response, LobbyApiError, Response};
use planetwars_server::event::LobbyEvent;
use planetwars_server::game_manager::{GameManager, MatchData, MatchPlayer};
use planetwars_server::lobby::{
    AcceptedState, Lobby, LobbyConfig, LobbyData, MatchStatus, Player, PlayerType, Proposal,
    ProposalStatus, PwMapData, Timestamp,
};
use planetwars_server::lobby_manager::LobbyManager;
use planetwars_server::membership::PlayerParams;
use planetwars_server::planetwars::MatchConfig;
use planetwars_server::proposals::{validate_proposal_params, ProposalParams, PwMaps};
use planetwars_server::table::Table;
use planetwars_server::token::{id_text, Token};

const LOBBY: [u8; 16] = [0xab; 16];
const ANN: Token = [1; 16];
const BEN: Token = [2; 16];
const CID: Token = [3; 16];
const NOW: Timestamp = Timestamp { seconds: 1_600_000_000, nanos: 5 };

fn maps() -> PwMaps {
    let mut maps: PwMaps = Table::new();
    maps.insert("hex".to_string(), PwMapData { name: "hex".to_string(), max_players: 2 });
    maps.insert("big".to_string(), PwMapData { name: "big".to_string(), max_players: 6 });
    maps
}

fn server() -> LobbyManager {
    let mut mgr = LobbyManager::create(maps());
    let config = LobbyConfig { name: "friday".to_string(), public: true };
    mgr.add_lobby(&Lobby::with_id(config, LOBBY, [0; 16]));
    mgr
}

fn lobby_id() -> String {
    id_text(&LOBBY)
}

fn lobby(mgr: &LobbyManager) -> &Lobby {
    mgr.lobbies.get(&lobby_id()).unwrap()
}

fn from_nobody() -> LobbyRequestCtx {
    LobbyRequestCtx { lobby_id: lobby_id(), auth_header: None }
}

fn from(token: Token) -> LobbyRequestCtx {
    LobbyRequestCtx {
        lobby_id: lobby_id(),
        auth_header: Some(format!("Bearer {}", id_text(&token))),
    }
}

fn params(name: &str, token: Token) -> PlayerParams {
    PlayerParams { name: name.to_string(), token }
}

fn join(mgr: &mut LobbyManager, name: &str, token: Token) -> usize {
    join_lobby(mgr, &from_nobody(), params(name, token), true).result.unwrap().id
}

fn config() -> MatchConfig {
    MatchConfig { map_name: "hex".to_string(), max_turns: 100 }
}

fn asking(players: Vec<usize>) -> ProposalParams {
    ProposalParams { config: config(), players }
}

fn propose(mgr: &mut LobbyManager, token: Token, players: Vec<usize>, id: &str) -> Reply<Proposal> {
    create_proposal_with_id(mgr, &from(token), asking(players), id.to_string())
}

fn answer(mgr: &mut LobbyManager, token: Token, id: &str, status: AcceptedState) -> Reply<Proposal> {
    accept_proposal(mgr, &from(token), id.to_string(), AcceptParams { status })
}

fn refusal<T>(reply: Reply<T>) -> LobbyApiError {
    assert!(reply.notices.is_empty());
    match reply.result {
        Ok(_) => panic!("the request was granted"),
        Err(err) => err,
    }
}

fn status<T>(err: LobbyApiError) -> (u16, Option<String>) {
    match result_to_response::<T>(Err(err)) {
        Response::Json(_) => panic!("a refusal was granted"),
        Response::Status { code, message } => (code, message),
    }
}

fn shown(mgr: &LobbyManager) -> LobbyData {
    get_lobby_by_id(mgr, &from_nobody()).unwrap()
}

#[test]
fn new_lobby_is_open_and_empty() {
    let mut mgr = LobbyManager::create(maps());
    let data = create_lobby(&mut mgr, LobbyConfig { name: "friday".to_string(), public: true });
    assert_eq!(data.name, "friday");
    assert!(data.public);
    assert!(data.players.entries().is_empty());
    let req = LobbyRequestCtx { lobby_id: data.id.clone(), auth_header: None };
    let found = get_lobby_by_id(&mgr, &req).unwrap();
    assert_eq!(found.id, data.id);
    assert_eq!(found.name, "friday");
}

#[test]
fn lobby_is_found_in_whatever_letter_case() {
    let mgr = server();
    let req = LobbyRequestCtx { lobby_id: lobby_id().to_uppercase(), auth_header: None };
    assert_eq!(get_lobby_by_id(&mgr, &req).unwrap().id, lobby_id());
}

#[test]
fn lobby_under_a_name_that_is_not_ascii_is_found_in_its_lower_case() {
    let mut mgr = server();
    let mut odd = lobby(&mgr).clone();
    odd.id = "\u{e4}b".to_string();
    mgr.add_lobby(&odd);
    let req = LobbyRequestCtx { lobby_id: "\u{c4}B".to_string(), auth_header: None };
    assert_eq!(get_lobby_by_id(&mgr, &req).unwrap().id, "\u{e4}b");
}

#[test]
fn unknown_lobby_is_not_found() {
    let mut mgr = server();
    let mut games: GameManager<u8> = GameManager::init();
    let req = LobbyRequestCtx { lobby_id: "nowhere".to_string(), auth_header: None };
    assert!(matches!(get_lobby_by_id(&mgr, &req), Err(LobbyApiError::LobbyNotFound)));
    let err = refusal(join_lobby(&mut mgr, &req, params("ann", ANN), true));
    assert!(matches!(err, LobbyApiError::LobbyNotFound));
    let err = refusal(create_proposal(&mut mgr, &req, asking(vec![])));
    assert!(matches!(err, LobbyApiError::LobbyNotFound));
    let err = refusal(start_proposal(&mut mgr, &mut games, &req, "p".to_string(), 0));
    assert!(matches!(err, LobbyApiError::LobbyNotFound));
    let params = AcceptParams { status: AcceptedState::Accepted };
    let err = refusal(accept_proposal(&mut mgr, &req, "p".to_string(), params));
    assert!(matches!(err, LobbyApiError::LobbyNotFound));
    assert_eq!(mgr.lobbies.entries().len(), 1);
}

#[test]
fn players_are_numbered_as_they_join() {
    let mut mgr = server();
    assert_eq!(join(&mut mgr, "ann", ANN), 0);
    assert_eq!(join(&mut mgr, "ben", BEN), 1);
    assert_eq!(lobby(&mgr).next_player_id, 2);
    let player = lobby(&mgr).players.get(&1).unwrap();
    assert_eq!(player.id, 1);
    assert_eq!(player.name, "ben");
    assert_eq!(player.connection_count, 0);
    assert!(player.client_connected);
    assert!(matches!(player.player_type, PlayerType::External { token } if token == BEN));
    assert_eq!(mgr.token_player.get(&BEN).unwrap().players(), &vec![(lobby_id(), 1)]);
}

#[test]
fn joining_is_told_to_the_lobby_and_shown_in_it() {
    let mut mgr = server();
    let req = LobbyRequestCtx { lobby_id: lobby_id().to_uppercase(), auth_header: None };
    let reply = join_lobby(&mut mgr, &req, params("ann", ANN), false);
    assert_eq!(reply.notices.len(), 1);
    assert_eq!(reply.notices[0].lobby_id, lobby_id());
    match &reply.notices[0].event {
        LobbyEvent::PlayerData(data) => {
            assert_eq!(data.id, 0);
            assert_eq!(data.name, "ann");
            assert!(!data.connected);
            assert!(!data.client_connected);
        }
        other => panic!("unexpected event {:?}", other),
    }
    let data = shown(&mgr);
    assert_eq!(data.players.get(&0).unwrap().name, "ann");
    assert!(!data.players.get(&0).unwrap().client_connected);
}

#[test]
fn name_of_another_player_is_taken() {
    let mut mgr = server();
    join(&mut mgr, "ann", ANN);
    let err = refusal(join_lobby(&mut mgr, &from_nobody(), params("ann", BEN), true));
    assert!(matches!(err, LobbyApiError::NameTaken));
    assert_eq!(lobby(&mgr).players.entries().len(), 1);
    assert_eq!(lobby(&mgr).next_player_id, 1);
    assert!(mgr.token_player.get(&BEN).is_none());
}

#[test]
fn joining_again_keeps_the_number() {
    let mut mgr = server();
    join(&mut mgr, "ann", ANN);
    join(&mut mgr, "ben", BEN);
    assert_eq!(join(&mut mgr, "ann", ANN), 0);
    assert_eq!(join(&mut mgr, "anna", ANN), 0);
    assert_eq!(lobby(&mgr).players.get(&0).unwrap().name, "anna");
    assert_eq!(lobby(&mgr).next_player_id, 2);
    assert_eq!(mgr.token_player.get(&ANN).unwrap().players().len(), 1);
    assert_eq!(join(&mut mgr, "ann", CID), 2);
    let err = refusal(join_lobby(&mut mgr, &from_nobody(), params("ann", ANN), true));
    assert!(matches!(err, LobbyApiError::NameTaken));
}

#[test]
fn joining_again_forgets_the_connections() {
    let mut mgr = server();
    join(&mut mgr, "ann", ANN);
    let mut changed = lobby(&mgr).clone();
    changed.add_connection(0);
    mgr.add_lobby(&changed);
    assert!(shown(&mgr).players.get(&0).unwrap().connected);
    join(&mut mgr, "ann", ANN);
    assert!(!shown(&mgr).players.get(&0).unwrap().connected);
}

#[test]
fn nobody_new_joins_when_no_number_is_left() {
    let mut mgr = server();
    join(&mut mgr, "ann", ANN);
    let mut full = lobby(&mgr).clone();
    full.next_player_id = usize::MAX;
    mgr.add_lobby(&full);
    assert!(try_join_lobby(&mut mgr, &from_nobody(), params("ben", BEN), true).is_none());
    assert_eq!(lobby(&mgr).players.entries().len(), 1);
    let again = try_join_lobby(&mut mgr, &from_nobody(), params("anna", ANN), true).unwrap();
    assert_eq!(again.result.unwrap().id, 0);
    let taken = try_join_lobby(&mut mgr, &from_nobody(), params("anna", BEN), true).unwrap();
    assert!(matches!(refusal(taken), LobbyApiError::NameTaken));
}

#[test]
fn joining_with_room_left_is_granted() {
    let mut mgr = server();
    let reply = try_join_lobby(&mut mgr, &from_nobody(), params("ann", ANN), true).unwrap();
    assert_eq!(reply.result.unwrap().name, "ann");
    assert_eq!(lobby(&mgr).players.entries().len(), 1);
}

#[test]
fn proposal_params_are_checked_in_turn() {
    let maps = maps();
    let wrong = |map: &str, turns: usize, players: usize| -> Option<String> {
        let params = ProposalParams {
            config: MatchConfig { map_name: map.to_string(), max_turns: turns },
            players: vec![0; players],
        };
        match validate_proposal_params(&maps, &params) {
            Ok(()) => None,
            Err(LobbyApiError::InvalidProposalParams(msg)) => Some(msg),
            Err(other) => panic!("unexpected refusal {:?}", other),
        }
    };
    assert_eq!(wrong("hex", 500, 2), None);
    assert_eq!(wrong("hex", 0, 0), None);
    assert_eq!(wrong("hex", 501, 2), Some("max allowed turns is 500".to_string()));
    assert_eq!(wrong("moon", 501, 9), Some("max allowed turns is 500".to_string()));
    assert_eq!(wrong("moon", 500, 9), Some("map does not exist".to_string()));
    assert_eq!(wrong("hex", 500, 3), Some("too many players".to_string()));
    assert_eq!(wrong("big", 500, 6), None);
}

#[test]
fn proposal_params_are_checked_before_the_player() {
    let mut mgr = server();
    let params = ProposalParams {
        config: MatchConfig { map_name: "moon".to_string(), max_turns: 1 },
        players: vec![],
    };
    let err = refusal(create_proposal(&mut mgr, &from_nobody(), params));
    assert!(matches!(err, LobbyApiError::InvalidProposalParams(msg) if msg == "map does not exist"));
}

#[test]
fn only_players_propose() {
    let mut mgr = server();
    join(&mut mgr, "ann", ANN);
    let err = refusal(create_proposal(&mut mgr, &from_nobody(), asking(vec![0])));
    assert!(matches!(err, LobbyApiError::NotAuthenticated));
    let err = refusal(create_proposal(&mut mgr, &from(BEN), asking(vec![0])));
    assert!(matches!(err, LobbyApiError::NotAuthenticated));
    assert!(lobby(&mgr).proposals.entries().is_empty());
}

#[test]
fn maker_accepts_a_proposal_from_the_start() {
    let mut mgr = server();
    join(&mut mgr, "ann", ANN);
    join(&mut mgr, "ben", BEN);
    let reply = propose(&mut mgr, ANN, vec![1, 0], "p");
    assert_eq!(reply.notices.len(), 1);
    assert!(matches!(&reply.notices[0].event, LobbyEvent::ProposalData(p) if p.id == "p"));
    let proposal = reply.result.unwrap();
    assert_eq!(proposal.owner_id, 0);
    assert_eq!(proposal.config.map_name, "hex");
    assert_eq!(proposal.config.max_turns, 100);
    assert_eq!(proposal.status, ProposalStatus::Pending);
    assert_eq!(proposal.players[0].player_id, 1);
    assert_eq!(proposal.players[0].status, AcceptedState::Unanswered);
    assert_eq!(proposal.players[1].player_id, 0);
    assert_eq!(proposal.players[1].status, AcceptedState::Accepted);
    assert_eq!(shown(&mgr).proposals.get(&"p".to_string()).unwrap().players.len(), 2);
}

#[test]
fn bots_accept_a_proposal_from_the_start() {
    let mut mgr = server();
    join(&mut mgr, "ann", ANN);
    let mut changed = lobby(&mgr).clone();
    let bot = Player {
        id: 7,
        name: "bot".to_string(),
        player_type: PlayerType::Internal { bot: "simplebot".to_string() },
        connection_count: 0,
        client_connected: true,
    };
    changed.players.insert(7, bot);
    mgr.add_lobby(&changed);
    let proposal = propose(&mut mgr, ANN, vec![0, 7], "p").result.unwrap();
    assert_eq!(proposal.players[1].status, AcceptedState::Accepted);
    let mut games: GameManager<u8> = GameManager::init();
    let id = "p".to_string();
    let reply = start_proposal_with_id(
        &mut mgr,
        &mut games,
        &from(ANN),
        id,
        0,
        "m".to_string(),
        NOW,
    );
    let started = reply.result.unwrap();
    assert!(matches!(&started.players[0], MatchPlayer::External(token) if *token == ANN));
    assert!(matches!(&started.players[1], MatchPlayer::Internal(bot) if bot == "simplebot"));
}

#[test]
fn proposals_are_drawn_their_identifiers() {
    let mut mgr = server();
    join(&mut mgr, "ann", ANN);
    let a = create_proposal(&mut mgr, &from(ANN), asking(vec![0])).result.unwrap();
    let b = create_proposal(&mut mgr, &from(ANN), asking(vec![0])).result.unwrap();
    assert_ne!(a.id, b.id);
    assert_eq!(a.id.len(), 36);
    for (i, c) in a.id.bytes().enumerate() {
        if i == 8 || i == 13 || i == 18 || i == 23 {
            assert_eq!(c, b'-');
        } else {
            assert!(matches!(c, b'0'..=b'9' | b'a'..=b'f'));
        }
    }
    assert_eq!(a.id.as_bytes()[14], b'4');
    assert!(matches!(a.id.as_bytes()[19], b'8' | b'9' | b'a' | b'b'));
    assert_eq!(lobby(&mgr).proposals.entries().len(), 2);
}

#[test]
fn strangers_are_not_asked() {
    let mut mgr = server();
    join(&mut mgr, "ann", ANN);
    assert!(try_create_proposal(&mut mgr, &from(ANN), asking(vec![0, 5])).is_none());
    assert!(lobby(&mgr).proposals.entries().is_empty());
    let reply = try_create_proposal(&mut mgr, &from_nobody(), asking(vec![0, 5])).unwrap();
    assert!(matches!(refusal(reply), LobbyApiError::NotAuthenticated));
    let reply = try_create_proposal(&mut mgr, &from(ANN), asking(vec![0, 5, 6])).unwrap();
    assert!(matches!(refusal(reply), LobbyApiError::InvalidProposalParams(_)));
    let reply = try_create_proposal(&mut mgr, &from(ANN), asking(vec![0])).unwrap();
    assert_eq!(reply.result.unwrap().owner_id, 0);
}

#[test]
fn answers_are_taken_down() {
    let mut mgr = server();
    join(&mut mgr, "ann", ANN);
    join(&mut mgr, "ben", BEN);
    propose(&mut mgr, ANN, vec![0, 1], "p");
    let reply = answer(&mut mgr, BEN, "p", AcceptedState::Accepted);
    assert_eq!(reply.notices.len(), 1);
    let proposal = reply.result.unwrap();
    assert_eq!(proposal.players[1].status, AcceptedState::Accepted);
    assert_eq!(proposal.status, ProposalStatus::Pending);
    let proposal = answer(&mut mgr, BEN, "p", AcceptedState::Unanswered).result.unwrap();
    assert_eq!(proposal.players[1].status, AcceptedState::Unanswered);
    assert_eq!(proposal.players[0].status, AcceptedState::Accepted);
}

#[test]
fn one_no_denies_a_proposal() {
    let mut mgr = server();
    join(&mut mgr, "ann", ANN);
    join(&mut mgr, "ben", BEN);
    propose(&mut mgr, ANN, vec![0, 1], "p");
    propose(&mut mgr, ANN, vec![0], "q");
    let proposal = answer(&mut mgr, BEN, "p", AcceptedState::Rejected).result.unwrap();
    assert_eq!(proposal.status, ProposalStatus::Denied);
    assert!(!lobby(&mgr).proposals.contains_key(&"p".to_string()));
    assert!(lobby(&mgr).proposals.contains_key(&"q".to_string()));
    let err = refusal(answer(&mut mgr, ANN, "p", AcceptedState::Accepted));
    assert!(matches!(err, LobbyApiError::ProposalNotFound));
}

#[test]
fn answer_of_someone_who_was_not_asked_changes_nothing() {
    let mut mgr = server();
    join(&mut mgr, "ann", ANN);
    join(&mut mgr, "ben", BEN);
    propose(&mut mgr, ANN, vec![0], "p");
    let proposal = answer(&mut mgr, BEN, "p", AcceptedState::Rejected).result.unwrap();
    assert_eq!(proposal.status, ProposalStatus::Pending);
    assert_eq!(proposal.players[0].status, AcceptedState::Accepted);
    assert!(lobby(&mgr).proposals.contains_key(&"p".to_string()));
}

#[test]
fn answers_are_refused_in_turn() {
    let mut mgr = server();
    join(&mut mgr, "ann", ANN);
    let err = refusal(answer(&mut mgr, BEN, "p", AcceptedState::Accepted));
    assert!(matches!(err, LobbyApiError::NotAuthenticated));
    let err = refusal(answer(&mut mgr, ANN, "p", AcceptedState::Accepted));
    assert!(matches!(err, LobbyApiError::ProposalNotFound));
}

#[test]
fn proposal_is_started_when_all_are_ready() {
    let mut mgr = server();
    join(&mut mgr, "ann", ANN);
    join(&mut mgr, "ben", BEN);
    propose(&mut mgr, ANN, vec![1, 0], "p");
    answer(&mut mgr, BEN, "p", AcceptedState::Accepted);
    let mut games: GameManager<u8> = GameManager::init();
    let reply = start_proposal_with_id(
        &mut mgr,
        &mut games,
        &from(ANN),
        "p".to_string(),
        42,
        "m".to_string(),
        NOW,
    );
    assert_eq!(reply.notices.len(), 2);
    assert!(matches!(&reply.notices[0].event, LobbyEvent::ProposalData(p) if p.id == "p"));
    match &reply.notices[1].event {
        LobbyEvent::MatchData(meta) => {
            assert_eq!(meta.id, "m");
            assert_eq!(meta.timestamp, NOW);
            assert_eq!(meta.players, vec![1, 0]);
            assert_eq!(meta.status, MatchStatus::Playing);
            assert_eq!(meta.config.map_name, "hex");
        }
        other => panic!("unexpected event {:?}", other),
    }
    let started = reply.result.unwrap();
    assert_eq!(started.match_id, "m");
    assert_eq!(started.lobby_id, lobby_id());
    assert_eq!(started.config.max_turns, 100);
    assert_eq!(started.proposal.status, ProposalStatus::Accepted { match_id: "m".to_string() });
    assert!(matches!(&started.players[0], MatchPlayer::External(token) if *token == BEN));
    assert!(matches!(&started.players[1], MatchPlayer::External(token) if *token == ANN));
    assert!(!lobby(&mgr).proposals.contains_key(&"p".to_string()));
    assert!(lobby(&mgr).matches.contains_key(&"m".to_string()));
    assert!(matches!(
        games.get_match_data("m"),
        Some(MatchData::InProgress { log_stream: 42 })
    ));
}

#[test]
fn proposal_is_started_once() {
    let mut mgr = server();
    join(&mut mgr, "ann", ANN);
    propose(&mut mgr, ANN, vec![0], "p");
    let mut games: GameManager<u8> = GameManager::init();
    let started =
        start_proposal(&mut mgr, &mut games, &from(ANN), "p".to_string(), 0).result.unwrap();
    assert_eq!(started.match_id.len(), 32);
    let meta = lobby(&mgr).matches.get(&started.match_id).unwrap();
    assert!(meta.timestamp.nanos < 1_000_000_000);
    assert!(meta.timestamp.seconds > 1_600_000_000);
    let err = refusal(start_proposal(&mut mgr, &mut games, &from(ANN), "p".to_string(), 0));
    assert!(matches!(err, LobbyApiError::ProposalNotFound));
    assert_eq!(games.list_matches(), vec![started.match_id]);
}

#[test]
fn starts_are_refused_in_turn() {
    let mut mgr = server();
    join(&mut mgr, "ann", ANN);
    join(&mut mgr, "ben", BEN);
    propose(&mut mgr, ANN, vec![0, 1], "p");
    let mut games: GameManager<u8> = GameManager::init();
    let mut start = |mgr: &mut LobbyManager, token: Token, id: &str| {
        refusal(start_proposal(mgr, &mut games, &from(token), id.to_string(), 0))
    };
    assert!(matches!(start(&mut mgr, CID, "p"), LobbyApiError::NotAuthenticated));
    assert!(matches!(start(&mut mgr, ANN, "q"), LobbyApiError::ProposalNotFound));
    assert!(matches!(start(&mut mgr, BEN, "p"), LobbyApiError::NotAuthorized));
    assert!(matches!(start(&mut mgr, ANN, "p"), LobbyApiError::ProposalNotReady));
    answer(&mut mgr, BEN, "p", AcceptedState::Accepted);
    mgr.set_client_connected(&BEN, false);
    assert!(matches!(start(&mut mgr, ANN, "p"), LobbyApiError::ProposalNotReady));
    let mut changed = lobby(&mgr).clone();
    let mut expired = changed.proposals.get(&"p".to_string()).unwrap().clone();
    expired.status = ProposalStatus::Denied;
    changed.proposals.insert("p".to_string(), expired);
    mgr.add_lobby(&changed);
    assert!(matches!(start(&mut mgr, ANN, "p"), LobbyApiError::ProposalExpired));
    assert!(games.list_matches().is_empty());
}

#[test]
fn match_is_done_when_it_is_over() {
    let mut mgr = server();
    join(&mut mgr, "ann", ANN);
    propose(&mut mgr, ANN, vec![0], "p");
    let mut games: GameManager<u8> = GameManager::init();
    let started =
        start_proposal(&mut mgr, &mut games, &from(ANN), "p".to_string(), 0).result.unwrap();
    let notice = mgr.finish_match(&started.lobby_id, &started.match_id).unwrap();
    assert_eq!(notice.lobby_id, lobby_id());
    match notice.event {
        LobbyEvent::MatchData(meta) => {
            assert_eq!(meta.id, started.match_id);
            assert_eq!(meta.status, MatchStatus::Done);
        }
        other => panic!("unexpected event {:?}", other),
    }
    let data = shown(&mgr);
    assert_eq!(data.matches.get(&started.match_id).unwrap().status, MatchStatus::Done);
    assert!(mgr.finish_match(&started.lobby_id, "other").is_none());
    assert!(mgr.finish_match("other", &started.match_id).is_none());
}

#[test]
fn maps_are_listed() {
    let maps = get_maps(&server());
    assert_eq!(maps.len(), 2);
    assert_eq!(maps[0].name, "hex");
    assert_eq!(maps[0].max_players, 2);
    assert_eq!(maps[1].name, "big");
}

#[test]
fn refusals_are_answered_with_a_status() {
    assert_eq!(status::<u8>(LobbyApiError::LobbyNotFound), (404, None));
    assert_eq!(status::<u8>(LobbyApiError::NotAuthenticated), (400, None));
    assert_eq!(status::<u8>(LobbyApiError::NotAuthorized), (401, None));
    let text = "name is not available".to_string();
    assert_eq!(status::<u8>(LobbyApiError::NameTaken), (400, Some(text)));
    let text = "too many players".to_string();
    let err = LobbyApiError::InvalidProposalParams(text.clone());
    assert_eq!(status::<u8>(err), (400, Some(text)));
    assert_eq!(status::<u8>(LobbyApiError::ProposalNotFound), (404, None));
    let text = "proposal is no longer valid".to_string();
    assert_eq!(status::<u8>(LobbyApiError::ProposalExpired), (400, Some(text)));
    let text = "not all players have accepted".to_string();
    assert_eq!(status::<u8>(LobbyApiError::ProposalNotReady), (400, Some(text)));
    assert!(matches!(result_to_response(Ok(5)), Response::Json(5)));
}

#[test]
fn client_is_known_in_every_lobby() {
    let mut mgr = server();
    let config = LobbyConfig { name: "saturday".to_string(), public: true };
    mgr.add_lobby(&Lobby::with_id(config, [0xcd; 16], [0; 16]));
    let other = LobbyRequestCtx { lobby_id: id_text(&[0xcd; 16]), auth_header: None };
    join_lobby(&mut mgr, &from_nobody(), params("ann", ANN), false);
    join_lobby(&mut mgr, &from_nobody(), params("ben", BEN), false);
    join_lobby(&mut mgr, &other, params("annie", ANN), false);
    let notices = mgr.set_client_connected(&ANN, true);
    assert_eq!(notices.len(), 2);
    assert_eq!(notices[0].lobby_id, lobby_id());
    assert_eq!(notices[1].lobby_id, id_text(&[0xcd; 16]));
    assert!(matches!(
        &notices[1].event,
        LobbyEvent::PlayerData(data) if data.name == "annie" && data.client_connected
    ));
    assert!(lobby(&mgr).players.get(&0).unwrap().client_connected);
    assert!(!lobby(&mgr).players.get(&1).unwrap().client_connected);
    let saturday = mgr.lobbies.get(&id_text(&[0xcd; 16])).unwrap();
    assert!(saturday.players.get(&0).unwrap().client_connected);
    assert_eq!(mgr.set_client_connected(&ANN, false).len(), 2);
    assert!(!lobby(&mgr).players.get(&0).unwrap().client_connected);
    assert!(mgr.set_client_connected(&CID, true).is_empty());
}
