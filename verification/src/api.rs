//! What can be asked of the server, and what comes of it.

use vstd::prelude::*;

use crate::error::{LobbyApiError, LobbyApiErrorView, LobbyApiResult};
use crate::event::{notice_views, LobbyEvent, LobbyEventView, Notice, NoticeView};
use crate::game_manager::{
    create_match, is_drawn_id, GameManager, MatchData, MatchPlayer, MatchPlayerView,
};
use crate::lobby::{
    current_time, lobby_data, player_data, AcceptedState, LobbyConfig, LobbyData, LobbyView,
    PlayerData, Proposal, ProposalView, PwMapData, Timestamp,
};
use crate::lobby_laws::{
    law_answer, law_authenticated_joined, law_propose, law_start, lemma_answer_no_strangers,
    lemma_join_no_strangers, lemma_propose_no_strangers, lemma_start_no_strangers,
};
use crate::lobby_manager::{
    listed, new_lobby, players_of, sound, with_lobby, LobbyManager, LobbyManagerView, Memberships,
};
use crate::membership::{
    auth_player, authenticated, has_room, header_text, joined, joining_id, joining_player,
    name_available, PlayerParams,
};
use crate::planetwars::{MatchConfig, MatchConfigView};
use crate::proposals::{
    accepted_proposal, all_known, answer_refusal, answered, answered_proposal, match_players,
    new_match, new_proposal, no_strangers, params_refusal, start_refusal, started,
    validate_proposal_params, with_proposal, ProposalParams,
};
use crate::server_laws::{law_change_lobby, law_join_lobby, server_inv};
use crate::table::{lists_values, views, Duplicate};
use crate::text::{lowercase, to_lowercase};
use crate::token::{is_uuid_text, random_uuid, Token};

verus! {

/// A request that concerns one lobby.
#[derive(Debug)]
pub struct LobbyRequestCtx {
    pub lobby_id: String,
    pub auth_header: Option<String>,
}

impl LobbyRequestCtx {
    /// The key of the lobby that is asked for: identifiers are read in lower case.
    pub open spec fn key(self) -> Seq<char> {
        lowercase(self.lobby_id@)
    }

    /// The player who asks, in the lobby that is asked for.
    pub open spec fn player(self, mgr: LobbyManagerView) -> Option<usize> {
        authenticated(mgr.lobbies[self.key()], header_text(self.auth_header))
    }
}

/// What comes of a request: the answer, and what is to be told to those who listen.
#[derive(Debug)]
pub struct Reply<T> {
    pub result: LobbyApiResult<T>,
    pub notices: Vec<Notice>,
}

/// The request was refused, and nobody is told of it.
pub open spec fn refused<T>(reply: Reply<T>, refusal: LobbyApiErrorView) -> bool {
    &&& reply.result is Err
    &&& reply.result->Err_0@ == refusal
    &&& reply.notices@.len() == 0
}

/// The request was granted.
pub open spec fn granted<T: View>(reply: Reply<T>, value: T::V, notices: Seq<NoticeView>) -> bool {
    &&& reply.result is Ok
    &&& reply.result->Ok_0@ == value
    &&& notice_views(reply.notices@) == notices
}

fn refuse<T>(err: LobbyApiError) -> (reply: Reply<T>)
    ensures
        refused(reply, err@),
{
    Reply { result: Err(err), notices: Vec::new() }
}

/// The answer `value`, with one notice to the lobby under `key`.
fn grant<T: View>(value: T, key: String, event: LobbyEvent) -> (reply: Reply<T>)
    ensures
        granted(reply, value@, seq![NoticeView { lobby_id: key@, event: event@ }]),
{
    let ghost notice = NoticeView { lobby_id: key@, event: event@ };
    let mut notices: Vec<Notice> = Vec::new();
    notices.push(Notice { lobby_id: key, event });
    assert(notice_views(notices@) =~= seq![notice]);
    Reply { result: Ok(value), notices }
}

/// The server with `lobby` in place of the lobby under `key`.
pub open spec fn with_changed(
    mgr: LobbyManagerView,
    key: Seq<char>,
    lobby: LobbyView,
) -> LobbyManagerView {
    LobbyManagerView { lobbies: mgr.lobbies.insert(key, lobby), ..mgr }
}

/// Opens a lobby.
pub fn create_lobby(mgr: &mut LobbyManager, lobby_config: LobbyConfig) -> (data: LobbyData)
    ensures
        exists|id: [u8; 16], lobby_token: Token|
            {
                let lobby = #[trigger] new_lobby(
                    lobby_config.name@,
                    lobby_config.public,
                    id@,
                    lobby_token@,
                );
                data@ == lobby_data(lobby) && final(mgr)@ == with_lobby(old(mgr)@, lobby)
            },
        sound(old(mgr)@) ==> sound(final(mgr)@),
        server_inv(old(mgr)@) && !old(mgr)@.lobbies.contains_key(data@.id) ==> server_inv(final(mgr)@),
{
    let lobby = mgr.create_lobby(lobby_config);
    LobbyData::from(lobby)
}

/// Shows a lobby.
pub fn get_lobby_by_id(mgr: &LobbyManager, req: &LobbyRequestCtx) -> (res: LobbyApiResult<LobbyData>)
    ensures
        if mgr@.lobbies.contains_key(req.key()) {
            res is Ok && res->Ok_0@ == lobby_data(mgr@.lobbies[req.key()])
        } else {
            res == LobbyApiResult::<LobbyData>::Err(LobbyApiError::LobbyNotFound)
        },
{
    match mgr.lobbies.get(&to_lowercase(req.lobby_id.as_str())) {
        Some(lobby) => Ok(LobbyData::from(lobby.duplicate())),
        None => Err(LobbyApiError::LobbyNotFound),
    }
}

/// Why a player may not join, if that is so.
pub open spec fn join_refusal(
    mgr: LobbyManagerView,
    key: Seq<char>,
    name: Seq<char>,
    token: Seq<u8>,
) -> Option<LobbyApiErrorView> {
    if !mgr.lobbies.contains_key(key) {
        Some(LobbyApiErrorView::LobbyNotFound)
    } else if !name_available(mgr.lobbies[key], token, name) {
        Some(LobbyApiErrorView::NameTaken)
    } else {
        None
    }
}

/// The server once a player has joined the lobby under `key`.
pub open spec fn after_join(
    mgr: LobbyManagerView,
    key: Seq<char>,
    name: Seq<char>,
    token: Seq<u8>,
    client_connected: bool,
) -> LobbyManagerView {
    let l = mgr.lobbies[key];
    LobbyManagerView {
        lobbies: mgr.lobbies.insert(key, joined(l, name, token, client_connected)),
        token_player: mgr.token_player.insert(
            token,
            listed(players_of(mgr, token), (key, joining_id(l, token))),
        ),
        ..mgr
    }
}

/// What comes of asking to join the lobby under `key`.
pub open spec fn player_joined(
    before: LobbyManagerView,
    after: LobbyManagerView,
    key: Seq<char>,
    name: Seq<char>,
    token: Seq<u8>,
    client_connected: bool,
    reply: Reply<PlayerData>,
) -> bool {
    match join_refusal(before, key, name, token) {
        Some(refusal) => refused(reply, refusal) && after == before,
        None => {
            let data = player_data(
                joining_player(before.lobbies[key], name, token, client_connected),
            );
            &&& granted(
                reply,
                data,
                seq![NoticeView { lobby_id: key, event: LobbyEventView::PlayerData(data) }],
            )
            &&& after == after_join(before, key, name, token, client_connected)
        },
    }
}

/// Lets a player into a lobby. `client_connected` says whether the player's client is there.
pub fn join_lobby(
    mgr: &mut LobbyManager,
    req: &LobbyRequestCtx,
    player_params: PlayerParams,
    client_connected: bool,
) -> (reply: Reply<PlayerData>)
    requires
        sound(old(mgr)@),
        join_refusal(old(mgr)@, req.key(), player_params.name@, player_params.token@) is None
            ==> has_room(old(mgr)@.lobbies[req.key()], player_params.token@),
    ensures
        player_joined(
            old(mgr)@,
            final(mgr)@,
            req.key(),
            player_params.name@,
            player_params.token@,
            client_connected,
            reply,
        ),
        sound(final(mgr)@),
        server_inv(old(mgr)@) ==> server_inv(final(mgr)@),
{
    let ghost before = mgr@;
    let ghost name_view = player_params.name@;
    let key = to_lowercase(req.lobby_id.as_str());
    let token = player_params.token;
    let mut lobby = match mgr.lobbies.remove(&key) {
        Some(lobby) => lobby,
        None => {
            assert(before.lobbies.remove(key@) =~= before.lobbies);
            return refuse(LobbyApiError::LobbyNotFound);
        },
    };
    let res = lobby.join(player_params, client_connected);
    proof {
        assert(before.lobbies.remove(key@).insert(key@, lobby@) =~= before.lobbies.insert(
            key@,
            lobby@,
        ));
        if res is Err {
            assert(before.lobbies.insert(key@, lobby@) =~= before.lobbies);
        }
    }
    mgr.lobbies.insert(key.clone(), lobby);
    match res {
        Ok(data) => {
            let mut memberships = match mgr.token_player.remove(&token) {
                Some(memberships) => memberships,
                None => Memberships::new(),
            };
            memberships.insert(key.clone(), data.id);
            proof {
                let list = memberships@;
                assert(before.token_player.remove(token@).insert(token@, list)
                    =~= before.token_player.insert(token@, list));
            }
            mgr.token_player.insert(token, memberships);
            proof {
                lemma_join_no_strangers(
                    before.lobbies[key@],
                    name_view,
                    token@,
                    client_connected,
                );
                if server_inv(before) {
                    law_join_lobby(before, key@, name_view, token@, client_connected);
                }
            }
            let event = LobbyEvent::PlayerData(data.duplicate());
            grant(data, key, event)
        },
        Err(err) => refuse(err),
    }
}

/// A player may join the lobby under `key`, but no number is left for them.
pub open spec fn lobby_full(
    mgr: LobbyManagerView,
    key: Seq<char>,
    name: Seq<char>,
    token: Seq<u8>,
) -> bool {
    join_refusal(mgr, key, name, token) is None && !has_room(mgr.lobbies[key], token)
}

/// Lets a player into a lobby, unless no number is left for them.
pub fn try_join_lobby(
    mgr: &mut LobbyManager,
    req: &LobbyRequestCtx,
    player_params: PlayerParams,
    client_connected: bool,
) -> (reply: Option<Reply<PlayerData>>)
    requires
        sound(old(mgr)@),
    ensures
        match reply {
            Some(reply) => {
                &&& !lobby_full(old(mgr)@, req.key(), player_params.name@, player_params.token@)
                &&& player_joined(
                    old(mgr)@,
                    final(mgr)@,
                    req.key(),
                    player_params.name@,
                    player_params.token@,
                    client_connected,
                    reply,
                )
            },
            None => {
                &&& lobby_full(old(mgr)@, req.key(), player_params.name@, player_params.token@)
                &&& final(mgr)@ == old(mgr)@
            },
        },
        sound(final(mgr)@),
        server_inv(old(mgr)@) ==> server_inv(final(mgr)@),
{
    let key = to_lowercase(req.lobby_id.as_str());
    let full = match mgr.lobbies.get(&key) {
        Some(lobby) => {
            assert(no_strangers(mgr@.lobbies[key@]));
            !lobby.has_room_for(&player_params.token) && lobby.is_name_available(
                &player_params.token,
                &player_params.name,
            )
        },
        None => false,
    };
    if full {
        None
    } else {
        Some(join_lobby(mgr, req, player_params, client_connected))
    }
}

/// Why a player may not propose a match, if that is so.
pub open spec fn proposal_refusal(
    mgr: LobbyManagerView,
    req: LobbyRequestCtx,
    config: MatchConfigView,
    players: Seq<usize>,
) -> Option<LobbyApiErrorView> {
    if !mgr.lobbies.contains_key(req.key()) {
        Some(LobbyApiErrorView::LobbyNotFound)
    } else if params_refusal(mgr.maps, config, players) is Some {
        params_refusal(mgr.maps, config, players)
    } else if req.player(mgr) is None {
        Some(LobbyApiErrorView::NotAuthenticated)
    } else {
        None
    }
}

/// What comes of proposing a match under `proposal_id`.
pub open spec fn proposal_made(
    before: LobbyManagerView,
    after: LobbyManagerView,
    req: LobbyRequestCtx,
    config: MatchConfigView,
    players: Seq<usize>,
    proposal_id: Seq<char>,
    reply: Reply<Proposal>,
) -> bool {
    match proposal_refusal(before, req, config, players) {
        Some(refusal) => refused(reply, refusal) && after == before,
        None => {
            let l = before.lobbies[req.key()];
            let proposal = new_proposal(l, req.player(before)->0, config, players, proposal_id);
            &&& granted(
                reply,
                proposal,
                seq![
                    NoticeView {
                        lobby_id: req.key(),
                        event: LobbyEventView::ProposalData(proposal),
                    },
                ],
            )
            &&& after == with_changed(before, req.key(), with_proposal(l, proposal))
        },
    }
}

/// The player who may propose a match, or why none may.
fn check_proposal(
    mgr: &LobbyManager,
    req: &LobbyRequestCtx,
    params: &ProposalParams,
) -> (res: LobbyApiResult<usize>)
    ensures
        match proposal_refusal(mgr@, *req, params.config@, params.players@) {
            Some(refusal) => res is Err && res->Err_0@ == refusal,
            None => res is Ok && Some(res->Ok_0) == req.player(mgr@),
        },
{
    let lobby = match mgr.lobbies.get(&to_lowercase(req.lobby_id.as_str())) {
        Some(lobby) => lobby,
        None => return Err(LobbyApiError::LobbyNotFound),
    };
    match validate_proposal_params(&mgr.maps, params) {
        Ok(()) => (),
        Err(err) => return Err(err),
    }
    match auth_player(&req.auth_header, lobby) {
        Some(id) => Ok(id),
        None => Err(LobbyApiError::NotAuthenticated),
    }
}

/// Opens a proposal that `creator_id` may make.
fn open_proposal(
    mgr: &mut LobbyManager,
    req: &LobbyRequestCtx,
    creator_id: usize,
    params: ProposalParams,
    proposal_id: String,
) -> (reply: Reply<Proposal>)
    requires
        proposal_refusal(old(mgr)@, *req, params.config@, params.players@) is None,
        req.player(old(mgr)@) == Some(creator_id),
        all_known(old(mgr)@.lobbies[req.key()], params.players@),
    ensures
        proposal_made(
            old(mgr)@,
            final(mgr)@,
            *req,
            params.config@,
            params.players@,
            proposal_id@,
            reply,
        ),
        sound(old(mgr)@) ==> sound(final(mgr)@),
        server_inv(old(mgr)@) ==> server_inv(final(mgr)@),
{
    let ghost before = mgr@;
    let ghost config_view = params.config@;
    let ghost players_view = params.players@;
    let ghost id_view = proposal_id@;
    let key = to_lowercase(req.lobby_id.as_str());
    let mut lobby = mgr.lobbies.remove(&key).unwrap();
    let proposal = lobby.add_proposal(creator_id, params, proposal_id);
    proof {
        let l = before.lobbies[key@];
        if sound(before) {
            lemma_propose_no_strangers(l, creator_id, config_view, players_view, id_view);
        }
        if server_inv(before) {
            law_authenticated_joined(l, header_text(req.auth_header));
            law_propose(l, creator_id, config_view, players_view, id_view);
            law_change_lobby(before, key@, lobby@);
        }
        assert(before.lobbies.remove(key@).insert(key@, lobby@) =~= before.lobbies.insert(
            key@,
            lobby@,
        ));
    }
    mgr.lobbies.insert(key.clone(), lobby);
    let event = LobbyEvent::ProposalData(proposal.duplicate());
    grant(proposal, key, event)
}

/// Proposes a match, under an identifier that was drawn for it.
pub fn create_proposal_with_id(
    mgr: &mut LobbyManager,
    req: &LobbyRequestCtx,
    params: ProposalParams,
    proposal_id: String,
) -> (reply: Reply<Proposal>)
    requires
        proposal_refusal(old(mgr)@, *req, params.config@, params.players@) is None ==> all_known(
            old(mgr)@.lobbies[req.key()],
            params.players@,
        ),
    ensures
        proposal_made(
            old(mgr)@,
            final(mgr)@,
            *req,
            params.config@,
            params.players@,
            proposal_id@,
            reply,
        ),
        sound(old(mgr)@) ==> sound(final(mgr)@),
        server_inv(old(mgr)@) ==> server_inv(final(mgr)@),
{
    match check_proposal(mgr, req, &params) {
        Ok(creator_id) => open_proposal(mgr, req, creator_id, params, proposal_id),
        Err(err) => refuse(err),
    }
}

/// What comes of proposing a match under an identifier that is drawn at random. Nothing is drawn for a
/// proposal that is refused.
pub open spec fn proposal_drawn(
    before: LobbyManagerView,
    after: LobbyManagerView,
    req: LobbyRequestCtx,
    config: MatchConfigView,
    players: Seq<usize>,
    reply: Reply<Proposal>,
) -> bool {
    match proposal_refusal(before, req, config, players) {
        Some(refusal) => refused(reply, refusal) && after == before,
        None => exists|proposal_id: Seq<char>| #[trigger]
            is_uuid_text(proposal_id) && proposal_made(
                before,
                after,
                req,
                config,
                players,
                proposal_id,
                reply,
            ),
    }
}

/// Proposes a match, under an identifier that is drawn at random.
pub fn create_proposal(mgr: &mut LobbyManager, req: &LobbyRequestCtx, params: ProposalParams) -> (reply:
    Reply<Proposal>)
    requires
        proposal_refusal(old(mgr)@, *req, params.config@, params.players@) is None ==> all_known(
            old(mgr)@.lobbies[req.key()],
            params.players@,
        ),
    ensures
        proposal_drawn(
            old(mgr)@,
            final(mgr)@,
            *req,
            params.config@,
            params.players@,
            reply,
        ),
        sound(old(mgr)@) ==> sound(final(mgr)@),
        server_inv(old(mgr)@) ==> server_inv(final(mgr)@),
{
    match check_proposal(mgr, req, &params) {
        Ok(creator_id) => {
            let proposal_id = random_uuid();
            assert(is_uuid_text(proposal_id@));
            open_proposal(mgr, req, creator_id, params, proposal_id)
        },
        Err(err) => refuse(err),
    }
}

/// A player may propose a match, but asks someone who is not in the lobby.
pub open spec fn asks_stranger(
    mgr: LobbyManagerView,
    req: LobbyRequestCtx,
    config: MatchConfigView,
    players: Seq<usize>,
) -> bool {
    proposal_refusal(mgr, req, config, players) is None && !all_known(
        mgr.lobbies[req.key()],
        players,
    )
}

/// Proposes a match under an identifier that is drawn at random, unless someone is asked who is not
/// in the lobby.
pub fn try_create_proposal(
    mgr: &mut LobbyManager,
    req: &LobbyRequestCtx,
    params: ProposalParams,
) -> (reply: Option<Reply<Proposal>>)
    ensures
        match reply {
            Some(reply) => {
                &&& !asks_stranger(old(mgr)@, *req, params.config@, params.players@)
                &&& proposal_drawn(
                    old(mgr)@,
                    final(mgr)@,
                    *req,
                    params.config@,
                    params.players@,
                    reply,
                )
            },
            None => {
                &&& asks_stranger(old(mgr)@, *req, params.config@, params.players@)
                &&& final(mgr)@ == old(mgr)@
            },
        },
        sound(old(mgr)@) ==> sound(final(mgr)@),
        server_inv(old(mgr)@) ==> server_inv(final(mgr)@),
{
    let key = to_lowercase(req.lobby_id.as_str());
    let stranger = match mgr.lobbies.get(&key) {
        Some(lobby) => check_proposal(mgr, req, &params).is_ok() && !lobby.knows_all(
            &params.players,
        ),
        None => false,
    };
    if stranger {
        None
    } else {
        Some(create_proposal(mgr, req, params))
    }
}

/// A match that is to be played now.
#[derive(Debug)]
pub struct StartedMatch {
    /// The proposal that the match comes from.
    pub proposal: Proposal,
    pub match_id: String,
    pub players: Vec<MatchPlayer>,
    pub config: MatchConfig,
    /// The lobby that is to hear of the match's end.
    pub lobby_id: String,
}

pub struct StartedMatchView {
    pub proposal: ProposalView,
    pub match_id: Seq<char>,
    pub players: Seq<MatchPlayerView>,
    pub config: MatchConfigView,
    pub lobby_id: Seq<char>,
}

impl View for StartedMatch {
    type V = StartedMatchView;

    open spec fn view(&self) -> StartedMatchView {
        StartedMatchView {
            proposal: self.proposal@,
            match_id: self.match_id@,
            players: self.players@.map_values(|p: MatchPlayer| p@),
            config: self.config@,
            lobby_id: self.lobby_id@,
        }
    }
}

/// Why a proposal may not be started, if that is so.
pub open spec fn starting_refusal(
    mgr: LobbyManagerView,
    req: LobbyRequestCtx,
    proposal_id: Seq<char>,
) -> Option<LobbyApiErrorView> {
    if !mgr.lobbies.contains_key(req.key()) {
        Some(LobbyApiErrorView::LobbyNotFound)
    } else {
        start_refusal(mgr.lobbies[req.key()], req.player(mgr), proposal_id)
    }
}

/// What comes of starting a proposal that may be started: the match is known under `match_id`, and began
/// at `now`.
pub open spec fn start_recorded(
    before: LobbyManagerView,
    after: LobbyManagerView,
    req: LobbyRequestCtx,
    proposal_id: Seq<char>,
    match_id: Seq<char>,
    now: Timestamp,
    reply: Reply<StartedMatch>,
) -> bool {
    let l = before.lobbies[req.key()];
    let proposal = l.proposals[proposal_id];
    &&& granted(
        reply,
        StartedMatchView {
            proposal: accepted_proposal(proposal, match_id),
            match_id,
            players: match_players(l, proposal),
            config: proposal.config,
            lobby_id: l.id,
        },
        seq![
            NoticeView {
                lobby_id: req.key(),
                event: LobbyEventView::ProposalData(accepted_proposal(proposal, match_id)),
            },
            NoticeView {
                lobby_id: req.key(),
                event: LobbyEventView::MatchData(new_match(proposal, match_id, now)),
            },
        ],
    )
    &&& after == with_changed(before, req.key(), started(l, proposal_id, match_id, now))
}

/// What comes of starting a proposal: the match is known under `match_id`, and began at `now`.
pub open spec fn proposal_started<S>(
    before: LobbyManagerView,
    after: LobbyManagerView,
    games_before: Map<Seq<char>, MatchData<S>>,
    games_after: Map<Seq<char>, MatchData<S>>,
    req: LobbyRequestCtx,
    proposal_id: Seq<char>,
    log_stream: S,
    match_id: Seq<char>,
    now: Timestamp,
    reply: Reply<StartedMatch>,
) -> bool {
    match starting_refusal(before, req, proposal_id) {
        Some(refusal) => {
            &&& refused(reply, refusal)
            &&& after == before
            &&& games_after == games_before
        },
        None => {
            &&& start_recorded(before, after, req, proposal_id, match_id, now, reply)
            &&& games_after == games_before.insert(match_id, MatchData::InProgress { log_stream })
        },
    }
}

/// Those who take part in the match of a proposal, or why it may not be started.
fn check_start(mgr: &LobbyManager, req: &LobbyRequestCtx, proposal_id: &String) -> (res: LobbyApiResult<
    Vec<MatchPlayer>,
>)
    requires
        sound(mgr@),
    ensures
        match starting_refusal(mgr@, *req, proposal_id@) {
            Some(refusal) => res is Err && res->Err_0@ == refusal,
            None => res is Ok && res->Ok_0@.map_values(|p: MatchPlayer| p@) == match_players(
                mgr@.lobbies[req.key()],
                mgr@.lobbies[req.key()].proposals[proposal_id@],
            ),
        },
{
    let key = to_lowercase(req.lobby_id.as_str());
    match mgr.lobbies.get(&key) {
        Some(lobby) => {
            assert(no_strangers(mgr@.lobbies[key@]));
            lobby.ready_players(auth_player(&req.auth_header, lobby), proposal_id)
        },
        None => Err(LobbyApiError::LobbyNotFound),
    }
}

/// Records that the match of a proposal, which may be started, is played by `players`.
fn record_start(
    mgr: &mut LobbyManager,
    req: &LobbyRequestCtx,
    proposal_id: String,
    players: Vec<MatchPlayer>,
    match_id: String,
    now: Timestamp,
) -> (reply: Reply<StartedMatch>)
    requires
        sound(old(mgr)@),
        starting_refusal(old(mgr)@, *req, proposal_id@) is None,
        players@.map_values(|p: MatchPlayer| p@) == match_players(
            old(mgr)@.lobbies[req.key()],
            old(mgr)@.lobbies[req.key()].proposals[proposal_id@],
        ),
    ensures
        start_recorded(old(mgr)@, final(mgr)@, *req, proposal_id@, match_id@, now, reply),
        sound(final(mgr)@),
        server_inv(old(mgr)@) ==> server_inv(final(mgr)@),
{
    let ghost before = mgr@;
    let key = to_lowercase(req.lobby_id.as_str());
    let mut lobby = mgr.lobbies.remove(&key).unwrap();
    let (proposal, match_meta) = lobby.start_match(&proposal_id, match_id.clone(), now);
    proof {
        let l = before.lobbies[key@];
        lemma_start_no_strangers(l, proposal_id@, match_id@, now);
        if server_inv(before) {
            law_start(l, proposal_id@, match_id@, now);
            law_change_lobby(before, key@, lobby@);
        }
        assert(before.lobbies.remove(key@).insert(key@, lobby@) =~= before.lobbies.insert(
            key@,
            lobby@,
        ));
    }
    let lobby_id = lobby.id.clone();
    mgr.lobbies.insert(key.clone(), lobby);
    let ghost proposal_view = proposal@;
    let ghost meta_view = match_meta@;
    let mut notices: Vec<Notice> = Vec::new();
    notices.push(
        Notice { lobby_id: key.clone(), event: LobbyEvent::ProposalData(proposal.duplicate()) },
    );
    notices.push(Notice { lobby_id: key, event: LobbyEvent::MatchData(match_meta) });
    assert(notice_views(notices@) =~= seq![
        NoticeView { lobby_id: req.key(), event: LobbyEventView::ProposalData(proposal_view) },
        NoticeView { lobby_id: req.key(), event: LobbyEventView::MatchData(meta_view) },
    ]);
    let config = proposal.config.duplicate();
    Reply { result: Ok(StartedMatch { proposal, match_id, players, config, lobby_id }), notices }
}

/// Starts the match of a proposal, under an identifier that was drawn for it and at the time `now`.
pub fn start_proposal_with_id<S>(
    mgr: &mut LobbyManager,
    game_mgr: &mut GameManager<S>,
    req: &LobbyRequestCtx,
    proposal_id: String,
    log_stream: S,
    match_id: String,
    now: Timestamp,
) -> (reply: Reply<StartedMatch>)
    requires
        sound(old(mgr)@),
    ensures
        proposal_started(
            old(mgr)@,
            final(mgr)@,
            old(game_mgr)@,
            final(game_mgr)@,
            *req,
            proposal_id@,
            log_stream,
            match_id@,
            now,
            reply,
        ),
        sound(final(mgr)@),
        server_inv(old(mgr)@) ==> server_inv(final(mgr)@),
{
    match check_start(mgr, req, &proposal_id) {
        Ok(players) => {
            game_mgr.register_match(match_id.clone(), log_stream);
            record_start(mgr, req, proposal_id, players, match_id, now)
        },
        Err(err) => refuse(err),
    }
}

/// Starts the match of a proposal now, under an identifier that is drawn at random. For a start that is
/// refused nothing is drawn, and the clock is not read.
pub fn start_proposal<S>(
    mgr: &mut LobbyManager,
    game_mgr: &mut GameManager<S>,
    req: &LobbyRequestCtx,
    proposal_id: String,
    log_stream: S,
) -> (reply: Reply<StartedMatch>)
    requires
        sound(old(mgr)@),
    ensures
        match starting_refusal(old(mgr)@, *req, proposal_id@) {
            Some(refusal) => {
                &&& refused(reply, refusal)
                &&& final(mgr)@ == old(mgr)@
                &&& final(game_mgr)@ == old(game_mgr)@
            },
            None => exists|match_id: Seq<char>, now: Timestamp|
                is_drawn_id(match_id) && now.nanos < 1_000_000_000 && #[trigger] proposal_started(
                    old(mgr)@,
                    final(mgr)@,
                    old(game_mgr)@,
                    final(game_mgr)@,
                    *req,
                    proposal_id@,
                    log_stream,
                    match_id,
                    now,
                    reply,
                ),
        },
        sound(final(mgr)@),
        server_inv(old(mgr)@) ==> server_inv(final(mgr)@),
{
    let ghost before = mgr@;
    let ghost games_before = game_mgr@;
    match check_start(mgr, req, &proposal_id) {
        Ok(players) => {
            let match_id = create_match(game_mgr, log_stream);
            let now = current_time();
            let ghost (proposal_view, match_view) = (proposal_id@, match_id@);
            let reply = record_start(mgr, req, proposal_id, players, match_id, now);
            assert(proposal_started(
                before,
                mgr@,
                games_before,
                game_mgr@,
                *req,
                proposal_view,
                log_stream,
                match_view,
                now,
                reply,
            ));
            reply
        },
        Err(err) => refuse(err),
    }
}

/// What a player says to a proposal.
#[derive(Debug, Clone, Copy)]
pub struct AcceptParams {
    pub status: AcceptedState,
}

/// Why a proposal may not be answered, if that is so.
pub open spec fn accept_refusal(
    mgr: LobbyManagerView,
    req: LobbyRequestCtx,
    proposal_id: Seq<char>,
) -> Option<LobbyApiErrorView> {
    if !mgr.lobbies.contains_key(req.key()) {
        Some(LobbyApiErrorView::LobbyNotFound)
    } else {
        answer_refusal(mgr.lobbies[req.key()], req.player(mgr), proposal_id)
    }
}

/// What comes of answering a proposal.
pub open spec fn proposal_answered(
    before: LobbyManagerView,
    after: LobbyManagerView,
    req: LobbyRequestCtx,
    proposal_id: Seq<char>,
    answer: AcceptedState,
    reply: Reply<Proposal>,
) -> bool {
    match accept_refusal(before, req, proposal_id) {
        Some(refusal) => refused(reply, refusal) && after == before,
        None => {
            let l = before.lobbies[req.key()];
            let player = req.player(before)->0;
            let proposal = answered_proposal(l.proposals[proposal_id], player, answer);
            &&& granted(
                reply,
                proposal,
                seq![
                    NoticeView {
                        lobby_id: req.key(),
                        event: LobbyEventView::ProposalData(proposal),
                    },
                ],
            )
            &&& after == with_changed(
                before,
                req.key(),
                answered(l, proposal_id, player, answer),
            )
        },
    }
}

/// Takes down what a player says to a proposal.
pub fn accept_proposal(
    mgr: &mut LobbyManager,
    req: &LobbyRequestCtx,
    proposal_id: String,
    params: AcceptParams,
) -> (reply: Reply<Proposal>)
    ensures
        proposal_answered(old(mgr)@, final(mgr)@, *req, proposal_id@, params.status, reply),
        sound(old(mgr)@) ==> sound(final(mgr)@),
        server_inv(old(mgr)@) ==> server_inv(final(mgr)@),
{
    let ghost before = mgr@;
    let key = to_lowercase(req.lobby_id.as_str());
    let mut lobby = match mgr.lobbies.remove(&key) {
        Some(lobby) => lobby,
        None => {
            assert(before.lobbies.remove(key@) =~= before.lobbies);
            return refuse(LobbyApiError::LobbyNotFound);
        },
    };
    let player = auth_player(&req.auth_header, &lobby);
    let res = lobby.answer_proposal(player, &proposal_id, params.status);
    proof {
        let l = before.lobbies[key@];
        if res is Ok && sound(before) {
            lemma_answer_no_strangers(l, proposal_id@, player->0, params.status);
        }
        if res is Ok && server_inv(before) {
            law_answer(l, proposal_id@, player->0, params.status);
            law_change_lobby(before, key@, lobby@);
        }
        assert(before.lobbies.remove(key@).insert(key@, lobby@) =~= before.lobbies.insert(
            key@,
            lobby@,
        ));
        if res is Err {
            assert(before.lobbies.insert(key@, lobby@) =~= before.lobbies);
        }
    }
    mgr.lobbies.insert(key.clone(), lobby);
    match res {
        Ok(proposal) => {
            let event = LobbyEvent::ProposalData(proposal.duplicate());
            grant(proposal, key, event)
        },
        Err(err) => refuse(err),
    }
}

/// Lists the maps that matches can be played on.
pub fn get_maps(mgr: &LobbyManager) -> (maps: Vec<PwMapData>)
    ensures
        lists_values(mgr@.maps, views(maps@)),
        views(maps@) == mgr.maps.order().map_values(|name: Seq<char>| mgr@.maps[name]),
{
    mgr.maps.values()
}

} // verus!
