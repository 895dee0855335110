//! What requests are answered, what they change and what is told of them, said of each part of it.

use vstd::prelude::*;

use crate::api::{
    asks_stranger, lobby_full, player_joined, proposal_answered, proposal_drawn, proposal_made,
    proposal_started, LobbyRequestCtx, Reply, StartedMatch,
};
use crate::error::LobbyApiError;
use crate::event::{law_notice_views, notice_views, LobbyEvent, LobbyEventView, NoticeView};
use crate::game_manager::{MatchData, MatchPlayer};
use crate::lobby::{
    AcceptedState, LobbyView, MatchStatus, PlayerData, PlayerTypeView, Proposal, ProposalStatus,
    Timestamp,
};
use crate::lobby_manager::{
    client_notices, is_player, listed, lists_match, new_lobby, players_of, sound, with_clients,
    with_lobby, LobbyManager, LobbyManagerView,
};
use crate::membership::{authenticated, has_room};
use crate::planetwars::MatchConfigView;
use crate::proposal_laws::{
    law_answered, law_answered_proposal, law_match_players, law_new_proposal, law_proposal_params,
    law_start_refused, law_started, same_but_players, same_but_proposals,
};
use crate::proposals::no_strangers;
use crate::text::lowercase;
use crate::token::{hex_text, is_uuid_text};

verus! {

/// The server is the same but for its lobbies, and all lobbies but that under `key` are the same.
pub open spec fn only_lobby_changed(
    before: LobbyManagerView,
    after: LobbyManagerView,
    key: Seq<char>,
) -> bool {
    &&& after.maps == before.maps
    &&& after.websocket_connections == before.websocket_connections
    &&& forall|other: Seq<char>| #[trigger]
        after.lobbies.contains_key(other) == before.lobbies.contains_key(other)
    &&& forall|other: Seq<char>|
        other != key ==> #[trigger] after.lobbies[other] == before.lobbies[other]
}

/// If one lobby alone has changed, every other is as it was.
pub proof fn law_only_lobby_changed(
    before: LobbyManagerView,
    after: LobbyManagerView,
    key: Seq<char>,
    other: Seq<char>,
)
    requires
        only_lobby_changed(before, after, key),
    ensures
        after.maps == before.maps,
        after.websocket_connections == before.websocket_connections,
        after.lobbies.contains_key(other) == before.lobbies.contains_key(other),
        other != key ==> after.lobbies[other] == before.lobbies[other],
{
}

/// A request concerns the lobby whose identifier it gives, in lower case, and comes from the player who goes
/// by the token in its header.
pub proof fn law_request(req: LobbyRequestCtx, mgr: LobbyManagerView)
    ensures
        req.key() == lowercase(req.lobby_id@),
        req.player(mgr) == authenticated(
            mgr.lobbies[lowercase(req.lobby_id@)],
            match req.auth_header {
                Some(text) => Some(text@),
                None => None,
            },
        ),
{
}

/// A new lobby is named and public as was asked for, is known under its drawn identifier, and is empty.
pub proof fn law_lobby_made(name: Seq<char>, public: bool, id: Seq<u8>, lobby_token: Seq<u8>)
    ensures
        ({
            let l = new_lobby(name, public, id, lobby_token);
            &&& l.id == hex_text(id)
            &&& l.name == name
            &&& l.public == public
            &&& l.lobby_token == lobby_token
            &&& l.next_player_id == 0
            &&& forall|player: usize| !#[trigger] l.players.contains_key(player)
            &&& forall|token: Seq<u8>| !#[trigger] l.token_player.contains_key(token)
            &&& forall|key: Seq<char>| !#[trigger] l.proposals.contains_key(key)
            &&& forall|key: Seq<char>| !#[trigger] l.matches.contains_key(key)
        }),
{
}

/// A lobby that is opened is there under its identifier, and nothing else on the server changes.
pub proof fn law_lobby_opened(mgr: LobbyManagerView, lobby: LobbyView)
    ensures
        ({
            let after = with_lobby(mgr, lobby);
            &&& after.lobbies.contains_key(lobby.id)
            &&& after.lobbies[lobby.id] == lobby
            &&& forall|key: Seq<char>|
                key != lobby.id ==> (#[trigger] after.lobbies.contains_key(key)
                    == mgr.lobbies.contains_key(key)) && after.lobbies[key] == mgr.lobbies[key]
            &&& after.maps == mgr.maps
            &&& after.websocket_connections == mgr.websocket_connections
            &&& after.token_player == mgr.token_player
        }),
{
}

/// Whoever asks to join is let in exactly if the lobby is there and the name is free or theirs already.
/// Otherwise nothing changes and nobody is told.
pub proof fn law_join_granted(
    before: LobbyManagerView,
    after: LobbyManagerView,
    key: Seq<char>,
    name: Seq<char>,
    token: Seq<u8>,
    client_connected: bool,
    reply: Reply<PlayerData>,
)
    requires
        player_joined(before, after, key, name, token, client_connected, reply),
    ensures
        ({
            let l = before.lobbies[key];
            let there = before.lobbies.contains_key(key);
            let free = forall|id: usize| #[trigger]
                l.players.contains_key(id) ==> l.players[id].name != name;
            let own = l.token_player.contains_key(token) && l.players[l.token_player[token]].name
                == name;
            &&& reply.result is Ok <==> there && (free || own)
            &&& !there ==> (reply.result matches Err(LobbyApiError::LobbyNotFound))
            &&& there && !free && !own ==> (reply.result matches Err(LobbyApiError::NameTaken))
            &&& reply.result is Err ==> after == before && reply.notices@.len() == 0
        }),
{
}

/// Whoever is let in is told, and the lobby is told, who they now are: their name and number, not yet
/// connected, and with a client if that is there. Of the server only that lobby changes, and the list of who
/// goes by the token, on which the new player then stands.
pub proof fn law_join_done(
    before: LobbyManagerView,
    after: LobbyManagerView,
    key: Seq<char>,
    name: Seq<char>,
    token: Seq<u8>,
    client_connected: bool,
    reply: Reply<PlayerData>,
)
    requires
        player_joined(before, after, key, name, token, client_connected, reply),
        reply.result is Ok,
        has_room(before.lobbies[key], token),
    ensures
        ({
            let data = reply.result->Ok_0;
            let l = after.lobbies[key];
            &&& data.name@ == name
            &&& !data.connected
            &&& data.client_connected == client_connected
            &&& data.id == l.token_player[token]
            &&& before.lobbies[key].token_player.contains_key(token) ==> data.id
                == before.lobbies[key].token_player[token]
            &&& !before.lobbies[key].token_player.contains_key(token) ==> data.id
                == before.lobbies[key].next_player_id && l.next_player_id == data.id + 1
            &&& l.players.contains_key(data.id)
            &&& l.players[data.id].id == data.id
            &&& l.players[data.id].name == name
            &&& l.players[data.id].player_type == (PlayerTypeView::External { token })
            &&& l.players[data.id].connection_count == 0
            &&& l.players[data.id].client_connected == client_connected
            &&& forall|other: usize|
                other != data.id ==> (#[trigger] l.players.contains_key(other)
                    == before.lobbies[key].players.contains_key(other)) && l.players[other]
                    == before.lobbies[key].players[other]
            &&& same_but_players(before.lobbies[key], l)
            &&& only_lobby_changed(before, after, key)
            &&& reply.notices@.len() == 1
            &&& reply.notices@[0].lobby_id@ == key
            &&& reply.notices@[0].event matches LobbyEvent::PlayerData(told) && told.id == data.id
                && told.name@ == name && !told.connected && told.client_connected
                == client_connected
            &&& players_of(after, token).contains((key, data.id))
            &&& forall|other: (Seq<char>, usize)|
                other != (key, data.id) ==> (#[trigger] players_of(after, token).contains(other)
                    <==> players_of(before, token).contains(other))
            &&& forall|other: Seq<u8>|
                other != token ==> #[trigger] players_of(after, other) == players_of(before, other)
        }),
{
    law_notice_views(reply.notices@);
    let notices = notice_views(reply.notices@);
    assert(notices.len() == 1);
    assert(notices[0] == reply.notices@[0]@);
    let id = reply.result->Ok_0.id;
    assert forall|other: (Seq<char>, usize)| #[trigger]
        players_of(after, token).contains(other) <==> players_of(before, token).contains(other)
            || other == (key, id) by {
        law_listed(players_of(before, token), (key, id), other);
    }
}

/// Who is listed is on the list, behind everyone who was on it, and nobody is on it twice.
pub proof fn law_listed(
    players: Seq<(Seq<char>, usize)>,
    player: (Seq<char>, usize),
    other: (Seq<char>, usize),
)
    ensures
        listed(players, player).contains(other) <==> players.contains(other) || other == player,
        players.no_duplicates() ==> listed(players, player).no_duplicates(),
        players.is_prefix_of(listed(players, player)),
{
    let more = players.push(player);
    assert(more[players.len() as int] == player);
    if players.contains(other) {
        let i = choose|i: int| 0 <= i < players.len() && players[i] == other;
        assert(more[i] == other);
    }
    if more.contains(other) {
        let i = choose|i: int| 0 <= i < more.len() && more[i] == other;
        if i < players.len() {
            assert(players[i] == other);
        }
    }
}

/// Why a proposal is refused is what stands in its way: first that the lobby is not there, then what is wrong
/// with the match that is asked for, then that nobody in the lobby asks for it. Then nothing changes and
/// nobody is told.
pub proof fn law_proposal_granted(
    before: LobbyManagerView,
    after: LobbyManagerView,
    req: LobbyRequestCtx,
    config: MatchConfigView,
    players: Seq<usize>,
    proposal_id: Seq<char>,
    reply: Reply<Proposal>,
)
    requires
        proposal_made(before, after, req, config, players, proposal_id, reply),
    ensures
        ({
            let there = before.lobbies.contains_key(req.key());
            let fits = config.max_turns <= 500 && before.maps.contains_key(config.map_name)
                && players.len() <= before.maps[config.map_name].max_players;
            &&& reply.result is Ok <==> there && fits && req.player(before) is Some
            &&& !there ==> (reply.result matches Err(LobbyApiError::LobbyNotFound))
            &&& there && !fits ==> (reply.result matches Err(
                LobbyApiError::InvalidProposalParams(_),
            ))
            &&& there && fits && req.player(before) is None ==> (reply.result matches Err(
                LobbyApiError::NotAuthenticated,
            ))
            &&& reply.result is Err ==> after == before && reply.notices@.len() == 0
        }),
{
    law_proposal_params(before.maps, config, players);
}

/// A proposal that is made is answered, told to the lobby and kept there as it was asked for: its maker's, for
/// that match, and to those players, of whom only the maker and the server's bots have accepted.
pub proof fn law_proposal_done(
    before: LobbyManagerView,
    after: LobbyManagerView,
    req: LobbyRequestCtx,
    config: MatchConfigView,
    players: Seq<usize>,
    proposal_id: Seq<char>,
    reply: Reply<Proposal>,
)
    requires
        proposal_made(before, after, req, config, players, proposal_id, reply),
        reply.result is Ok,
    ensures
        ({
            let proposal = reply.result->Ok_0;
            let l = before.lobbies[req.key()];
            let now = after.lobbies[req.key()];
            &&& proposal.id@ == proposal_id
            &&& Some(proposal.owner_id) == req.player(before)
            &&& proposal.config.map_name@ == config.map_name
            &&& proposal.config.max_turns == config.max_turns
            &&& proposal.status is Pending
            &&& proposal.players@.len() == players.len()
            &&& forall|i: int|
                0 <= i < players.len() ==> {
                    let asked = #[trigger] proposal.players@[i];
                    let bot = l.players[players[i]].player_type is Internal;
                    &&& asked.player_id == players[i]
                    &&& asked.status == AcceptedState::Accepted <==> players[i]
                        == proposal.owner_id || bot
                    &&& asked.status == AcceptedState::Unanswered <==> players[i]
                        != proposal.owner_id && !bot
                }
            &&& now.proposals == l.proposals.insert(proposal_id, proposal@)
            &&& now.matches == l.matches
            &&& same_but_proposals(l, now)
            &&& only_lobby_changed(before, after, req.key())
            &&& after.token_player == before.token_player
            &&& reply.notices@.len() == 1
            &&& reply.notices@[0].lobby_id@ == req.key()
            &&& reply.notices@[0].event matches LobbyEvent::ProposalData(told) && told@ == proposal@
        }),
{
    law_notice_views(reply.notices@);
    let notices = notice_views(reply.notices@);
    assert(notices[0] == reply.notices@[0]@);
    law_new_proposal(
        before.lobbies[req.key()],
        req.player(before)->0,
        config,
        players,
        proposal_id,
    );
}

/// A start is granted exactly to the maker of a proposal that is pending, once all whom it asks have accepted
/// and have a client. Otherwise nothing changes and nobody is told.
pub proof fn law_start_asked<S>(
    before: LobbyManagerView,
    after: LobbyManagerView,
    games_before: Map<Seq<char>, MatchData<S>>,
    games_after: Map<Seq<char>, MatchData<S>>,
    req: LobbyRequestCtx,
    proposal_id: Seq<char>,
    log_stream: S,
    match_id: Seq<char>,
    now: Timestamp,
    reply: Reply<StartedMatch>,
)
    requires
        proposal_started(
            before,
            after,
            games_before,
            games_after,
            req,
            proposal_id,
            log_stream,
            match_id,
            now,
            reply,
        ),
    ensures
        ({
            let there = before.lobbies.contains_key(req.key());
            let l = before.lobbies[req.key()];
            let player = req.player(before);
            let proposal = l.proposals[proposal_id];
            let found = there && player is Some && l.proposals.contains_key(proposal_id);
            let own = found && player->0 == proposal.owner_id;
            let waiting = exists|i: int|
                0 <= i < proposal.players.len() && {
                    let asked = #[trigger] proposal.players[i];
                    asked.status != AcceptedState::Accepted
                        || !l.players[asked.player_id].client_connected
                };
            &&& reply.result is Ok <==> own && proposal.status is Pending && !waiting
            &&& !there ==> (reply.result matches Err(LobbyApiError::LobbyNotFound))
            &&& there && player is None ==> (reply.result matches Err(
                LobbyApiError::NotAuthenticated,
            ))
            &&& there && player is Some && !found ==> (reply.result matches Err(
                LobbyApiError::ProposalNotFound,
            ))
            &&& found && !own ==> (reply.result matches Err(LobbyApiError::NotAuthorized))
            &&& own && proposal.status !is Pending ==> (reply.result matches Err(
                LobbyApiError::ProposalExpired,
            ))
            &&& own && proposal.status is Pending && waiting ==> (reply.result matches Err(
                LobbyApiError::ProposalNotReady,
            ))
            &&& reply.result is Err ==> after == before && games_after == games_before
                && reply.notices@.len() == 0
        }),
{
    law_start_refused(before.lobbies[req.key()], req.player(before), proposal_id);
}

/// A match that is started is the one that was proposed: it is listed in the lobby, told to it, and handed out
/// to be played, with the proposed map, number of turns and players, in the order of the proposal. The
/// proposal is told with the match that came of it. The match can be followed through its log.
pub proof fn law_start_done<S>(
    before: LobbyManagerView,
    after: LobbyManagerView,
    games_before: Map<Seq<char>, MatchData<S>>,
    games_after: Map<Seq<char>, MatchData<S>>,
    req: LobbyRequestCtx,
    proposal_id: Seq<char>,
    log_stream: S,
    match_id: Seq<char>,
    now: Timestamp,
    reply: Reply<StartedMatch>,
)
    requires
        proposal_started(
            before,
            after,
            games_before,
            games_after,
            req,
            proposal_id,
            log_stream,
            match_id,
            now,
            reply,
        ),
        reply.result is Ok,
    ensures
        ({
            let started_match = reply.result->Ok_0;
            let l = before.lobbies[req.key()];
            let proposal = l.proposals[proposal_id];
            let meta = after.lobbies[req.key()].matches[match_id];
            &&& started_match.match_id@ == match_id
            &&& started_match.lobby_id@ == l.id
            &&& started_match.config.map_name@ == proposal.config.map_name
            &&& started_match.config.max_turns == proposal.config.max_turns
            &&& started_match.players@.len() == proposal.players.len()
            &&& forall|i: int|
                0 <= i < proposal.players.len() ==> match l.players[(
                #[trigger] proposal.players[i]).player_id].player_type {
                    PlayerTypeView::External { token } => started_match.players@[i] matches
                        MatchPlayer::External(t) && t@ == token,
                    PlayerTypeView::Internal { bot } => started_match.players@[i] matches
                        MatchPlayer::Internal(b) && b@ == bot,
                }
            &&& started_match.proposal.id@ == proposal.id
            &&& started_match.proposal.owner_id == proposal.owner_id
            &&& started_match.proposal.players@ == proposal.players
            &&& started_match.proposal.config@ == proposal.config
            &&& started_match.proposal.status matches ProposalStatus::Accepted { match_id: id }
                && id@ == match_id
            &&& after.lobbies[req.key()].matches.contains_key(match_id)
            &&& meta.id == match_id
            &&& meta.timestamp == now
            &&& meta.config.map_name == proposal.config.map_name
            &&& meta.config.max_turns == proposal.config.max_turns
            &&& meta.players.len() == proposal.players.len()
            &&& forall|i: int|
                0 <= i < proposal.players.len() ==> #[trigger] meta.players[i]
                    == proposal.players[i].player_id
            &&& meta.status == MatchStatus::Playing
            &&& !after.lobbies[req.key()].proposals.contains_key(proposal.id)
            &&& same_but_proposals(l, after.lobbies[req.key()])
            &&& only_lobby_changed(before, after, req.key())
            &&& after.token_player == before.token_player
            &&& reply.notices@.len() == 2
            &&& reply.notices@[0].lobby_id@ == req.key()
            &&& reply.notices@[0].event matches LobbyEvent::ProposalData(told) && told@
                == started_match.proposal@
            &&& reply.notices@[1].lobby_id@ == req.key()
            &&& reply.notices@[1].event matches LobbyEvent::MatchData(told) && told@ == meta
            &&& games_after.contains_key(match_id)
            &&& games_after[match_id] == (MatchData::InProgress { log_stream })
            &&& forall|key: Seq<char>|
                key != match_id ==> (#[trigger] games_after.contains_key(key)
                    == games_before.contains_key(key)) && games_after[key] == games_before[key]
        }),
{
    law_notice_views(reply.notices@);
    let notices = notice_views(reply.notices@);
    assert(notices.len() == 2);
    assert(notices[0] == reply.notices@[0]@);
    assert(notices[1] == reply.notices@[1]@);
    let l = before.lobbies[req.key()];
    let proposal = l.proposals[proposal_id];
    law_start_asked(
        before,
        after,
        games_before,
        games_after,
        req,
        proposal_id,
        log_stream,
        match_id,
        now,
        reply,
    );
    law_started(l, proposal_id, match_id, now);
    law_match_players(l, proposal);
    let players = reply.result->Ok_0.players@;
    let shown = reply.result->Ok_0@.players;
    assert(shown.len() == players.len());
    assert forall|i: int| 0 <= i < proposal.players.len() implies match l.players[(
    #[trigger] proposal.players[i]).player_id].player_type {
        PlayerTypeView::External { token } => players[i] matches MatchPlayer::External(t) && t@
            == token,
        PlayerTypeView::Internal { bot } => players[i] matches MatchPlayer::Internal(b) && b@ == bot,
    } by {
        assert(shown[i] == players[i]@);
    }
}

/// An answer is taken down exactly if the lobby and the proposal are there and the one who answers is known.
/// The proposal is then answered and told as it stands: with the new answer wherever it asks the one who gave
/// it, all other answers as they were, and denied if someone has said no. It is kept unless it is denied.
pub proof fn law_answer_done(
    before: LobbyManagerView,
    after: LobbyManagerView,
    req: LobbyRequestCtx,
    proposal_id: Seq<char>,
    answer: AcceptedState,
    reply: Reply<Proposal>,
)
    requires
        proposal_answered(before, after, req, proposal_id, answer, reply),
    ensures
        ({
            let there = before.lobbies.contains_key(req.key());
            let l = before.lobbies[req.key()];
            let player = req.player(before);
            let proposal = l.proposals[proposal_id];
            &&& reply.result is Ok <==> there && player is Some && l.proposals.contains_key(
                proposal_id,
            )
            &&& !there ==> (reply.result matches Err(LobbyApiError::LobbyNotFound))
            &&& there && player is None ==> (reply.result matches Err(
                LobbyApiError::NotAuthenticated,
            ))
            &&& there && player is Some && !l.proposals.contains_key(proposal_id)
                ==> (reply.result matches Err(LobbyApiError::ProposalNotFound))
            &&& reply.result is Err ==> after == before && reply.notices@.len() == 0
            &&& reply.result matches Ok(said) ==> {
                let denied = exists|i: int|
                    0 <= i < said.players@.len() && (#[trigger] said.players@[i]).status
                        == AcceptedState::Rejected;
                &&& said.players@.len() == proposal.players.len()
                &&& forall|i: int|
                    0 <= i < proposal.players.len() ==> {
                        let asked = #[trigger] said.players@[i];
                        &&& asked.player_id == proposal.players[i].player_id
                        &&& Some(asked.player_id) == player ==> asked.status == answer
                        &&& Some(asked.player_id) != player ==> asked.status
                            == proposal.players[i].status
                    }
                &&& said.id@ == proposal.id
                &&& said.owner_id == proposal.owner_id
                &&& said.config@ == proposal.config
                &&& denied ==> said.status is Denied
                &&& !denied ==> said.status@ == proposal.status
                &&& said.status !is Denied ==> after.lobbies[req.key()].proposals
                    == l.proposals.insert(proposal_id, said@)
                &&& said.status is Denied ==> !after.lobbies[req.key()].proposals.contains_key(
                    proposal.id,
                )
                &&& after.lobbies[req.key()].matches == l.matches
                &&& same_but_proposals(l, after.lobbies[req.key()])
                &&& only_lobby_changed(before, after, req.key())
                &&& after.token_player == before.token_player
                &&& reply.notices@.len() == 1
                &&& reply.notices@[0].lobby_id@ == req.key()
                &&& reply.notices@[0].event matches LobbyEvent::ProposalData(told) && told@ == said@
            }
        }),
{
    law_notice_views(reply.notices@);
    let notices = notice_views(reply.notices@);
    if reply.result is Ok {
        assert(notices[0] == reply.notices@[0]@);
        let l = before.lobbies[req.key()];
        let player = req.player(before)->0;
        law_answered(l, proposal_id, player, answer);
        law_answered_proposal(l.proposals[proposal_id], player, answer);
    }
}

/// A client that comes or goes is noted for exactly the players who are listed, in whichever lobby, and of
/// them nothing else changes.
pub proof fn law_clients_noted(
    lobbies: Map<Seq<char>, LobbyView>,
    players: Seq<(Seq<char>, usize)>,
    connected: bool,
    key: Seq<char>,
    id: usize,
)
    ensures
        ({
            let after = with_clients(lobbies, players, connected);
            let was = lobbies[key].players[id];
            let is = after[key].players[id];
            &&& after.contains_key(key) == lobbies.contains_key(key)
            &&& lobbies.contains_key(key) ==> {
                &&& after[key].players.contains_key(id) == lobbies[key].players.contains_key(id)
                &&& after[key].token_player == lobbies[key].token_player
                &&& after[key].next_player_id == lobbies[key].next_player_id
                &&& same_but_players(lobbies[key], after[key])
            }
            &&& lobbies.contains_key(key) && lobbies[key].players.contains_key(id) ==> {
                &&& is.id == was.id
                &&& is.name == was.name
                &&& is.player_type == was.player_type
                &&& is.connection_count == was.connection_count
                &&& players.contains((key, id)) ==> is.client_connected == connected
                &&& !players.contains((key, id)) ==> is.client_connected == was.client_connected
            }
        }),
{
}

/// For each who is listed and is a player, in the order of the list, their lobby is told that their client is
/// there or is gone, with who they are and whether they are connected. Nothing else is told.
pub proof fn law_clients_told(
    lobbies: Map<Seq<char>, LobbyView>,
    players: Seq<(Seq<char>, usize)>,
    player: (Seq<char>, usize),
    connected: bool,
)
    ensures
        client_notices(lobbies, Seq::empty(), connected) == Seq::<NoticeView>::empty(),
        ({
            let told = client_notices(lobbies, players, connected);
            let more = client_notices(lobbies, players.push(player), connected);
            let there = lobbies.contains_key(player.0) && lobbies[player.0].players.contains_key(
                player.1,
            );
            let of = lobbies[player.0].players[player.1];
            &&& !there ==> more == told
            &&& there ==> more.len() == told.len() + 1 && told.is_prefix_of(more)
                && more.last().lobby_id == player.0 && (more.last().event matches
                LobbyEventView::PlayerData(data) && data.id == of.id && data.name == of.name && (
            data.connected <==> of.connection_count >= 1) && data.client_connected == connected)
        }),
{
    reveal(Seq::filter);
    let more = players.push(player);
    assert(more.drop_last() =~= players);
    assert(client_notices(lobbies, Seq::empty(), connected) =~= Seq::<NoticeView>::empty());
    let told = client_notices(lobbies, players, connected);
    let all = client_notices(lobbies, more, connected);
    if is_player(lobbies, player) {
        assert(all.drop_last() =~= told);
        assert(told.is_prefix_of(all));
    } else {
        assert(all =~= told);
    }
}

/// A match is listed, and a player is a player, of a lobby that is there and has them.
pub proof fn law_in_lobby(
    mgr: LobbyManagerView,
    lobby_id: Seq<char>,
    match_id: Seq<char>,
    id: usize,
)
    ensures
        lists_match(mgr, lobby_id, match_id) <==> mgr.lobbies.contains_key(lobby_id)
            && mgr.lobbies[lobby_id].matches.contains_key(match_id),
        is_player(mgr.lobbies, (lobby_id, id)) <==> mgr.lobbies.contains_key(lobby_id)
            && mgr.lobbies[lobby_id].players.contains_key(id),
{
}

/// Nobody is kept out for want of a number but who is new, could join otherwise, and finds that the last
/// number was given out.
pub proof fn law_lobby_full(
    mgr: LobbyManagerView,
    key: Seq<char>,
    name: Seq<char>,
    token: Seq<u8>,
)
    ensures
        lobby_full(mgr, key, name, token) <==> {
            &&& mgr.lobbies.contains_key(key)
            &&& mgr.lobbies[key].next_player_id == usize::MAX
            &&& !mgr.lobbies[key].token_player.contains_key(token)
            &&& forall|id: usize| #[trigger]
                mgr.lobbies[key].players.contains_key(id) ==> mgr.lobbies[key].players[id].name
                    != name
        },
{
}

/// A proposal asks a stranger exactly if it could be made otherwise, and one of those whom it asks is not in
/// the lobby.
pub proof fn law_asks_stranger(
    mgr: LobbyManagerView,
    req: LobbyRequestCtx,
    config: MatchConfigView,
    players: Seq<usize>,
)
    ensures
        asks_stranger(mgr, req, config, players) <==> {
            &&& mgr.lobbies.contains_key(req.key())
            &&& config.max_turns <= 500
            &&& mgr.maps.contains_key(config.map_name)
            &&& players.len() <= mgr.maps[config.map_name].max_players
            &&& req.player(mgr) is Some
            &&& exists|i: int|
                0 <= i < players.len() && !mgr.lobbies[req.key()].players.contains_key(
                    #[trigger] players[i],
                )
        },
{
    law_proposal_params(mgr.maps, config, players);
}

/// What comes of a proposal with a drawn identifier is what comes of one with some identifier. If it is
/// granted, that identifier is one that can be drawn.
pub proof fn law_proposal_drawn(
    before: LobbyManagerView,
    after: LobbyManagerView,
    req: LobbyRequestCtx,
    config: MatchConfigView,
    players: Seq<usize>,
    reply: Reply<Proposal>,
)
    requires
        proposal_drawn(before, after, req, config, players, reply),
    ensures
        exists|proposal_id: Seq<char>|
            #[trigger] proposal_made(
                before,
                after,
                req,
                config,
                players,
                proposal_id,
                reply,
            ) && (reply.result is Ok ==> is_uuid_text(proposal_id)),
{
    if reply.result is Ok {
        let proposal_id = choose|proposal_id: Seq<char>| #[trigger]
            is_uuid_text(proposal_id) && proposal_made(
                before,
                after,
                req,
                config,
                players,
                proposal_id,
                reply,
            );
        assert(proposal_made(before, after, req, config, players, proposal_id, reply));
    } else {
        assert(proposal_made(before, after, req, config, players, Seq::empty(), reply));
    }
}

/// Nothing is lost of the server when it is spoken of.
pub proof fn law_manager_view(mgr: LobbyManager)
    ensures
        mgr@.lobbies == mgr.lobbies@,
        mgr@.maps == mgr.maps@,
        mgr@.websocket_connections == mgr.websocket_connections@,
        mgr@.token_player == mgr.token_player@,
{
}

/// A server is sound exactly if each of its lobbies speaks of nobody unknown.
pub proof fn law_sound_lobbies(mgr: LobbyManagerView, key: Seq<char>)
    ensures
        sound(mgr) && mgr.lobbies.contains_key(key) ==> no_strangers(mgr.lobbies[key]),
        (forall|k: Seq<char>| #[trigger] mgr.lobbies.contains_key(k) ==> no_strangers(mgr.lobbies[k]))
            ==> sound(mgr),
{
}

} // verus!
