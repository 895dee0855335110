//! What becomes of proposals, said of each part of them.

use vstd::prelude::*;

use crate::error::LobbyApiErrorView;
use crate::game_manager::MatchPlayerView;
use crate::lobby::{
    AcceptedState, LobbyView, MatchStatus, PlayerTypeView, ProposalPlayer, ProposalStatusView,
    ProposalView, PwMapDataView, Timestamp,
};
use crate::lobby_manager::{done, with_match_done};
use crate::planetwars::MatchConfigView;
use crate::proposals::{
    accepted_proposal, all_known, answer_refusal, answered, answered_proposal, has_rejection,
    match_players, new_match, new_proposal, no_strangers, params_refusal, player_ready,
    start_refusal, started, with_proposal,
};

verus! {

/// A proposal can be made exactly for at most five hundred turns, on a map that is there, and to no more
/// players than can play on it. If several things are wrong, the turns are spoken of first, then the map.
pub proof fn law_proposal_params(
    maps: Map<Seq<char>, PwMapDataView>,
    config: MatchConfigView,
    players: Seq<usize>,
)
    ensures
        ({
            let refusal = params_refusal(maps, config, players);
            let short = config.max_turns <= 500;
            let there = maps.contains_key(config.map_name);
            let room = players.len() <= maps[config.map_name].max_players;
            &&& refusal is None <==> short && there && room
            &&& !short ==> refusal == Some(
                LobbyApiErrorView::InvalidProposalParams("max allowed turns is 500"@),
            )
            &&& short && !there ==> refusal == Some(
                LobbyApiErrorView::InvalidProposalParams("map does not exist"@),
            )
            &&& short && there && !room ==> refusal == Some(
                LobbyApiErrorView::InvalidProposalParams("too many players"@),
            )
        }),
{
}

/// A new proposal is its maker's, for the match that was asked for, and is pending. It asks the players that
/// were named, in that order. Those who have accepted it are its maker and the server's own bots; everybody
/// else still has to answer.
pub proof fn law_new_proposal(
    l: LobbyView,
    creator: usize,
    config: MatchConfigView,
    players: Seq<usize>,
    proposal_id: Seq<char>,
)
    ensures
        ({
            let proposal = new_proposal(l, creator, config, players, proposal_id);
            &&& proposal.id == proposal_id
            &&& proposal.owner_id == creator
            &&& proposal.config.map_name == config.map_name
            &&& proposal.config.max_turns == config.max_turns
            &&& proposal.status is Pending
            &&& proposal.players.len() == players.len()
            &&& forall|i: int|
                0 <= i < players.len() ==> {
                    let asked = #[trigger] proposal.players[i];
                    let bot = l.players[players[i]].player_type is Internal;
                    &&& asked.player_id == players[i]
                    &&& asked.status == AcceptedState::Accepted <==> players[i] == creator || bot
                    &&& asked.status == AcceptedState::Unanswered <==> players[i] != creator && !bot
                }
        }),
{
}

/// Nobody who plays for themselves, but for the maker, has accepted a new proposal. So one that asks such a
/// player cannot be started before they have answered.
pub proof fn law_unanswered_cannot_start(
    l: LobbyView,
    creator: usize,
    config: MatchConfigView,
    players: Seq<usize>,
    proposal_id: Seq<char>,
    i: int,
)
    requires
        0 <= i < players.len(),
        players[i] != creator,
        l.players[players[i]].player_type is External,
    ensures
        ({
            let proposal = new_proposal(l, creator, config, players, proposal_id);
            start_refusal(with_proposal(l, proposal), Some(creator), proposal_id) == Some(
                LobbyApiErrorView::ProposalNotReady,
            )
        }),
{
    let proposal = new_proposal(l, creator, config, players, proposal_id);
    law_start_refused(with_proposal(l, proposal), Some(creator), proposal_id);
    assert(proposal.players[i].status == AcceptedState::Unanswered);
}

/// A lobby with a proposal has that proposal, under its identifier, and everything else that it had.
pub proof fn law_proposal_opened(l: LobbyView, proposal: ProposalView)
    ensures
        ({
            let after = with_proposal(l, proposal);
            &&& after.proposals.contains_key(proposal.id)
            &&& after.proposals[proposal.id] == proposal
            &&& forall|key: Seq<char>|
                key != proposal.id ==> (#[trigger] after.proposals.contains_key(key)
                    == l.proposals.contains_key(key)) && after.proposals[key] == l.proposals[key]
            &&& same_but_proposals(l, after)
            &&& after.matches == l.matches
        }),
{
}

/// The lobby is the same but for its proposals and matches.
pub open spec fn same_but_proposals(before: LobbyView, after: LobbyView) -> bool {
    &&& after.id == before.id
    &&& after.name == before.name
    &&& after.public == before.public
    &&& after.next_player_id == before.next_player_id
    &&& after.token_player == before.token_player
    &&& after.players == before.players
    &&& after.lobby_token == before.lobby_token
}

/// The lobby is the same but for its players and how they are known.
pub open spec fn same_but_players(before: LobbyView, after: LobbyView) -> bool {
    &&& after.id == before.id
    &&& after.name == before.name
    &&& after.public == before.public
    &&& after.proposals == before.proposals
    &&& after.matches == before.matches
    &&& after.lobby_token == before.lobby_token
}

/// Two lobbies that are the same but for their players agree in all else.
pub proof fn law_same_but_players(before: LobbyView, after: LobbyView)
    requires
        same_but_players(before, after),
    ensures
        after == (LobbyView {
            players: after.players,
            token_player: after.token_player,
            next_player_id: after.next_player_id,
            ..before
        }),
{
}

/// Two lobbies that are the same but for proposals and matches agree in all else.
pub proof fn law_same_but_proposals(before: LobbyView, after: LobbyView)
    requires
        same_but_proposals(before, after),
    ensures
        after == (LobbyView { proposals: after.proposals, matches: after.matches, ..before }),
{
}

/// Why a proposal may not be started is what stands in the way: each reason is given exactly where nothing
/// that is checked earlier stands in the way.
pub proof fn law_start_refused(l: LobbyView, player: Option<usize>, proposal_id: Seq<char>)
    ensures
        ({
            let refusal = start_refusal(l, player, proposal_id);
            let proposal = l.proposals[proposal_id];
            let found = player is Some && l.proposals.contains_key(proposal_id);
            let own = found && player->0 == proposal.owner_id;
            let waiting = exists|i: int|
                0 <= i < proposal.players.len() && {
                    let asked = #[trigger] proposal.players[i];
                    asked.status != AcceptedState::Accepted
                        || !l.players[asked.player_id].client_connected
                };
            &&& refusal == Some(LobbyApiErrorView::NotAuthenticated) <==> player is None
            &&& refusal == Some(LobbyApiErrorView::ProposalNotFound) <==> player is Some
                && !l.proposals.contains_key(proposal_id)
            &&& refusal == Some(LobbyApiErrorView::NotAuthorized) <==> found && !own
            &&& refusal == Some(LobbyApiErrorView::ProposalExpired) <==> own && proposal.status !is
                Pending
            &&& refusal == Some(LobbyApiErrorView::ProposalNotReady) <==> own && proposal.status is
                Pending && waiting
            &&& refusal is None <==> own && proposal.status is Pending && !waiting
        }),
{
    if l.proposals.contains_key(proposal_id) {
        let proposal = l.proposals[proposal_id];
        assert forall|i: int| 0 <= i < proposal.players.len() implies player_ready(
            l,
            #[trigger] proposal.players[i],
        ) == (proposal.players[i].status == AcceptedState::Accepted
            && l.players[proposal.players[i].player_id].client_connected) by {}
    }
}

/// Those who take part in a match are those whom the proposal asks, in its order: who plays for themselves
/// by their own token, and a bot of the server by its own name.
pub proof fn law_match_players(l: LobbyView, proposal: ProposalView)
    ensures
        match_players(l, proposal).len() == proposal.players.len(),
        forall|i: int|
            0 <= i < proposal.players.len() ==> match l.players[(
            #[trigger] proposal.players[i]).player_id].player_type {
                PlayerTypeView::External { token } => match_players(l, proposal)[i]
                    == MatchPlayerView::External(token),
                PlayerTypeView::Internal { bot } => match_players(l, proposal)[i]
                    == MatchPlayerView::Internal(bot),
            },
{
}

/// A match that starts is the one that was proposed: on the proposed map, for the proposed number of turns,
/// and between those whom the proposal asks, in its order. It is known under the identifier that was drawn
/// for it, began when it began, and is being played.
pub proof fn law_match_as_proposed(proposal: ProposalView, match_id: Seq<char>, now: Timestamp)
    ensures
        ({
            let meta = new_match(proposal, match_id, now);
            &&& meta.id == match_id
            &&& meta.timestamp == now
            &&& meta.config.map_name == proposal.config.map_name
            &&& meta.config.max_turns == proposal.config.max_turns
            &&& meta.players.len() == proposal.players.len()
            &&& forall|i: int|
                0 <= i < proposal.players.len() ==> #[trigger] meta.players[i]
                    == proposal.players[i].player_id
            &&& meta.status == MatchStatus::Playing
        }),
{
}

/// A proposal whose match has started is the same proposal, and names its match.
pub proof fn law_accepted_proposal(proposal: ProposalView, match_id: Seq<char>)
    ensures
        ({
            let accepted = accepted_proposal(proposal, match_id);
            &&& accepted.status == (ProposalStatusView::Accepted { match_id })
            &&& accepted.id == proposal.id
            &&& accepted.owner_id == proposal.owner_id
            &&& accepted.config.map_name == proposal.config.map_name
            &&& accepted.config.max_turns == proposal.config.max_turns
            &&& accepted.players == proposal.players
        }),
{
}

/// A lobby in which a match was started lists that match as it was proposed, and no longer has the
/// proposal. All other matches and proposals, and everything else, stay as they were.
pub proof fn law_started(l: LobbyView, proposal_id: Seq<char>, match_id: Seq<char>, now: Timestamp)
    requires
        l.proposals.contains_key(proposal_id),
    ensures
        ({
            let proposal = l.proposals[proposal_id];
            let after = started(l, proposal_id, match_id, now);
            let meta = after.matches[match_id];
            &&& after.matches.contains_key(match_id)
            &&& meta.id == match_id
            &&& meta.timestamp == now
            &&& meta.config.map_name == proposal.config.map_name
            &&& meta.config.max_turns == proposal.config.max_turns
            &&& meta.players.len() == proposal.players.len()
            &&& forall|i: int|
                0 <= i < proposal.players.len() ==> #[trigger] meta.players[i]
                    == proposal.players[i].player_id
            &&& meta.status == MatchStatus::Playing
            &&& forall|key: Seq<char>|
                key != match_id ==> (#[trigger] after.matches.contains_key(key)
                    == l.matches.contains_key(key)) && after.matches[key] == l.matches[key]
            &&& !after.proposals.contains_key(proposal.id)
            &&& forall|key: Seq<char>|
                key != proposal_id && key != proposal.id ==> (#[trigger]
                after.proposals.contains_key(key) == l.proposals.contains_key(key))
                    && after.proposals[key] == l.proposals[key]
            &&& same_but_proposals(l, after)
        }),
{
}

/// A match that is over is listed as it was, but as over. All else in the lobby stays as it was.
pub proof fn law_match_over(l: LobbyView, match_id: Seq<char>)
    requires
        l.matches.contains_key(match_id),
    ensures
        ({
            let after = with_match_done(l, match_id);
            let before = l.matches[match_id];
            let meta = after.matches[match_id];
            &&& after.matches.contains_key(match_id)
            &&& meta.status == MatchStatus::Done
            &&& meta.id == before.id
            &&& meta.timestamp == before.timestamp
            &&& meta.config == before.config
            &&& meta.players == before.players
            &&& meta == done(before)
            &&& forall|key: Seq<char>|
                key != match_id ==> (#[trigger] after.matches.contains_key(key)
                    == l.matches.contains_key(key)) && after.matches[key] == l.matches[key]
            &&& after.proposals == l.proposals
            &&& same_but_proposals(l, after)
        }),
{
}

/// An answer is refused to who is not known, and to a proposal that is not there, and to nobody else.
pub proof fn law_answer_refused(l: LobbyView, player: Option<usize>, proposal_id: Seq<char>)
    ensures
        ({
            let refusal = answer_refusal(l, player, proposal_id);
            &&& refusal == Some(LobbyApiErrorView::NotAuthenticated) <==> player is None
            &&& refusal == Some(LobbyApiErrorView::ProposalNotFound) <==> player is Some
                && !l.proposals.contains_key(proposal_id)
            &&& refusal is None <==> player is Some && l.proposals.contains_key(proposal_id)
        }),
{
}

/// An answer changes what the one who gives it has said, wherever the proposal asks them, and what nobody
/// else has said. The proposal is denied if someone has then said no, and otherwise stands as it stood.
pub proof fn law_answered_proposal(proposal: ProposalView, player: usize, answer: AcceptedState)
    ensures
        ({
            let after = answered_proposal(proposal, player, answer);
            let denied = exists|i: int|
                0 <= i < after.players.len() && (#[trigger] after.players[i]).status
                    == AcceptedState::Rejected;
            &&& after.players.len() == proposal.players.len()
            &&& forall|i: int|
                0 <= i < proposal.players.len() ==> {
                    let asked = #[trigger] after.players[i];
                    &&& asked.player_id == proposal.players[i].player_id
                    &&& asked.player_id == player ==> asked.status == answer
                    &&& asked.player_id != player ==> asked.status == proposal.players[i].status
                }
            &&& denied ==> after.status is Denied
            &&& !denied ==> after.status == proposal.status
            &&& after.id == proposal.id
            &&& after.owner_id == proposal.owner_id
            &&& after.config == proposal.config
        }),
{
}

/// A lobby in which a proposal was answered has that proposal as it then stands, or not at all if it is
/// denied. All other proposals, and everything else, stay as they were.
pub proof fn law_answered(
    l: LobbyView,
    proposal_id: Seq<char>,
    player: usize,
    answer: AcceptedState,
)
    requires
        l.proposals.contains_key(proposal_id),
    ensures
        ({
            let proposal = answered_proposal(l.proposals[proposal_id], player, answer);
            let after = answered(l, proposal_id, player, answer);
            let denied = l.proposals[proposal_id].status is Denied || exists|i: int|
                0 <= i < proposal.players.len() && (#[trigger] proposal.players[i]).status
                    == AcceptedState::Rejected;
            &&& !denied ==> after.proposals.contains_key(proposal_id)
                && after.proposals[proposal_id] == proposal
            &&& denied ==> !after.proposals.contains_key(proposal.id)
            &&& forall|key: Seq<char>|
                key != proposal_id && (denied ==> key != proposal.id) ==> (#[trigger]
                after.proposals.contains_key(key) == l.proposals.contains_key(key))
                    && after.proposals[key] == l.proposals[key]
            &&& after.matches == l.matches
            &&& same_but_proposals(l, after)
        }),
{
}

/// Someone has said no exactly if one of those who are asked has.
pub proof fn law_has_rejection(players: Seq<ProposalPlayer>, i: int)
    ensures
        0 <= i < players.len() && players[i].status == AcceptedState::Rejected ==> has_rejection(
            players,
        ),
        (forall|j: int|
            0 <= j < players.len() ==> (#[trigger] players[j]).status != AcceptedState::Rejected)
            ==> !has_rejection(players),
{
}

/// Players are known exactly if each of them is in the lobby.
pub proof fn law_all_known(l: LobbyView, players: Seq<usize>, i: int)
    ensures
        all_known(l, players) && 0 <= i < players.len() ==> l.players.contains_key(players[i]),
        (forall|j: int| 0 <= j < players.len() ==> l.players.contains_key(#[trigger] players[j]))
            ==> all_known(l, players),
{
}

/// In a lobby that speaks of nobody unknown, whoever goes by a token, and whoever a proposal asks, is one of
/// its players.
pub proof fn law_nobody_unknown(l: LobbyView, token: Seq<u8>, proposal_id: Seq<char>, i: int)
    requires
        no_strangers(l),
    ensures
        l.token_player.contains_key(token) ==> l.players.contains_key(l.token_player[token]),
        l.proposals.contains_key(proposal_id) && 0 <= i < l.proposals[proposal_id].players.len()
            ==> l.players.contains_key(l.proposals[proposal_id].players[i].player_id),
{
    let asked = l.proposals[proposal_id].players[i];
}

} // verus!
