//! What always holds of a lobby, whatever is asked of it.

use vstd::prelude::*;

use crate::error::LobbyApiErrorView;
use crate::lobby::{
    lobby_data, player_data, AcceptedState, LobbyDataView, LobbyView, MatchMetaView, MatchStatus,
    PlayerDataView, PlayerTypeView, PlayerView, ProposalPlayer, ProposalView, Timestamp,
};
use crate::lobby_manager::{new_lobby, with_match_done};
use crate::membership::{
    authenticated, bearer_token, has_room, joined, joining_id, joining_player, name_available,
    name_taken, one_less_connection, one_more_connection, owns_name, with_client, with_player,
    AUTH_SCHEME,
};
use crate::planetwars::MatchConfigView;
use crate::proposals::{
    all_known, all_ready, answer_refusal, answered, answered_proposal, has_rejection, new_match,
    new_proposal, no_strangers, player_ready, start_refusal, started, with_answer, with_proposal,
};
use crate::token::{hex_text, law_hex_round_trip, Token};

verus! {

/// Players are stored under their own numbers, which were all given out before.
pub open spec fn numbers_given_out(l: LobbyView) -> bool {
    forall|id: usize| #[trigger]
        l.players.contains_key(id) ==> l.players[id].id == id && id < l.next_player_id
}

/// A token stands for the player who joined with it, and a player who joined is known by their token.
pub open spec fn tokens_match(l: LobbyView) -> bool {
    &&& forall|token: Seq<u8>| #[trigger]
        l.token_player.contains_key(token) ==> l.players.contains_key(l.token_player[token])
            && l.players[l.token_player[token]].player_type == (PlayerTypeView::External { token })
    &&& forall|id: usize| #[trigger]
        l.players.contains_key(id) ==> match l.players[id].player_type {
            PlayerTypeView::External { token } => l.token_player.contains_key(token)
                && l.token_player[token] == id,
            PlayerTypeView::Internal { .. } => true,
        }
}

/// No two players go by one name.
pub open spec fn names_differ(l: LobbyView) -> bool {
    forall|a: usize, b: usize| #[trigger]
        l.players.contains_key(a) && #[trigger] l.players.contains_key(b) && l.players[a].name
            == l.players[b].name ==> a == b
}

/// A proposal of the lobby, stored under its own identifier, is open: it is neither denied nor started,
/// and nobody has said no. Its maker and all whom it asks are players.
pub open spec fn is_open(l: LobbyView, key: Seq<char>, proposal: ProposalView) -> bool {
    &&& proposal.id == key
    &&& proposal.status is Pending
    &&& !has_rejection(proposal.players)
    &&& l.players.contains_key(proposal.owner_id)
    &&& forall|i: int|
        0 <= i < proposal.players.len() ==> l.players.contains_key(
            (#[trigger] proposal.players[i]).player_id,
        )
}

/// All proposals of the lobby are open.
pub open spec fn proposals_open(l: LobbyView) -> bool {
    forall|key: Seq<char>| #[trigger]
        l.proposals.contains_key(key) ==> is_open(l, key, l.proposals[key])
}

/// Matches are stored under their own identifiers.
pub open spec fn matches_named(l: LobbyView) -> bool {
    forall|key: Seq<char>| #[trigger] l.matches.contains_key(key) ==> l.matches[key].id == key
}

/// What always holds of a lobby.
pub open spec fn lobby_inv(l: LobbyView) -> bool {
    &&& numbers_given_out(l)
    &&& tokens_match(l)
    &&& names_differ(l)
    &&& proposals_open(l)
    &&& matches_named(l)
}

/// In a lobby of which this holds nobody is spoken of who is not there.
pub proof fn law_no_strangers(l: LobbyView)
    requires
        lobby_inv(l),
    ensures
        no_strangers(l),
{
    assert forall|key: Seq<char>, i: int|
        l.proposals.contains_key(key) && 0 <= i
            < l.proposals[key].players.len() implies l.players.contains_key(
        (#[trigger] l.proposals[key].players[i]).player_id,
    ) by {
        assert(is_open(l, key, l.proposals[key]));
    }
}

/// Joining brings in nobody unknown.
pub proof fn lemma_join_no_strangers(
    l: LobbyView,
    name: Seq<char>,
    token: Seq<u8>,
    client_connected: bool,
)
    requires
        no_strangers(l),
    ensures
        no_strangers(joined(l, name, token, client_connected)),
{
    let after = joined(l, name, token, client_connected);
    assert forall|t: Seq<u8>| #[trigger]
        after.token_player.contains_key(t) implies after.players.contains_key(
        after.token_player[t],
    ) by {
        if t != token {
            assert(l.token_player.contains_key(t));
        }
    }
    assert forall|key: Seq<char>, i: int|
        after.proposals.contains_key(key) && 0 <= i
            < after.proposals[key].players.len() implies after.players.contains_key(
        (#[trigger] after.proposals[key].players[i]).player_id,
    ) by {
        assert(l.players.contains_key(l.proposals[key].players[i].player_id));
    }
}

/// A proposal to players of the lobby speaks of nobody unknown.
pub proof fn lemma_propose_no_strangers(
    l: LobbyView,
    creator: usize,
    config: MatchConfigView,
    players: Seq<usize>,
    proposal_id: Seq<char>,
)
    requires
        no_strangers(l),
        all_known(l, players),
    ensures
        no_strangers(with_proposal(l, new_proposal(l, creator, config, players, proposal_id))),
{
    let proposal = new_proposal(l, creator, config, players, proposal_id);
    let after = with_proposal(l, proposal);
    assert forall|key: Seq<char>, i: int|
        after.proposals.contains_key(key) && 0 <= i
            < after.proposals[key].players.len() implies after.players.contains_key(
        (#[trigger] after.proposals[key].players[i]).player_id,
    ) by {
        if key == proposal_id {
            assert(l.players.contains_key(players[i]));
        } else {
            assert(l.players.contains_key(l.proposals[key].players[i].player_id));
        }
    }
}

/// An answer speaks of nobody unknown.
pub proof fn lemma_answer_no_strangers(
    l: LobbyView,
    proposal_id: Seq<char>,
    player: usize,
    answer: AcceptedState,
)
    requires
        no_strangers(l),
        l.proposals.contains_key(proposal_id),
    ensures
        no_strangers(answered(l, proposal_id, player, answer)),
{
    let after = answered(l, proposal_id, player, answer);
    assert forall|key: Seq<char>, i: int|
        after.proposals.contains_key(key) && 0 <= i
            < after.proposals[key].players.len() implies after.players.contains_key(
        (#[trigger] after.proposals[key].players[i]).player_id,
    ) by {
        assert(l.players.contains_key(l.proposals[key].players[i].player_id));
    }
}

/// A start speaks of nobody unknown.
pub proof fn lemma_start_no_strangers(
    l: LobbyView,
    proposal_id: Seq<char>,
    match_id: Seq<char>,
    now: Timestamp,
)
    requires
        no_strangers(l),
        l.proposals.contains_key(proposal_id),
    ensures
        no_strangers(started(l, proposal_id, match_id, now)),
{
    let after = started(l, proposal_id, match_id, now);
    assert forall|key: Seq<char>, i: int|
        after.proposals.contains_key(key) && 0 <= i
            < after.proposals[key].players.len() implies after.players.contains_key(
        (#[trigger] after.proposals[key].players[i]).player_id,
    ) by {
        assert(l.players.contains_key(l.proposals[key].players[i].player_id));
    }
}

/// It holds of a new lobby.
pub proof fn law_new_lobby(name: Seq<char>, public: bool, id: Seq<u8>, lobby_token: Seq<u8>)
    ensures
        lobby_inv(new_lobby(name, public, id, lobby_token)),
{
}

/// It holds once a player has joined. In particular names stay unique, and a new player is given a
/// number that nobody had before.
pub proof fn law_join(l: LobbyView, name: Seq<char>, token: Seq<u8>, client_connected: bool)
    requires
        lobby_inv(l),
        name_available(l, token, name),
        has_room(l, token),
    ensures
        lobby_inv(joined(l, name, token, client_connected)),
        !l.token_player.contains_key(token) ==> !l.players.contains_key(joining_id(l, token)),
{
    let after = joined(l, name, token, client_connected);
    let id = joining_id(l, token);
    let player = joining_player(l, name, token, client_connected);
    assert(after.players[id] == player);
    assert(l.token_player.contains_key(token) ==> l.players.contains_key(id) && id
        < l.next_player_id);
    assert forall|other: Seq<u8>| #[trigger] after.token_player.contains_key(other) implies {
        &&& after.players.contains_key(after.token_player[other])
        &&& after.players[after.token_player[other]].player_type == (PlayerTypeView::External {
            token: other,
        })
    } by {
        if other != token {
            assert(l.token_player.contains_key(other));
            assert(l.players.contains_key(l.token_player[other]));
        }
    }
    assert forall|a: usize, b: usize| #[trigger]
        after.players.contains_key(a) && #[trigger] after.players.contains_key(b)
            && after.players[a].name == after.players[b].name implies a == b by {
        if a != b {
            if a == id {
                lemma_available_name(l, name, token, b);
            } else if b == id {
                lemma_available_name(l, name, token, a);
            } else {
                assert(l.players.contains_key(a) && l.players.contains_key(b));
            }
        }
    }
    assert forall|key: Seq<char>| #[trigger] after.proposals.contains_key(key) implies is_open(
        after,
        key,
        after.proposals[key],
    ) by {
        assert(is_open(l, key, l.proposals[key]));
    }
}

/// An available name is not that of any other player.
proof fn lemma_available_name(l: LobbyView, name: Seq<char>, token: Seq<u8>, other: usize)
    requires
        lobby_inv(l),
        name_available(l, token, name),
        l.players.contains_key(other),
        other != joining_id(l, token),
    ensures
        l.players[other].name != name,
{
    if l.players[other].name == name {
        assert(name_taken(l, name));
        assert(owns_name(l, token, name));
        assert(l.players.contains_key(l.token_player[token]));
    }
}

/// It holds once a proposal was made.
pub proof fn law_propose(
    l: LobbyView,
    creator: usize,
    config: MatchConfigView,
    players: Seq<usize>,
    proposal_id: Seq<char>,
)
    requires
        lobby_inv(l),
        l.players.contains_key(creator),
        all_known(l, players),
    ensures
        lobby_inv(with_proposal(l, new_proposal(l, creator, config, players, proposal_id))),
{
    let proposal = new_proposal(l, creator, config, players, proposal_id);
    let after = with_proposal(l, proposal);
    assert forall|i: int| 0 <= i < proposal.players.len() implies after.players.contains_key(
        (#[trigger] proposal.players[i]).player_id,
    ) && proposal.players[i].status != AcceptedState::Rejected by {
        assert(l.players.contains_key(players[i]));
    }
    assert(is_open(after, proposal_id, proposal));
    assert forall|key: Seq<char>| #[trigger] after.proposals.contains_key(key) implies is_open(
        after,
        key,
        after.proposals[key],
    ) by {
        if key != proposal_id {
            assert(is_open(l, key, l.proposals[key]));
        }
    }
}

/// It holds once a proposal was answered. In particular a proposal that is denied is gone.
pub proof fn law_answer(
    l: LobbyView,
    proposal_id: Seq<char>,
    player: usize,
    answer: AcceptedState,
)
    requires
        lobby_inv(l),
        l.proposals.contains_key(proposal_id),
    ensures
        lobby_inv(answered(l, proposal_id, player, answer)),
        ({
            let proposal = answered_proposal(l.proposals[proposal_id], player, answer);
            &&& answered(l, proposal_id, player, answer).proposals.contains_key(proposal_id)
                <==> !has_rejection(proposal.players)
            &&& proposal.status is Denied <==> has_rejection(proposal.players)
        }),
{
    let before = l.proposals[proposal_id];
    assert(is_open(l, proposal_id, before));
    let proposal = answered_proposal(before, player, answer);
    let after = answered(l, proposal_id, player, answer);
    assert forall|i: int| 0 <= i < proposal.players.len() implies after.players.contains_key(
        (#[trigger] proposal.players[i]).player_id,
    ) by {
        assert(l.players.contains_key(before.players[i].player_id));
    }
    assert forall|key: Seq<char>| #[trigger] after.proposals.contains_key(key) implies is_open(
        after,
        key,
        after.proposals[key],
    ) by {
        if key != proposal_id {
            assert(is_open(l, key, l.proposals[key]));
        }
    }
}

/// It holds once the match of a proposal has started. In particular the proposal is gone.
pub proof fn law_start(l: LobbyView, proposal_id: Seq<char>, match_id: Seq<char>, now: Timestamp)
    requires
        lobby_inv(l),
        l.proposals.contains_key(proposal_id),
    ensures
        lobby_inv(started(l, proposal_id, match_id, now)),
        started(l, proposal_id, match_id, now).proposals == l.proposals.remove(proposal_id),
        started(l, proposal_id, match_id, now).matches.contains_key(match_id),
{
    let proposal = l.proposals[proposal_id];
    assert(is_open(l, proposal_id, proposal));
    let after = started(l, proposal_id, match_id, now);
    assert(after.proposals =~= l.proposals.remove(proposal_id));
    assert forall|key: Seq<char>| #[trigger] after.proposals.contains_key(key) implies is_open(
        after,
        key,
        after.proposals[key],
    ) by {
        assert(is_open(l, key, l.proposals[key]));
    }
}

/// It holds once a match is over.
pub proof fn law_finish(l: LobbyView, match_id: Seq<char>)
    requires
        lobby_inv(l),
        l.matches.contains_key(match_id),
    ensures
        lobby_inv(with_match_done(l, match_id)),
{
    let after = with_match_done(l, match_id);
    assert forall|key: Seq<char>| #[trigger] after.proposals.contains_key(key) implies is_open(
        after,
        key,
        after.proposals[key],
    ) by {
        assert(is_open(l, key, l.proposals[key]));
    }
}

/// It holds once a player's connections or client have changed: whatever keeps who the player is.
pub proof fn law_presence(l: LobbyView, id: usize, player: PlayerView)
    requires
        lobby_inv(l),
        l.players.contains_key(id),
        player.id == l.players[id].id,
        player.name == l.players[id].name,
        player.player_type == l.players[id].player_type,
    ensures
        lobby_inv(with_player(l, id, player)),
{
    let after = with_player(l, id, player);
    assert forall|a: usize, b: usize| #[trigger]
        after.players.contains_key(a) && #[trigger] after.players.contains_key(b)
            && after.players[a].name == after.players[b].name implies a == b by {
        assert(l.players.contains_key(a) && l.players.contains_key(b));
    }
    assert forall|key: Seq<char>| #[trigger] after.proposals.contains_key(key) implies is_open(
        after,
        key,
        after.proposals[key],
    ) by {
        assert(is_open(l, key, l.proposals[key]));
    }
}

/// Counting a connection, losing one, and hearing of a client keep who the player is.
pub proof fn law_presence_changes(player: PlayerView, connected: bool)
    ensures
        ({
            let more = one_more_connection(player);
            let less = one_less_connection(player);
            let client = with_client(player, connected);
            &&& more.id == player.id && more.name == player.name && more.player_type
                == player.player_type
            &&& less.id == player.id && less.name == player.name && less.player_type
                == player.player_type
            &&& client.id == player.id && client.name == player.name && client.player_type
                == player.player_type
        }),
{
}

/// The header by which the player with `token` is known.
pub open spec fn auth_header(token: Token) -> Option<Seq<char>> {
    Some(AUTH_SCHEME@ + hex_text(token@))
}

/// A header carries the token that was written into it.
pub proof fn law_auth_header(token: Token)
    ensures
        bearer_token(auth_header(token)) == Some(token@),
{
    law_hex_round_trip(token@);
    let text = AUTH_SCHEME@ + hex_text(token@);
    assert(text.skip(AUTH_SCHEME@.len() as int) =~= hex_text(token@));
    assert(AUTH_SCHEME@.is_prefix_of(text));
}

/// A player who has joined is known by their token, and joining changes nobody else's standing.
pub proof fn law_join_authenticates(
    l: LobbyView,
    name: Seq<char>,
    token: Token,
    client_connected: bool,
    other: Token,
)
    ensures
        ({
            let after = joined(l, name, token@, client_connected);
            &&& authenticated(after, auth_header(token)) == Some(joining_id(l, token@))
            &&& other@ != token@ ==> authenticated(after, auth_header(other)) == authenticated(
                l,
                auth_header(other),
            )
        }),
{
    law_auth_header(token);
    law_auth_header(other);
}

/// Whoever is authenticated is a player who joined with the token that the header carries.
pub proof fn law_authenticated_joined(l: LobbyView, header: Option<Seq<char>>)
    requires
        lobby_inv(l),
        authenticated(l, header) is Some,
    ensures
        bearer_token(header) is Some,
        l.players.contains_key(authenticated(l, header)->0),
        l.players[authenticated(l, header)->0].player_type == (PlayerTypeView::External {
            token: bearer_token(header)->0,
        }),
{
}

/// Joining twice in the same way is joining once.
pub proof fn law_rejoin(l: LobbyView, name: Seq<char>, token: Seq<u8>, client_connected: bool)
    ensures
        ({
            let once = joined(l, name, token, client_connected);
            &&& name_available(once, token, name)
            &&& has_room(once, token)
            &&& joined(once, name, token, client_connected) == once
        }),
{
    let once = joined(l, name, token, client_connected);
    let id = joining_id(l, token);
    assert(once.token_player[token] == id);
    assert(once.players[id].name == name);
    let twice = joined(once, name, token, client_connected);
    assert(twice.players =~= once.players);
    assert(twice.token_player =~= once.token_player);
}

/// Nobody is given the name of another player.
pub proof fn law_name_of_another(l: LobbyView, token: Seq<u8>, other: usize)
    requires
        lobby_inv(l),
        l.players.contains_key(other),
        l.token_player.contains_key(token) ==> l.token_player[token] != other,
    ensures
        !name_available(l, token, l.players[other].name),
{
    assert(name_taken(l, l.players[other].name));
    if l.token_player.contains_key(token) {
        assert(l.players.contains_key(l.token_player[token]));
    }
}

/// A proposal is started by its maker alone, once all whom it asks have accepted and are there.
pub proof fn law_start_granted(l: LobbyView, player: Option<usize>, proposal_id: Seq<char>)
    ensures
        start_refusal(l, player, proposal_id) is None <==> {
            &&& player is Some
            &&& l.proposals.contains_key(proposal_id)
            &&& l.proposals[proposal_id].owner_id == player->0
            &&& l.proposals[proposal_id].status is Pending
            &&& forall|i: int|
                0 <= i < l.proposals[proposal_id].players.len() ==> {
                    let asked = #[trigger] l.proposals[proposal_id].players[i];
                    asked.status == AcceptedState::Accepted
                        && l.players[asked.player_id].client_connected
                }
        },
{
    if l.proposals.contains_key(proposal_id) {
        let proposal = l.proposals[proposal_id];
        assert forall|i: int| 0 <= i < proposal.players.len() implies player_ready(
            l,
            #[trigger] proposal.players[i],
        ) == {
            let asked = proposal.players[i];
            asked.status == AcceptedState::Accepted && l.players[asked.player_id].client_connected
        } by {}
        if all_ready(l, proposal) {
            assert forall|i: int| 0 <= i < l.proposals[proposal_id].players.len() implies {
                let asked = #[trigger] l.proposals[proposal_id].players[i];
                asked.status == AcceptedState::Accepted
                    && l.players[asked.player_id].client_connected
            } by {
                assert(player_ready(l, proposal.players[i]));
            }
        }
    }
}

/// No proposal of a lobby is ever found expired: what is no longer valid is no longer there.
pub proof fn law_never_expired(l: LobbyView, player: Option<usize>, proposal_id: Seq<char>)
    requires
        lobby_inv(l),
    ensures
        start_refusal(l, player, proposal_id) != Some(LobbyApiErrorView::ProposalExpired),
{
    if l.proposals.contains_key(proposal_id) {
        assert(is_open(l, proposal_id, l.proposals[proposal_id]));
    }
}

/// A proposal starts at most one match, whatever else holds of the lobby: once started, it is refused to
/// everyone. In a lobby of which what always holds is true, it is not even found any more.
pub proof fn law_start_once(
    l: LobbyView,
    player: usize,
    proposal_id: Seq<char>,
    match_id: Seq<char>,
    now: Timestamp,
)
    requires
        l.proposals.contains_key(proposal_id),
    ensures
        ({
            let after = started(l, proposal_id, match_id, now);
            &&& start_refusal(after, Some(player), proposal_id) == Some(
                if l.proposals[proposal_id].id == proposal_id {
                    LobbyApiErrorView::ProposalNotFound
                } else if l.proposals[proposal_id].owner_id != player {
                    LobbyApiErrorView::NotAuthorized
                } else {
                    LobbyApiErrorView::ProposalExpired
                },
            )
            &&& lobby_inv(l) ==> start_refusal(after, Some(player), proposal_id) == Some(
                LobbyApiErrorView::ProposalNotFound,
            ) && answer_refusal(after, Some(player), proposal_id) == Some(
                LobbyApiErrorView::ProposalNotFound,
            )
        }),
{
    if lobby_inv(l) {
        law_start(l, proposal_id, match_id, now);
        assert(is_open(l, proposal_id, l.proposals[proposal_id]));
    }
}

/// A proposal is denied for good as soon as one whom it asks says no, whatever else holds of the lobby:
/// nobody can start it. In a lobby of which what always holds is true, it is not even found any more.
pub proof fn law_one_no_denies(
    l: LobbyView,
    proposal_id: Seq<char>,
    i: int,
    anyone: usize,
)
    requires
        l.proposals.contains_key(proposal_id),
        0 <= i < l.proposals[proposal_id].players.len(),
    ensures
        ({
            let player = l.proposals[proposal_id].players[i].player_id;
            let after = answered(l, proposal_id, player, AcceptedState::Rejected);
            &&& answered_proposal(
                l.proposals[proposal_id],
                player,
                AcceptedState::Rejected,
            ).status is Denied
            &&& start_refusal(after, Some(anyone), proposal_id) is Some
            &&& lobby_inv(l) ==> start_refusal(after, Some(anyone), proposal_id) == Some(
                LobbyApiErrorView::ProposalNotFound,
            )
        }),
{
    let asked = l.proposals[proposal_id].players;
    let player = asked[i].player_id;
    let players = with_answer(asked, player, AcceptedState::Rejected);
    assert(players[i].status == AcceptedState::Rejected);
    assert(has_rejection(players));
    if lobby_inv(l) {
        law_answer(l, proposal_id, player, AcceptedState::Rejected);
    }
}

/// The answer of a player whom the proposal does not ask changes nothing.
pub proof fn law_answer_of_a_stranger(
    l: LobbyView,
    proposal_id: Seq<char>,
    player: usize,
    answer: AcceptedState,
)
    requires
        lobby_inv(l),
        l.proposals.contains_key(proposal_id),
        forall|i: int|
            0 <= i < l.proposals[proposal_id].players.len() ==> (
            #[trigger] l.proposals[proposal_id].players[i]).player_id != player,
    ensures
        answered(l, proposal_id, player, answer) == l,
        answered_proposal(l.proposals[proposal_id], player, answer) == l.proposals[proposal_id],
{
    let proposal = l.proposals[proposal_id];
    assert(is_open(l, proposal_id, proposal));
    assert(with_answer(proposal.players, player, answer) =~= proposal.players);
    assert(answered(l, proposal_id, player, answer).proposals =~= l.proposals);
}

/// A player's last answer is the one that counts, and one player's answer leaves the others' alone.
pub proof fn law_last_answer_counts(
    players: Seq<ProposalPlayer>,
    player: usize,
    first: AcceptedState,
    last: AcceptedState,
)
    ensures
        with_answer(with_answer(players, player, first), player, last) == with_answer(
            players,
            player,
            last,
        ),
        forall|i: int|
            0 <= i < players.len() ==> (#[trigger] with_answer(players, player, last)[i]).status
                == if players[i].player_id == player {
                last
            } else {
                players[i].status
            },
{
    assert(with_answer(with_answer(players, player, first), player, last) =~= with_answer(
        players,
        player,
        last,
    ));
}

/// What anyone may see of a lobby tells nothing of tokens: lobbies that differ only in tokens, in how
/// players are run, and in the count behind a player's presence look the same.
pub proof fn law_no_tokens_shown(a: LobbyView, b: LobbyView)
    requires
        a.id == b.id,
        a.name == b.name,
        a.public == b.public,
        a.proposals == b.proposals,
        a.matches == b.matches,
        a.players.dom() == b.players.dom(),
        forall|id: usize| #[trigger]
            a.players.contains_key(id) ==> {
                &&& a.players[id].id == b.players[id].id
                &&& a.players[id].name == b.players[id].name
                &&& a.players[id].client_connected == b.players[id].client_connected
                &&& (a.players[id].connection_count > 0) == (b.players[id].connection_count > 0)
            },
    ensures
        lobby_data(a) == lobby_data(b),
{
    assert forall|id: usize| a.players.contains_key(id) == b.players.contains_key(id) by {
        assert(a.players.dom().contains(id) == b.players.dom().contains(id));
    }
    assert(lobby_data(a).players =~= lobby_data(b).players);
}

/// A player who has joined is seen in the lobby as they joined, and the others as before.
pub proof fn law_join_shown(l: LobbyView, name: Seq<char>, token: Seq<u8>, client_connected: bool)
    ensures
        lobby_data(joined(l, name, token, client_connected)) == (LobbyDataView {
            players: lobby_data(l).players.insert(
                joining_id(l, token),
                PlayerDataView {
                    id: joining_id(l, token),
                    name,
                    connected: false,
                    client_connected,
                },
            ),
            ..lobby_data(l)
        }),
{
    let after = lobby_data(joined(l, name, token, client_connected));
    assert(after.players =~= lobby_data(l).players.insert(
        joining_id(l, token),
        player_data(joining_player(l, name, token, client_connected)),
    ));
}

/// A proposal is seen in the lobby until its match starts; from then on the match is seen in its place,
/// first as running and at last as over, and is known to be the one that was proposed.
pub proof fn law_proposal_shown(
    l: LobbyView,
    proposal: ProposalView,
    match_id: Seq<char>,
    now: Timestamp,
)
    requires
        !l.proposals.contains_key(proposal.id),
    ensures
        ({
            let open = lobby_data(with_proposal(l, proposal));
            let running = lobby_data(started(with_proposal(l, proposal), proposal.id, match_id, now));
            let over = lobby_data(
                with_match_done(
                    started(with_proposal(l, proposal), proposal.id, match_id, now),
                    match_id,
                ),
            );
            &&& open.proposals == l.proposals.insert(proposal.id, proposal)
            &&& running.proposals == l.proposals
            &&& running.matches == l.matches.insert(match_id, new_match(proposal, match_id, now))
            &&& over.proposals == l.proposals
            &&& over.matches == l.matches.insert(
                match_id,
                MatchMetaView {
                    status: MatchStatus::Done,
                    ..new_match(proposal, match_id, now)
                },
            )
        }),
{
    let open = with_proposal(l, proposal);
    let running = started(open, proposal.id, match_id, now);
    let over = with_match_done(running, match_id);
    assert(running.proposals =~= l.proposals);
    assert(over.matches =~= l.matches.insert(match_id, over.matches[match_id]));
}

} // verus!
