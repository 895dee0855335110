//! What clients cause by what they say and by going, said of each part of it.

use vstd::prelude::*;

use crate::connection_handler::{
    after_drops, can_count, claim_heard, claimed_player, drop_notice, drop_notices, input_handled,
    listeners, message_heard, uncountable, with_listener, HandlerAction, WsClientMessage, WsInput,
    WsStep,
};
use crate::event::{LobbyEvent, LobbyEventView, Notice, NoticeView};
use crate::game_manager::MatchData;
use crate::lobby::{lobby_data, LobbyView};
use crate::lobby_manager::{is_player, LobbyManagerView};
use crate::proposal_laws::same_but_players;
use crate::request_laws::only_lobby_changed;
use crate::server_laws::{count_left, law_disconnect_counts, lobbies_inv, times_listed};
use crate::websocket::WsConnection;

verus! {

/// A client speaks for the player of the lobby who goes by the token that it gives, if there is one.
pub proof fn law_claimed_player(mgr: LobbyManagerView, lobby_id: Seq<char>, token: Seq<u8>)
    ensures
        ({
            let known = mgr.lobbies.contains_key(lobby_id)
                && mgr.lobbies[lobby_id].token_player.contains_key(token);
            let id = mgr.lobbies[lobby_id].token_player[token];
            &&& claimed_player(mgr, lobby_id, token) is Some <==> known
            &&& known ==> claimed_player(mgr, lobby_id, token) == Some(id)
            &&& can_count(mgr, lobby_id, token) <==> !known
                || mgr.lobbies[lobby_id].players[id].connection_count != usize::MAX
        }),
{
}

/// A claim that is true counts one connection for that player, and nothing else changes. The lobby is told
/// exactly if it is the player's first, and is then told that they are connected. A claim that is not true
/// changes nothing.
pub proof fn law_claim(
    before: LobbyManagerView,
    after: LobbyManagerView,
    players_before: Seq<(Seq<char>, usize)>,
    players_after: Seq<(Seq<char>, usize)>,
    lobby_id: Seq<char>,
    token: Seq<u8>,
    notice: Option<Notice>,
)
    requires
        claim_heard(before, after, players_before, players_after, lobby_id, token, notice),
        can_count(before, lobby_id, token),
    ensures
        ({
            let known = before.lobbies.contains_key(lobby_id)
                && before.lobbies[lobby_id].token_player.contains_key(token);
            let id = before.lobbies[lobby_id].token_player[token];
            let was = before.lobbies[lobby_id].players[id];
            let is = after.lobbies[lobby_id].players[id];
            &&& !known ==> after == before && players_after == players_before && notice is None
            &&& known ==> {
                &&& players_after == players_before.push((lobby_id, id))
                &&& is.connection_count == was.connection_count + 1
                &&& is.id == was.id
                &&& is.name == was.name
                &&& is.player_type == was.player_type
                &&& is.client_connected == was.client_connected
                &&& forall|other: usize|
                    other != id ==> (#[trigger] after.lobbies[lobby_id].players.contains_key(other)
                        == before.lobbies[lobby_id].players.contains_key(other))
                        && after.lobbies[lobby_id].players[other]
                        == before.lobbies[lobby_id].players[other]
                &&& after.lobbies[lobby_id].token_player == before.lobbies[lobby_id].token_player
                &&& same_but_players(before.lobbies[lobby_id], after.lobbies[lobby_id])
                &&& only_lobby_changed(before, after, lobby_id)
                &&& after.token_player == before.token_player
                &&& notice is Some <==> was.connection_count == 0
                &&& notice matches Some(told) ==> told.lobby_id@ == lobby_id && (told.event matches
                    LobbyEvent::PlayerData(data) && data.id == was.id && data.name@ == was.name
                    && data.connected && data.client_connected == was.client_connected)
            }
        }),
{
}

/// What a client asks for is what it gets: a lobby that is there as it is now, a match that runs through its
/// log, and nothing of what is not there. Asking changes nothing on the server.
pub proof fn law_subscriptions<'a, S>(
    before: LobbyManagerView,
    after: LobbyManagerView,
    players_before: Seq<(Seq<char>, usize)>,
    players_after: Seq<(Seq<char>, usize)>,
    matches: Map<Seq<char>, MatchData<S>>,
    msg: WsClientMessage,
    action: HandlerAction<'a, S>,
)
    requires
        message_heard(before, after, players_before, players_after, matches, msg, action),
    ensures
        msg !is AuthenticatePlayer ==> after == before && players_after == players_before,
        msg matches WsClientMessage::SubscribeToLobby(req) ==> {
            &&& action is ShowLobby <==> before.lobbies.contains_key(req.lobby_id@)
            &&& action is Nothing <==> !before.lobbies.contains_key(req.lobby_id@)
            &&& action matches HandlerAction::ShowLobby { lobby_id, state } ==> lobby_id@
                == req.lobby_id@ && (state matches LobbyEvent::LobbyState(data) && data@
                == lobby_data(before.lobbies[req.lobby_id@]))
        },
        msg matches WsClientMessage::SubscribeToMatch(req) ==> {
            let runs = matches.contains_key(req.match_id@) && matches[req.match_id@] is InProgress;
            &&& action is FollowMatch <==> runs
            &&& action is Nothing <==> !runs
            &&& action matches HandlerAction::FollowMatch { stream_id, log_stream } ==> stream_id
                == req.stream_id && matches[req.match_id@] == (MatchData::InProgress {
                log_stream: *log_stream,
            })
        },
        msg matches WsClientMessage::AuthenticatePlayer(req) ==> claim_heard(
            before,
            after,
            players_before,
            players_after,
            req.lobby_id@,
            req.token@,
            match action {
                HandlerAction::Tell(notice) => Some(notice),
                _ => None,
            },
        ),
{
}

/// A connection goes on after whatever is said over it, and after what cannot be read, which changes nothing.
/// It ends exactly when it fails or is closed, and those whom it spoke for then lose what it counted for them.
pub proof fn law_connection_ends<'a, S>(
    before: LobbyManagerView,
    after: LobbyManagerView,
    players_before: Seq<(Seq<char>, usize)>,
    players_after: Seq<(Seq<char>, usize)>,
    matches: Map<Seq<char>, MatchData<S>>,
    input: WsInput,
    step: WsStep<'a, S>,
)
    requires
        input_handled(
            before,
            after,
            players_before,
            players_after,
            matches,
            input,
            step,
        ),
    ensures
        step is Stop <==> input is Failed || input is Closed,
        step is Continue <==> input is Message || input is Unreadable,
        input is Unreadable ==> after == before && players_after == players_before && step
            == WsStep::<S>::Continue(HandlerAction::Nothing),
        input is Failed || input is Closed ==> after.lobbies == after_drops(
            before.lobbies,
            players_before,
        ) && after.maps == before.maps && after.websocket_connections
            == before.websocket_connections && after.token_player == before.token_player,
        uncountable(before, input) ==> input is Message,
{
}

/// A notice that a player of a lobby is not connected any more.
pub open spec fn is_absence(notice: NoticeView, key: Seq<char>, id: usize) -> bool {
    &&& notice.lobby_id == key
    &&& notice.event matches LobbyEventView::PlayerData(data) && data.id == id && !data.connected
}

/// When a client is gone, all that is told is that a player whom it spoke for is not connected any more, with
/// who they are and whether their client is there.
pub proof fn law_departures_told(
    lobbies: Map<Seq<char>, LobbyView>,
    players: Seq<(Seq<char>, usize)>,
    n: int,
)
    requires
        0 <= n < drop_notices(lobbies, players).len(),
    ensures
        exists|i: int|
            0 <= i < players.len() && {
                let player = #[trigger] players[i];
                let was = lobbies[player.0].players[player.1];
                &&& is_player(lobbies, player)
                &&& drop_notices(lobbies, players)[n].lobby_id == player.0
                &&& drop_notices(lobbies, players)[n].event matches LobbyEventView::PlayerData(data)
                    && data.id == was.id && data.name == was.name && !data.connected
                    && data.client_connected == was.client_connected
            },
    decreases players.len(),
{
    let earlier = players.drop_last();
    let last = players.last();
    let before = drop_notices(lobbies, earlier);
    let now = after_drops(lobbies, earlier);
    law_disconnect_counts(lobbies, earlier);
    if n < before.len() {
        law_departures_told(lobbies, earlier, n);
        assert(drop_notices(lobbies, players)[n] == before[n]);
        let i = choose|i: int|
            0 <= i < earlier.len() && {
                let player = #[trigger] earlier[i];
                let was = lobbies[player.0].players[player.1];
                &&& is_player(lobbies, player)
                &&& before[n].lobby_id == player.0
                &&& before[n].event matches LobbyEventView::PlayerData(data) && data.id == was.id
                    && data.name == was.name && !data.connected && data.client_connected
                    == was.client_connected
            };
        assert(players[i] == earlier[i]);
    } else {
        lemma_still_player(lobbies, earlier, last);
        assert(drop_notices(lobbies, players)[n] == drop_notice(now, last)[n - before.len()]);
        assert(players[players.len() - 1] == last);
        assert(last == (last.0, last.1));
    }
}

/// Losing connections makes nobody a player, and nobody stops being one.
proof fn lemma_still_player(
    lobbies: Map<Seq<char>, LobbyView>,
    players: Seq<(Seq<char>, usize)>,
    player: (Seq<char>, usize),
)
    ensures
        is_player(after_drops(lobbies, players), player) == is_player(lobbies, player),
{
    law_disconnect_counts(lobbies, players);
    let after = after_drops(lobbies, players);
    assert(after.dom().contains(player.0) == lobbies.dom().contains(player.0));
    if lobbies.contains_key(player.0) {
        assert(after[player.0].players.dom().contains(player.1)
            == lobbies[player.0].players.dom().contains(player.1));
    }
}

/// When a client is gone, a lobby is told that a player is not connected any more exactly if the client spoke
/// for that player and has left them no connection.
pub proof fn law_last_departure_told(
    lobbies: Map<Seq<char>, LobbyView>,
    players: Seq<(Seq<char>, usize)>,
    key: Seq<char>,
    id: usize,
)
    requires
        lobbies_inv(lobbies),
        is_player(lobbies, (key, id)),
    ensures
        (exists|n: int|
            0 <= n < drop_notices(lobbies, players).len() && is_absence(
                #[trigger] drop_notices(lobbies, players)[n],
                key,
                id,
            )) <==> times_listed(players, (key, id)) > 0
            && lobbies[key].players[id].connection_count <= times_listed(players, (key, id)),
    decreases players.len(),
{
    let count = lobbies[key].players[id].connection_count;
    let player = (key, id);
    let all = drop_notices(lobbies, players);
    if players.len() > 0 {
        let earlier = players.drop_last();
        let last = players.last();
        let before = drop_notices(lobbies, earlier);
        let now = after_drops(lobbies, earlier);
        let told = drop_notice(now, last);
        law_last_departure_told(lobbies, earlier, key, id);
        law_disconnect_counts(lobbies, earlier);
        lemma_still_player(lobbies, earlier, last);
        assert(all == before + told);
        assert(last == (last.0, last.1));
        let t = times_listed(earlier, player);
        assert(now[key].players[id].connection_count == count_left(count, t));
        if is_player(lobbies, last) {
            assert(lobbies[last.0].players[last.1].id == last.1);
            assert(now[last.0].players[last.1].id == last.1);
        }
        if exists|n: int| 0 <= n < before.len() && is_absence(#[trigger] before[n], key, id) {
            let n = choose|n: int| 0 <= n < before.len() && is_absence(#[trigger] before[n], key, id);
            assert(all[n] == before[n]);
        }
        if last == player && count <= t + 1 {
            assert(told.len() == 1);
            assert(is_absence(told[0], key, id));
            assert(all[before.len() as int] == told[0]);
        }
        if exists|n: int| 0 <= n < all.len() && is_absence(#[trigger] all[n], key, id) {
            let n = choose|n: int| 0 <= n < all.len() && is_absence(#[trigger] all[n], key, id);
            if n < before.len() {
                assert(is_absence(before[n], key, id));
            } else {
                assert(all[n] == told[n - before.len()]);
                assert(last == player);
            }
        }
    }
}

/// A client that listens is put behind those who listen to that lobby, and nothing else on the server changes.
pub proof fn law_listener_added(mgr: LobbyManagerView, lobby_id: Seq<char>, conn: WsConnection)
    ensures
        ({
            let after = with_listener(mgr, lobby_id, conn);
            &&& listeners(after, lobby_id).len() == listeners(mgr, lobby_id).len() + 1
            &&& listeners(after, lobby_id).last() == conn
            &&& listeners(mgr, lobby_id).is_prefix_of(listeners(after, lobby_id))
            &&& forall|other: Seq<char>|
                other != lobby_id ==> #[trigger] listeners(after, other) == listeners(mgr, other)
            &&& after.lobbies == mgr.lobbies
            &&& after.maps == mgr.maps
            &&& after.token_player == mgr.token_player
        }),
{
}

/// Nothing cannot be counted but the claim to be a player who has as many connections as can be counted.
pub proof fn law_uncountable(mgr: LobbyManagerView, input: WsInput)
    ensures
        uncountable(mgr, input) <==> (input matches WsInput::Message(
            WsClientMessage::AuthenticatePlayer(req),
        ) && mgr.lobbies.contains_key(req.lobby_id@)
            && mgr.lobbies[req.lobby_id@].token_player.contains_key(req.token@)
            && mgr.lobbies[req.lobby_id@].players[mgr.lobbies[req.lobby_id@].token_player[req.token@]].connection_count
            == usize::MAX),
{
}

/// A notice of absence is one to the lobby, of that player, and says that they are not connected.
pub proof fn law_absence(notice: NoticeView, key: Seq<char>, id: usize)
    ensures
        is_absence(notice, key, id) <==> notice.lobby_id == key && (notice.event matches
            LobbyEventView::PlayerData(data) && data.id == id && data.connected == false),
{
}

/// Departures are told in the order in which the client came to speak for players. One more is told exactly if
/// it leaves the player no connection, and what was told before it stays as it was.
pub proof fn law_next_departure(
    lobbies: Map<Seq<char>, LobbyView>,
    players: Seq<(Seq<char>, usize)>,
    player: (Seq<char>, usize),
)
    ensures
        drop_notices(lobbies, Seq::empty()) == Seq::<NoticeView>::empty(),
        ({
            let told = drop_notices(lobbies, players);
            let more = drop_notices(lobbies, players.push(player));
            let there = lobbies.contains_key(player.0) && lobbies[player.0].players.contains_key(
                player.1,
            );
            let was = lobbies[player.0].players[player.1];
            let last = there && was.connection_count <= times_listed(players, player) + 1;
            &&& !last ==> more == told
            &&& last ==> more.len() == told.len() + 1 && told.is_prefix_of(more)
                && more.last().lobby_id == player.0 && (more.last().event matches
                LobbyEventView::PlayerData(data) && data.id == was.id && data.name == was.name
                && !data.connected && data.client_connected == was.client_connected)
        }),
{
    let all = players.push(player);
    assert(all.drop_last() =~= players);
    assert(all.last() == player);
    law_disconnect_counts(lobbies, players);
    lemma_still_player(lobbies, players, player);
    assert(player == (player.0, player.1));
    let told = drop_notices(lobbies, players);
    let next = drop_notice(after_drops(lobbies, players), player);
    let more = drop_notices(lobbies, all);
    assert(more == told + next);
    if next.len() == 0 {
        assert(more =~= told);
    } else {
        assert(told.is_prefix_of(more));
    }
}

} // verus!
