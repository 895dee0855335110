//! What always holds of the server as a whole.

use std::path::PathBuf;

use vstd::prelude::*;
use vstd::utf8::is_ascii_chars;

use crate::api::{after_join, join_refusal, with_changed};
use crate::connection_handler::{
    after_connect, after_connects, after_drops, listeners, with_listener,
};
use crate::game_manager::{kept_log, MatchData};
use crate::lobby::{LobbyView, PlayerTypeView, PlayerView};
use crate::lobby_laws::{
    is_open, law_join, law_new_lobby, law_no_strangers, law_presence, law_presence_changes,
    lobby_inv,
};
use crate::lobby_manager::{
    is_player, listed, new_lobby, players_of, sound, with_clients, with_lobby, LobbyManagerView,
};
use crate::membership::{has_room, joining_id, one_more_connection, with_client, with_player};
use crate::proposals::no_strangers;
use crate::text::{ascii_lower, lemma_lowercase_fixed, lowercase};
use crate::token::{hex_text, is_lower_hex, law_hex_round_trip};
use crate::websocket::{delivered, delivered_from, law_delivered_to_each, was_sent, WsConnection};

verus! {

/// The player `id` of the lobby `key` goes by `token`.
pub open spec fn goes_by(
    lobbies: Map<Seq<char>, LobbyView>,
    token: Seq<u8>,
    key: Seq<char>,
    id: usize,
) -> bool {
    &&& lobbies.contains_key(key)
    &&& lobbies[key].token_player.contains_key(token)
    &&& lobbies[key].token_player[token] == id
}

/// What is listed for a token are the players who go by it, all of them and no others.
pub open spec fn memberships_match(mgr: LobbyManagerView) -> bool {
    forall|token: Seq<u8>, key: Seq<char>, id: usize|
        #![trigger players_of(mgr, token).contains((key, id))]
        #![trigger goes_by(mgr.lobbies, token, key, id)]
        players_of(mgr, token).contains((key, id)) <==> goes_by(mgr.lobbies, token, key, id)
}

/// Lobbies are stored under their own identifiers, and what always holds of a lobby holds of each.
pub open spec fn lobbies_inv(lobbies: Map<Seq<char>, LobbyView>) -> bool {
    forall|key: Seq<char>| #[trigger]
        lobbies.contains_key(key) ==> lobbies[key].id == key && lobby_inv(lobbies[key])
}

/// What always holds of the server.
pub open spec fn server_inv(mgr: LobbyManagerView) -> bool {
    &&& lobbies_inv(mgr.lobbies)
    &&& memberships_match(mgr)
}

/// On a server of which this holds nobody is spoken of who is not there.
pub proof fn law_sound(mgr: LobbyManagerView)
    requires
        server_inv(mgr),
    ensures
        sound(mgr),
{
    assert forall|key: Seq<char>| #[trigger] mgr.lobbies.contains_key(key) implies no_strangers(
        mgr.lobbies[key],
    ) by {
        law_no_strangers(mgr.lobbies[key]);
    }
}

/// It holds of a server without lobbies.
pub proof fn law_empty_server(mgr: LobbyManagerView)
    requires
        mgr.lobbies == Map::<Seq<char>, LobbyView>::empty(),
        mgr.token_player == Map::<Seq<u8>, Seq<(Seq<char>, usize)>>::empty(),
    ensures
        server_inv(mgr),
{
}

/// It holds once a lobby was opened under an identifier that was not in use.
pub proof fn law_open_lobby(
    mgr: LobbyManagerView,
    name: Seq<char>,
    public: bool,
    id: Seq<u8>,
    lobby_token: Seq<u8>,
)
    requires
        server_inv(mgr),
        !mgr.lobbies.contains_key(hex_text(id)),
    ensures
        server_inv(with_lobby(mgr, new_lobby(name, public, id, lobby_token))),
{
    let lobby = new_lobby(name, public, id, lobby_token);
    let after = with_lobby(mgr, lobby);
    law_new_lobby(name, public, id, lobby_token);
    assert forall|token: Seq<u8>, key: Seq<char>, player: usize|
        players_of(after, token).contains((key, player)) <==> #[trigger] goes_by(
            after.lobbies,
            token,
            key,
            player,
        ) by {
        assert(players_of(mgr, token).contains((key, player)) <==> goes_by(
            mgr.lobbies,
            token,
            key,
            player,
        ));
    }
}

/// It holds once a player has joined.
pub proof fn law_join_lobby(
    mgr: LobbyManagerView,
    key: Seq<char>,
    name: Seq<char>,
    token: Seq<u8>,
    client_connected: bool,
)
    requires
        server_inv(mgr),
        join_refusal(mgr, key, name, token) is None,
        has_room(mgr.lobbies[key], token),
    ensures
        server_inv(after_join(mgr, key, name, token, client_connected)),
{
    let l = mgr.lobbies[key];
    let after = after_join(mgr, key, name, token, client_connected);
    let player = (key, joining_id(l, token));
    law_join(l, name, token, client_connected);
    assert forall|t: Seq<u8>, k: Seq<char>, id: usize|
        players_of(after, t).contains((k, id)) <==> #[trigger] goes_by(
            after.lobbies,
            t,
            k,
            id,
        ) by {
        assert(players_of(mgr, t).contains((k, id)) <==> goes_by(mgr.lobbies, t, k, id));
        if t == token {
            lemma_listed(players_of(mgr, token), player, (k, id));
        }
    }
}

/// Once listed, a player is there, and so is everyone who was.
proof fn lemma_listed(
    players: Seq<(Seq<char>, usize)>,
    player: (Seq<char>, usize),
    other: (Seq<char>, usize),
)
    ensures
        listed(players, player).contains(other) <==> players.contains(other) || other == player,
{
    let more = players.push(player);
    assert(more[players.len() as int] == player);
    if players.contains(other) {
        let i = choose|i: int| 0 <= i < players.len() && players[i] == other;
        assert(more[i] == other);
    }
    if more.contains(other) {
        let i = choose|i: int| 0 <= i < more.len() && more[i] == other;
        if i < players.len() {
            assert(players[i] == other);
        }
    }
}

/// It holds once one lobby has changed in a way that keeps what always holds of a lobby, and keeps who
/// goes by which token. Proposals, answers, starts, ends of matches and changes of presence are such.
pub proof fn law_change_lobby(mgr: LobbyManagerView, key: Seq<char>, lobby: LobbyView)
    requires
        server_inv(mgr),
        mgr.lobbies.contains_key(key),
        lobby_inv(lobby),
        lobby.id == mgr.lobbies[key].id,
        lobby.token_player == mgr.lobbies[key].token_player,
    ensures
        server_inv(with_changed(mgr, key, lobby)),
{
    let after = with_changed(mgr, key, lobby);
    assert forall|t: Seq<u8>, k: Seq<char>, id: usize|
        players_of(after, t).contains((k, id)) <==> #[trigger] goes_by(
            after.lobbies,
            t,
            k,
            id,
        ) by {
        assert(players_of(mgr, t).contains((k, id)) <==> goes_by(mgr.lobbies, t, k, id));
    }
}

/// It holds once a client has come or gone. Then every player who goes by its token, in whichever
/// lobby, is known to have a client or to have none, and no other player is touched.
pub proof fn law_client_reaches_all(mgr: LobbyManagerView, token: Seq<u8>, connected: bool)
    requires
        server_inv(mgr),
    ensures
        ({
            let after = with_clients(mgr.lobbies, players_of(mgr, token), connected);
            &&& server_inv(LobbyManagerView { lobbies: after, ..mgr })
            &&& forall|key: Seq<char>, id: usize| #[trigger]
                is_player(mgr.lobbies, (key, id)) ==> is_player(after, (key, id))
                    && after[key].players[id] == if mgr.lobbies[key].players[id].player_type == (
                PlayerTypeView::External { token }) {
                    with_client(mgr.lobbies[key].players[id], connected)
                } else {
                    mgr.lobbies[key].players[id]
                }
        }),
{
    let players = players_of(mgr, token);
    let after = with_clients(mgr.lobbies, players, connected);
    let mgr_after = LobbyManagerView { lobbies: after, ..mgr };
    assert forall|key: Seq<char>| #[trigger] after.contains_key(key) implies after[key].id == key
        && lobby_inv(after[key]) by {
        let l = mgr.lobbies[key];
        assert(lobby_inv(l));
        assert(after[key].token_player == l.token_player);
        assert(after[key].proposals == l.proposals);
        assert(after[key].players.dom() =~= l.players.dom());
        lemma_same_people(l, after[key]);
    }
    assert forall|t: Seq<u8>, k: Seq<char>, id: usize|
        players_of(mgr_after, t).contains((k, id)) <==> #[trigger] goes_by(after, t, k, id) by {
        assert(players_of(mgr, t).contains((k, id)) <==> goes_by(mgr.lobbies, t, k, id));
    }
    assert forall|key: Seq<char>, id: usize| #[trigger]
        is_player(mgr.lobbies, (key, id)) implies is_player(after, (key, id))
        && after[key].players[id] == if mgr.lobbies[key].players[id].player_type == (
    PlayerTypeView::External { token }) {
        with_client(mgr.lobbies[key].players[id], connected)
    } else {
        mgr.lobbies[key].players[id]
    } by {
        assert(lobby_inv(mgr.lobbies[key]));
        assert(players.contains((key, id)) <==> goes_by(mgr.lobbies, token, key, id));
    }
}

/// What always holds of a lobby holds of one with the same players, but for their presence.
proof fn lemma_same_people(before: LobbyView, after: LobbyView)
    requires
        lobby_inv(before),
        after == (LobbyView { players: after.players, ..before }),
        after.players.dom() == before.players.dom(),
        forall|id: usize| #[trigger]
            after.players.contains_key(id) ==> {
                &&& after.players[id].id == before.players[id].id
                &&& after.players[id].name == before.players[id].name
                &&& after.players[id].player_type == before.players[id].player_type
            },
    ensures
        lobby_inv(after),
{
    assert forall|id: usize| #[trigger] after.players.contains_key(id) == before.players.contains_key(
        id,
    ) by {
        assert(after.players.dom().contains(id) == before.players.dom().contains(id));
    }
    assert forall|id: usize| #[trigger] before.players.contains_key(id) implies after.players.contains_key(
        id,
    ) by {
        assert(after.players.dom().contains(id) == before.players.dom().contains(id));
    }
    assert forall|key: Seq<char>| #[trigger]
        after.proposals.contains_key(key) implies is_open(
        after,
        key,
        after.proposals[key],
    ) by {
        assert(is_open(before, key, before.proposals[key]));
    }
}

/// How often `player` is listed.
pub open spec fn times_listed(
    players: Seq<(Seq<char>, usize)>,
    player: (Seq<char>, usize),
) -> nat
    decreases players.len(),
{
    if players.len() == 0 {
        0
    } else {
        times_listed(players.drop_last(), player) + if players.last() == player {
            1nat
        } else {
            0nat
        }
    }
}

/// When a client is gone, each player loses as many connections as the client spoke for them, but none
/// falls below zero; nothing else changes, and what always holds of the lobbies holds on.
pub proof fn law_disconnect_counts(
    lobbies: Map<Seq<char>, LobbyView>,
    players: Seq<(Seq<char>, usize)>,
)
    ensures
        ({
            let after = after_drops(lobbies, players);
            &&& after.dom() == lobbies.dom()
            &&& forall|key: Seq<char>| #[trigger]
                lobbies.contains_key(key) ==> after[key] == (LobbyView {
                    players: after[key].players,
                    ..lobbies[key]
                }) && after[key].players.dom() == lobbies[key].players.dom()
            &&& forall|key: Seq<char>, id: usize| #[trigger]
                is_player(lobbies, (key, id)) ==> after[key].players[id] == (PlayerView {
                    connection_count: count_left(
                        lobbies[key].players[id].connection_count,
                        times_listed(players, (key, id)),
                    ),
                    ..lobbies[key].players[id]
                })
            &&& lobbies_inv(lobbies) ==> lobbies_inv(after)
        }),
    decreases players.len(),
{
    let after = after_drops(lobbies, players);
    if players.len() > 0 {
        let earlier = players.drop_last();
        let last = players.last();
        let now = after_drops(lobbies, earlier);
        law_disconnect_counts(lobbies, earlier);
        assert forall|key: Seq<char>| now.contains_key(key) == lobbies.contains_key(key) by {
            assert(now.dom().contains(key) == lobbies.dom().contains(key));
        }
        assert(after.dom() =~= lobbies.dom());
        assert forall|key: Seq<char>| #[trigger] lobbies.contains_key(key) implies after[key] == (
        LobbyView { players: after[key].players, ..lobbies[key] }) && after[key].players.dom()
            == lobbies[key].players.dom() by {
            assert(after[key].players.dom() =~= now[key].players.dom());
        }
        assert forall|key: Seq<char>, id: usize| #[trigger]
            is_player(lobbies, (key, id)) implies after[key].players[id] == (PlayerView {
            connection_count: count_left(
                lobbies[key].players[id].connection_count,
                times_listed(players, (key, id)),
            ),
            ..lobbies[key].players[id]
        }) by {
            assert(now[key].players.dom() == lobbies[key].players.dom());
            assert(now[key].players.dom().contains(id));
            assert(is_player(now, (key, id)));
        }
    }
    if lobbies_inv(lobbies) {
        assert forall|key: Seq<char>| #[trigger] after.contains_key(key) implies after[key].id == key
            && lobby_inv(after[key]) by {
            assert(after.dom().contains(key));
            assert(lobbies.dom().contains(key));
            assert(lobbies.contains_key(key));
            assert forall|id: usize| #[trigger] after[key].players.contains_key(id) implies {
                &&& after[key].players[id].id == lobbies[key].players[id].id
                &&& after[key].players[id].name == lobbies[key].players[id].name
                &&& after[key].players[id].player_type == lobbies[key].players[id].player_type
            } by {
                assert(after[key].players.dom().contains(id));
                assert(lobbies[key].players.dom().contains(id));
                assert(is_player(lobbies, (key, id)));
            }
            lemma_same_people(lobbies[key], after[key]);
        }
    }
}

/// What is left of `count` connections once `lost` of them are gone.
pub open spec fn count_left(count: usize, lost: nat) -> usize {
    if count > lost {
        (count - lost) as usize
    } else {
        0
    }
}

/// When a client speaks for players, each gains as many connections as it is spoken for, and nothing else
/// changes.
pub proof fn law_connect_counts(
    lobbies: Map<Seq<char>, LobbyView>,
    players: Seq<(Seq<char>, usize)>,
)
    requires
        all_count(lobbies, players),
    ensures
        ({
            let after = after_connects(lobbies, players);
            &&& after.dom() == lobbies.dom()
            &&& forall|key: Seq<char>| #[trigger]
                lobbies.contains_key(key) ==> after[key] == (LobbyView {
                    players: after[key].players,
                    ..lobbies[key]
                }) && after[key].players.dom() == lobbies[key].players.dom()
            &&& forall|key: Seq<char>, id: usize| #[trigger]
                is_player(lobbies, (key, id)) ==> after[key].players[id] == (PlayerView {
                    connection_count: (lobbies[key].players[id].connection_count + times_listed(
                        players,
                        (key, id),
                    )) as usize,
                    ..lobbies[key].players[id]
                })
        }),
    decreases players.len(),
{
    let after = after_connects(lobbies, players);
    if players.len() > 0 {
        let earlier = players.drop_last();
        let last = players.last();
        let now = after_connects(lobbies, earlier);
        assert forall|i: int| 0 <= i < earlier.len() implies is_player(
            lobbies,
            #[trigger] earlier[i],
        ) by {
            assert(is_player(lobbies, players[i]));
        }
        assert forall|key: Seq<char>, id: usize| #[trigger]
            is_player(lobbies, (key, id)) implies lobbies[key].players[id].connection_count
            + times_listed(earlier, (key, id)) <= usize::MAX by {
            assert(times_listed(earlier, (key, id)) <= times_listed(players, (key, id)));
        }
        law_connect_counts(lobbies, earlier);
        assert(is_player(lobbies, players[players.len() - 1]));
        assert forall|key: Seq<char>| now.contains_key(key) == lobbies.contains_key(key) by {
            assert(now.dom().contains(key) == lobbies.dom().contains(key));
        }
        assert(now[last.0].players.dom() == lobbies[last.0].players.dom());
        assert(after.dom() =~= lobbies.dom());
        assert forall|key: Seq<char>| #[trigger] lobbies.contains_key(key) implies after[key] == (
        LobbyView { players: after[key].players, ..lobbies[key] }) && after[key].players.dom()
            == lobbies[key].players.dom() by {
            assert(now[last.0].players.dom().contains(last.1));
            assert(after[key].players.dom() =~= now[key].players.dom());
        }
        assert forall|key: Seq<char>, id: usize| #[trigger]
            is_player(lobbies, (key, id)) implies after[key].players[id] == (PlayerView {
            connection_count: (lobbies[key].players[id].connection_count + times_listed(
                players,
                (key, id),
            )) as usize,
            ..lobbies[key].players[id]
        }) by {
            assert(lobbies[key].players[id].connection_count + times_listed(players, (key, id))
                <= usize::MAX);
        }
    }
}

/// All of `players` are players, and their connections can be counted for each time they are listed.
pub open spec fn all_count(
    lobbies: Map<Seq<char>, LobbyView>,
    players: Seq<(Seq<char>, usize)>,
) -> bool {
    &&& forall|i: int| 0 <= i < players.len() ==> is_player(lobbies, #[trigger] players[i])
    &&& forall|key: Seq<char>, id: usize| #[trigger]
        is_player(lobbies, (key, id)) ==> lobbies[key].players[id].connection_count
            + times_listed(players, (key, id)) <= usize::MAX
}

/// A client that comes, speaks for players however often, and goes leaves the lobbies as they were.
pub proof fn law_connect_then_drop(
    lobbies: Map<Seq<char>, LobbyView>,
    players: Seq<(Seq<char>, usize)>,
)
    requires
        all_count(lobbies, players),
    ensures
        after_drops(after_connects(lobbies, players), players) == lobbies,
{
    let connected = after_connects(lobbies, players);
    let back = after_drops(connected, players);
    law_connect_counts(lobbies, players);
    law_disconnect_counts(connected, players);
    assert forall|key: Seq<char>| back.contains_key(key) == lobbies.contains_key(key) by {
        assert(back.dom().contains(key) == lobbies.dom().contains(key));
    }
    assert forall|key: Seq<char>| #[trigger] lobbies.contains_key(key) implies back[key]
        == lobbies[key] by {
        assert(connected.dom().contains(key));
        assert(connected.contains_key(key));
        assert forall|id: usize| lobbies[key].players.contains_key(
            id,
        ) implies back[key].players[id] == lobbies[key].players[id] by {
            assert(is_player(lobbies, (key, id)));
            assert(connected[key].players.dom().contains(id));
            assert(is_player(connected, (key, id)));
        }
        assert(back[key].players.dom() =~= lobbies[key].players.dom());
        assert(back[key].players =~= lobbies[key].players);
    }
    assert(back =~= lobbies);
}

/// Some connection that listens to a lobby is reached through `channel`.
pub open spec fn listens(mgr: LobbyManagerView, lobby_id: Seq<char>, channel: int) -> bool {
    exists|i: int|
        0 <= i < listeners(mgr, lobby_id).len() && (#[trigger] listeners(
            mgr,
            lobby_id,
        )[i]).channel() == channel
}

/// `msg` was sent through `channel`: to one of `kept`, which took it, or to one of `dropped`, which did
/// not.
pub open spec fn sent_through(
    kept: Seq<WsConnection>,
    dropped: Seq<WsConnection>,
    msg: Seq<char>,
    channel: int,
) -> bool {
    exists|conn: WsConnection, taken: bool|
        {
            &&& conn.channel() == channel
            &&& #[trigger] last_sent(conn, msg, taken)
            &&& if taken {
                kept.contains(conn)
            } else {
                dropped.contains(conn)
            }
        }
}

/// The last message that was sent to `conn` is `msg`, and it was taken or was not.
pub open spec fn last_sent(conn: WsConnection, msg: Seq<char>, taken: bool) -> bool {
    conn.sends().len() > 0 && conn.sends().last() == (msg, taken)
}

/// A client that is put on the list of those who listen to a lobby listens to it, as does everyone who did
/// before.
pub proof fn law_listener_listed(
    mgr: LobbyManagerView,
    lobby_id: Seq<char>,
    conn: WsConnection,
    channel: int,
)
    ensures
        listens(with_listener(mgr, lobby_id, conn), lobby_id, channel) <==> listens(
            mgr,
            lobby_id,
            channel,
        ) || channel == conn.channel(),
{
    let before = listeners(mgr, lobby_id);
    let after = with_listener(mgr, lobby_id, conn);
    let list = listeners(after, lobby_id);
    assert(list == before.push(conn));
    assert(list[before.len() as int] == conn);
    if listens(mgr, lobby_id, channel) {
        let i = choose|i: int|
            0 <= i < before.len() && (#[trigger] before[i]).channel() == channel;
        assert(list[i] == before[i]);
    }
    if listens(after, lobby_id, channel) && channel != conn.channel() {
        let i = choose|i: int| 0 <= i < list.len() && (#[trigger] list[i]).channel() == channel;
        assert(before[i] == list[i]);
    }
}

/// What is sent to a lobby is sent through the channel of everyone who listens to it. Who takes it listens
/// on, and nobody else comes to listen.
pub proof fn law_listener_hears(
    mgr: LobbyManagerView,
    lobby_id: Seq<char>,
    kept: Seq<WsConnection>,
    dropped: Seq<WsConnection>,
    msg: Seq<char>,
    channel: int,
)
    requires
        delivered(listeners(mgr, lobby_id), kept, dropped, msg),
    ensures
        listens(mgr, lobby_id, channel) ==> sent_through(kept, dropped, msg, channel),
        ({
            let told = LobbyManagerView {
                websocket_connections: mgr.websocket_connections.insert(lobby_id, kept),
                ..mgr
            };
            &&& listens(told, lobby_id, channel) ==> listens(mgr, lobby_id, channel)
            &&& forall|conn: WsConnection| #[trigger]
                kept.contains(conn) && conn.channel() == channel ==> listens(
                    told,
                    lobby_id,
                    channel,
                )
        }),
{
    let list = listeners(mgr, lobby_id);
    if listens(mgr, lobby_id, channel) {
        let i = choose|i: int| 0 <= i < list.len() && (#[trigger] list[i]).channel() == channel;
        lemma_sent_through(list, kept, dropped, msg, i);
    }
    let told = LobbyManagerView {
        websocket_connections: mgr.websocket_connections.insert(lobby_id, kept),
        ..mgr
    };
    assert(listeners(told, lobby_id) == kept);
    if listens(told, lobby_id, channel) {
        let j = choose|j: int| 0 <= j < kept.len() && (#[trigger] kept[j]).channel() == channel;
        let (kept_from, dropped_from) = choose|kept_from: Seq<int>, dropped_from: Seq<int>|
            #[trigger]
            delivered_from(list, kept, kept_from, dropped, dropped_from, msg);
        assert(was_sent(list[kept_from[j]], kept[j], msg, true));
        assert(list[kept_from[j]].channel() == channel);
    }
    assert forall|conn: WsConnection| #[trigger]
        kept.contains(conn) && conn.channel() == channel implies listens(
        told,
        lobby_id,
        channel,
    ) by {
        let j = choose|j: int| 0 <= j < kept.len() && kept[j] == conn;
        assert(listeners(told, lobby_id)[j].channel() == channel);
    }
}

/// What was delivered was sent through the channel of each who listened.
proof fn lemma_sent_through(
    before: Seq<WsConnection>,
    kept: Seq<WsConnection>,
    dropped: Seq<WsConnection>,
    msg: Seq<char>,
    i: int,
)
    requires
        delivered(before, kept, dropped, msg),
        0 <= i < before.len(),
    ensures
        sent_through(kept, dropped, msg, before[i].channel()),
{
    law_delivered_to_each(before, kept, dropped, msg, i);
    let (conn, taken) = choose|conn: WsConnection, taken: bool| #[trigger]
        was_sent(before[i], conn, msg, taken) && if taken {
            kept.contains(conn)
        } else {
            dropped.contains(conn)
        };
    assert(last_sent(conn, msg, taken));
}

/// It holds once a client was heard to speak for a player.
pub proof fn law_connect(mgr: LobbyManagerView, key: Seq<char>, id: usize)
    requires
        server_inv(mgr),
        is_player(mgr.lobbies, (key, id)),
    ensures
        server_inv(LobbyManagerView { lobbies: after_connect(mgr.lobbies, (key, id)), ..mgr }),
{
    let l = mgr.lobbies[key];
    law_presence_changes(l.players[id], true);
    law_presence(l, id, one_more_connection(l.players[id]));
    law_change_lobby(mgr, key, with_player(l, id, one_more_connection(l.players[id])));
}

/// It holds once a client is gone.
pub proof fn law_disconnect(mgr: LobbyManagerView, players: Seq<(Seq<char>, usize)>)
    requires
        server_inv(mgr),
    ensures
        server_inv(LobbyManagerView { lobbies: after_drops(mgr.lobbies, players), ..mgr }),
{
    law_disconnect_counts(mgr.lobbies, players);
    let after = LobbyManagerView { lobbies: after_drops(mgr.lobbies, players), ..mgr };
    assert forall|t: Seq<u8>, k: Seq<char>, id: usize|
        players_of(after, t).contains((k, id)) <==> #[trigger] goes_by(
            after.lobbies,
            t,
            k,
            id,
        ) by {
        assert(players_of(mgr, t).contains((k, id)) <==> goes_by(mgr.lobbies, t, k, id));
        assert(after.lobbies.dom().contains(k) == mgr.lobbies.dom().contains(k));
        if mgr.lobbies.contains_key(k) {
            assert(after.lobbies[k].token_player == mgr.lobbies[k].token_player);
        }
    }
}

/// A lobby is found under its identifier, in whatever letter case that is written.
pub proof fn law_lobby_found(
    mgr: LobbyManagerView,
    name: Seq<char>,
    public: bool,
    id: [u8; 16],
    lobby_token: Seq<u8>,
    written: Seq<char>,
)
    requires
        is_ascii_chars(written),
        written.map_values(|c: char| ascii_lower(c)) == hex_text(id@),
    ensures
        ({
            let lobby = new_lobby(name, public, id@, lobby_token);
            let after = with_lobby(mgr, lobby);
            &&& after.lobbies.contains_key(lowercase(written))
            &&& after.lobbies[lowercase(written)] == lobby
        }),
{
}

/// An identifier that the server drew is read as it was written.
pub proof fn law_id_in_lower_case(id: [u8; 16])
    ensures
        lowercase(hex_text(id@)) == hex_text(id@),
{
    law_hex_round_trip(id@);
    let text = hex_text(id@);
    assert forall|i: int| 0 <= i < text.len() implies !('A' <= #[trigger] text[i] <= 'Z')
        && text[i] as int <= 0x7f by {
        assert(is_lower_hex(text[i]));
    }
    lemma_lowercase_fixed(text);
}

/// The log of a match can be had from where it was kept once the match is over, and not before.
pub proof fn law_log_kept<S>(
    matches: Map<Seq<char>, MatchData<S>>,
    match_id: Seq<char>,
    log_stream: S,
    log_path: PathBuf,
)
    ensures
        ({
            let running = matches.insert(match_id, MatchData::InProgress { log_stream });
            let over = running.insert(match_id, MatchData::Finished { log_path });
            &&& kept_log(running, match_id) is None
            &&& kept_log(over, match_id) == Some(log_path)
        }),
{
}

/// How often someone is listed grows by one exactly when they are listed once more, and what is left of a
/// count is what was not lost of it.
pub proof fn law_times_listed(
    players: Seq<(Seq<char>, usize)>,
    next: (Seq<char>, usize),
    player: (Seq<char>, usize),
    count: usize,
    lost: nat,
)
    ensures
        times_listed(Seq::empty(), player) == 0,
        next == player ==> times_listed(players.push(next), player) == times_listed(players, player)
            + 1,
        next != player ==> times_listed(players.push(next), player) == times_listed(players, player),
        times_listed(players, player) > 0 <==> players.contains(player),
        lost <= count ==> count_left(count, lost) == count - lost,
        lost >= count ==> count_left(count, lost) == 0,
    decreases players.len(),
{
    assert(players.push(next).drop_last() =~= players);
    if players.len() > 0 {
        let earlier = players.drop_last();
        let last = players.last();
        law_times_listed(earlier, last, player, count, lost);
        assert(players =~= earlier.push(last));
        if players.contains(player) {
            let i = choose|i: int| 0 <= i < players.len() && players[i] == player;
            if i < earlier.len() {
                assert(earlier[i] == player);
            }
        }
        if earlier.contains(player) {
            let i = choose|i: int| 0 <= i < earlier.len() && earlier[i] == player;
            assert(players[i] == player);
        }
        if last == player {
            assert(players[players.len() - 1] == player);
        }
    }
}

/// Someone listens through a channel exactly if one of those on the lobby's list is reached through it. What
/// was sent through a channel was sent last to a connection that is reached through it.
pub proof fn law_listens(
    mgr: LobbyManagerView,
    lobby_id: Seq<char>,
    kept: Seq<WsConnection>,
    dropped: Seq<WsConnection>,
    msg: Seq<char>,
    channel: int,
    i: int,
)
    ensures
        listens(mgr, lobby_id, channel) ==> exists|j: int|
            0 <= j < listeners(mgr, lobby_id).len() && (#[trigger] listeners(
                mgr,
                lobby_id,
            )[j]).channel() == channel,
        0 <= i < listeners(mgr, lobby_id).len() ==> listens(
            mgr,
            lobby_id,
            listeners(mgr, lobby_id)[i].channel(),
        ),
        sent_through(kept, dropped, msg, channel) ==> exists|conn: WsConnection|
            #![trigger conn.channel()]
            {
                &&& conn.channel() == channel
                &&& conn.sends().len() > 0
                &&& conn.sends().last().0 == msg
                &&& conn.sends().last().1 ==> kept.contains(conn)
                &&& !conn.sends().last().1 ==> dropped.contains(conn)
            },
{
}

} // verus!
