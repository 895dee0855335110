//! What becomes of the players of a lobby, said of each part of them.

use vstd::prelude::*;

use crate::lobby::{player_data, LobbyView, PlayerTypeView, PlayerView};
use crate::membership::{
    authenticated, bearer_token, has_room, header_text, joined, joining_id, joining_player,
    name_available, one_less_connection, one_more_connection, with_client, with_player,
};
use crate::proposal_laws::same_but_players;
use crate::token::token_of;

verus! {

/// A header carries a token exactly if it is the word `Bearer`, a space, and then the token's digits.
pub proof fn law_bearer_token(header: Option<String>, digits: Seq<char>)
    ensures
        header is None ==> bearer_token(header_text(header)) is None,
        header is Some && header->0@ == "Bearer "@ + digits ==> bearer_token(header_text(header))
            == token_of(digits),
        header is Some && bearer_token(header_text(header)) is Some ==> "Bearer "@.is_prefix_of(
            header->0@,
        ) && header->0@ == "Bearer "@ + header->0@.skip(7) && token_of(header->0@.skip(7))
            == bearer_token(header_text(header)),
{
    reveal_strlit("Bearer ");
    if header is Some {
        let text = header->0@;
        if text == "Bearer "@ + digits {
            assert("Bearer "@.is_prefix_of(text));
            assert(text.skip(7) =~= digits);
        }
        if "Bearer "@.is_prefix_of(text) {
            assert(text =~= "Bearer "@ + text.skip(7));
        }
    }
}

/// Who sends a header is the player who goes by the token that it carries. A header without a token, or with
/// one that nobody in the lobby goes by, is nobody's.
pub proof fn law_authenticated(l: LobbyView, header: Option<Seq<char>>)
    ensures
        bearer_token(header) is None ==> authenticated(l, header) is None,
        bearer_token(header) matches Some(token) ==> {
            &&& authenticated(l, header) is Some <==> l.token_player.contains_key(token)
            &&& l.token_player.contains_key(token) ==> authenticated(l, header) == Some(
                l.token_player[token],
            )
        },
{
}

/// A name can be had exactly if nobody in the lobby has it, or if who asks for it has it already.
pub proof fn law_name_available(l: LobbyView, token: Seq<u8>, name: Seq<char>)
    ensures
        name_available(l, token, name) <==> {
            ||| forall|id: usize| #[trigger] l.players.contains_key(id) ==> l.players[id].name != name
            ||| l.token_player.contains_key(token) && l.players[l.token_player[token]].name == name
        },
{
}

/// There is room for who has joined before, and for anyone else until the last number was given out.
pub proof fn law_room(l: LobbyView, token: Seq<u8>)
    ensures
        has_room(l, token) <==> l.token_player.contains_key(token) || l.next_player_id != usize::MAX,
{
}

/// Who joins is let in under their name and token, without a connection, and with a client if that is there.
/// Who goes by the token already keeps their number; anyone else gets the next one. All others, and
/// everything else in the lobby, stay as they were.
pub proof fn law_joined(l: LobbyView, name: Seq<char>, token: Seq<u8>, client_connected: bool)
    requires
        has_room(l, token),
    ensures
        ({
            let after = joined(l, name, token, client_connected);
            let id = after.token_player[token];
            let again = l.token_player.contains_key(token);
            &&& after.token_player.contains_key(token)
            &&& again ==> id == l.token_player[token] && after.next_player_id == l.next_player_id
            &&& !again ==> id == l.next_player_id && after.next_player_id == l.next_player_id + 1
            &&& id == joining_id(l, token)
            &&& after.players.contains_key(id)
            &&& after.players[id].id == id
            &&& after.players[id].name == name
            &&& after.players[id].player_type == (PlayerTypeView::External { token })
            &&& after.players[id].connection_count == 0
            &&& after.players[id].client_connected == client_connected
            &&& after.players[id] == joining_player(l, name, token, client_connected)
            &&& forall|other: usize|
                other != id ==> (#[trigger] after.players.contains_key(other)
                    == l.players.contains_key(other)) && after.players[other] == l.players[other]
            &&& forall|other: Seq<u8>|
                other != token ==> (#[trigger] after.token_player.contains_key(other)
                    == l.token_player.contains_key(other)) && after.token_player[other]
                    == l.token_player[other]
            &&& same_but_players(l, after)
        }),
{
}

/// A player in place of another changes nothing else in the lobby.
pub proof fn law_one_player_changed(l: LobbyView, id: usize, player: PlayerView)
    ensures
        ({
            let after = with_player(l, id, player);
            &&& after.players.contains_key(id)
            &&& after.players[id] == player
            &&& forall|other: usize|
                other != id ==> (#[trigger] after.players.contains_key(other)
                    == l.players.contains_key(other)) && after.players[other] == l.players[other]
            &&& after.next_player_id == l.next_player_id
            &&& after.token_player == l.token_player
            &&& same_but_players(l, after)
        }),
{
}

/// A connection counts one, and one that is lost counts one less, but none is lost where none is. Neither
/// touches who the player is, or their client.
pub proof fn law_connections_counted(player: PlayerView)
    ensures
        player.connection_count < usize::MAX ==> one_more_connection(player).connection_count
            == player.connection_count + 1,
        player.connection_count > 0 ==> one_less_connection(player).connection_count
            == player.connection_count - 1,
        player.connection_count == 0 ==> one_less_connection(player).connection_count == 0,
        one_more_connection(player).id == player.id,
        one_more_connection(player).name == player.name,
        one_more_connection(player).player_type == player.player_type,
        one_more_connection(player).client_connected == player.client_connected,
        one_less_connection(player).id == player.id,
        one_less_connection(player).name == player.name,
        one_less_connection(player).player_type == player.player_type,
        one_less_connection(player).client_connected == player.client_connected,
{
}

/// A client that comes or goes changes whether it is there, and nothing else of the player.
pub proof fn law_client_noted(player: PlayerView, connected: bool)
    ensures
        with_client(player, connected).client_connected == connected,
        with_client(player, connected).id == player.id,
        with_client(player, connected).name == player.name,
        with_client(player, connected).player_type == player.player_type,
        with_client(player, connected).connection_count == player.connection_count,
{
}

/// Once a connection was counted, the player is shown as connected. They are until as many were lost as were
/// counted. What becomes of their client alone never changes whether they are shown as connected, and what
/// becomes of their connections never changes whether they are shown with a client.
pub proof fn law_presence_shown(player: PlayerView, client: bool)
    ensures
        player.connection_count < usize::MAX ==> player_data(one_more_connection(player)).connected,
        player_data(one_less_connection(player)).connected <==> player.connection_count >= 2,
        player_data(with_client(player, client)).connected == player_data(player).connected,
        player_data(with_client(player, client)).client_connected == client,
        player_data(one_more_connection(player)).client_connected == player.client_connected,
        player_data(one_less_connection(player)).client_connected == player.client_connected,
{
}

} // verus!
