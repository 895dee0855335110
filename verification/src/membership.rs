//! Who is in a lobby, how they prove it, and whether they are there.

use vstd::prelude::*;

use crate::error::{LobbyApiError, LobbyApiResult};
use crate::lobby::{
    player_data, Lobby, LobbyView, Player, PlayerData, PlayerType, PlayerTypeView, PlayerView,
};
use crate::table::{as_map, distinct_keys, lemma_entry, lemma_key, Duplicate};
use crate::text::strip_prefix;
use crate::token::{parse_auth, token_of, Token};

verus! {

/// What an `authorization` header begins with.
pub const AUTH_SCHEME: &'static str = "Bearer ";

/// The text of an optional header.
pub open spec fn header_text(header: Option<String>) -> Option<Seq<char>> {
    match header {
        Some(text) => Some(text@),
        None => None,
    }
}

/// The token that an `authorization` header carries.
pub open spec fn bearer_token(header: Option<Seq<char>>) -> Option<Seq<u8>> {
    match header {
        Some(text) => if AUTH_SCHEME@.is_prefix_of(text) {
            token_of(text.skip(AUTH_SCHEME@.len() as int))
        } else {
            None
        },
        None => None,
    }
}

/// The player who sends `header`.
pub open spec fn authenticated(l: LobbyView, header: Option<Seq<char>>) -> Option<usize> {
    match bearer_token(header) {
        Some(token) => if l.token_player.contains_key(token) {
            Some(l.token_player[token])
        } else {
            None
        },
        None => None,
    }
}

/// Finds the player who sent an `authorization` header.
pub fn auth_player(auth: &Option<String>, lobby: &Lobby) -> (player: Option<usize>)
    ensures
        player == authenticated(lobby@, header_text(*auth)),
{
    let text = match auth {
        Some(text) => text,
        None => return None,
    };
    let hex_token = match strip_prefix(text.as_str(), AUTH_SCHEME) {
        Some(rest) => rest,
        None => {
            proof {
                if AUTH_SCHEME@.is_prefix_of(text@) {
                    assert(text@ =~= AUTH_SCHEME@ + text@.skip(AUTH_SCHEME@.len() as int));
                }
            }
            return None;
        },
    };
    assert(AUTH_SCHEME@.is_prefix_of(text@));
    assert(hex_token@ =~= text@.skip(AUTH_SCHEME@.len() as int));
    match parse_auth(hex_token) {
        Some(token) => match lobby.token_player.get(&token) {
            Some(player_id) => Some(*player_id),
            None => None,
        },
        None => None,
    }
}

/// Who wants to join a lobby.
#[derive(Debug)]
pub struct PlayerParams {
    pub name: String,
    pub token: Token,
}

/// Some player goes by `name`.
pub open spec fn name_taken(l: LobbyView, name: Seq<char>) -> bool {
    exists|id: usize| #[trigger] l.players.contains_key(id) && l.players[id].name == name
}

/// The player with `token` goes by `name`.
pub open spec fn owns_name(l: LobbyView, token: Seq<u8>, name: Seq<char>) -> bool {
    l.token_player.contains_key(token) && l.players[l.token_player[token]].name == name
}

/// `name` is free, or the one who asks for it has it already.
pub open spec fn name_available(l: LobbyView, token: Seq<u8>, name: Seq<char>) -> bool {
    !name_taken(l, name) || owns_name(l, token, name)
}

/// The number of the player with `token`: the one they have, else the next one.
pub open spec fn joining_id(l: LobbyView, token: Seq<u8>) -> usize {
    if l.token_player.contains_key(token) {
        l.token_player[token]
    } else {
        l.next_player_id
    }
}

/// The player who joins.
pub open spec fn joining_player(
    l: LobbyView,
    name: Seq<char>,
    token: Seq<u8>,
    client_connected: bool,
) -> PlayerView {
    PlayerView {
        id: joining_id(l, token),
        name,
        player_type: PlayerTypeView::External { token },
        connection_count: 0,
        client_connected,
    }
}

/// The lobby once the player with `token` has joined, or joined again, as `name`.
pub open spec fn joined(
    l: LobbyView,
    name: Seq<char>,
    token: Seq<u8>,
    client_connected: bool,
) -> LobbyView {
    let player = joining_player(l, name, token, client_connected);
    LobbyView {
        next_player_id: if l.token_player.contains_key(token) {
            l.next_player_id
        } else {
            (l.next_player_id + 1) as usize
        },
        token_player: l.token_player.insert(token, player.id),
        players: l.players.insert(player.id, player),
        ..l
    }
}

/// There is a number left for the player with `token`.
pub open spec fn has_room(l: LobbyView, token: Seq<u8>) -> bool {
    l.token_player.contains_key(token) || l.next_player_id < usize::MAX
}

/// The lobby with `player` in place of the player of that number.
pub open spec fn with_player(l: LobbyView, id: usize, player: PlayerView) -> LobbyView {
    LobbyView { players: l.players.insert(id, player), ..l }
}

/// `player` with one connection more.
pub open spec fn one_more_connection(player: PlayerView) -> PlayerView {
    PlayerView { connection_count: (player.connection_count + 1) as usize, ..player }
}

/// `player` with one connection fewer, but never fewer than none.
pub open spec fn one_less_connection(player: PlayerView) -> PlayerView {
    PlayerView {
        connection_count: if player.connection_count > 0 {
            (player.connection_count - 1) as usize
        } else {
            0
        },
        ..player
    }
}

/// `player` with a client that is there, or is not.
pub open spec fn with_client(player: PlayerView, connected: bool) -> PlayerView {
    PlayerView { client_connected: connected, ..player }
}

impl Lobby {
    /// Whether some player goes by `name`.
    fn is_name_taken(&self, name: &String) -> (taken: bool)
        ensures
            taken == name_taken(self@, name@),
    {
        let entries = self.players.entries();
        let n = entries.len();
        let mut i: usize = 0;
        while i < n
            invariant
                n == entries@.len(),
                i <= n,
                distinct_keys(entries@),
                self@.players == as_map(entries@),
                forall|j: int| 0 <= j < i ==> (#[trigger] entries@[j]).1@.name != name@,
            decreases n - i,
        {
            if entries[i].1.name == *name {
                proof {
                    lemma_entry(entries@, i as int);
                    assert(self@.players.contains_key(entries@[i as int].0@));
                }
                return true;
            }
            i += 1;
        }
        proof {
            if name_taken(self@, name@) {
                let id = choose|id: usize| #[trigger]
                    self@.players.contains_key(id) && self@.players[id].name == name@;
                let j = lemma_key(entries@, id);
            }
        }
        false
    }

    /// Whether the player with `token` may go by `name`.
    pub fn is_name_available(&self, token: &Token, name: &String) -> (available: bool)
        requires
            self@.token_player.contains_key(token@) ==> self@.players.contains_key(
                self@.token_player[token@],
            ),
        ensures
            available == name_available(self@, token@, name@),
    {
        // whether the player sending the request already has this name
        let owns_name = match self.token_player.get(token) {
            Some(player_id) => self.players.get(player_id).unwrap().name == *name,
            None => false,
        };
        !self.is_name_taken(name) || owns_name
    }

    /// Whether there is a number left for the player with `token`.
    pub fn has_room_for(&self, token: &Token) -> (room: bool)
        ensures
            room == has_room(self@, token@),
    {
        self.token_player.contains_key(token) || self.next_player_id < usize::MAX
    }

    /// Lets a player in under a name that nobody else has.
    pub fn join(&mut self, params: PlayerParams, client_connected: bool) -> (res: LobbyApiResult<
        PlayerData,
    >)
        requires
            forall|token: Seq<u8>| #[trigger]
                old(self)@.token_player.contains_key(token) ==> old(self)@.players.contains_key(
                    old(self)@.token_player[token],
                ),
            name_available(old(self)@, params.token@, params.name@) ==> has_room(
                old(self)@,
                params.token@,
            ),
        ensures
            if name_available(old(self)@, params.token@, params.name@) {
                &&& res is Ok
                &&& res->Ok_0@ == player_data(
                    joining_player(old(self)@, params.name@, params.token@, client_connected),
                )
                &&& final(self)@ == joined(
                    old(self)@,
                    params.name@,
                    params.token@,
                    client_connected,
                )
                &&& res->Ok_0.name@ == params.name@
                &&& res->Ok_0.id == if old(self)@.token_player.contains_key(params.token@) {
                    old(self)@.token_player[params.token@]
                } else {
                    old(self)@.next_player_id
                }
                &&& !res->Ok_0.connected
                &&& res->Ok_0.client_connected == client_connected
            } else {
                &&& res == LobbyApiResult::<PlayerData>::Err(LobbyApiError::NameTaken)
                &&& final(self)@ == old(self)@
            },
    {
        if !self.is_name_available(&params.token, &params.name) {
            return Err(LobbyApiError::NameTaken);
        }
        let known: Option<usize> = match self.token_player.get(&params.token) {
            Some(player_id) => Some(*player_id),
            None => None,
        };
        let player_id = match known {
            Some(player_id) => player_id,
            None => {
                let id = self.next_player_id;
                self.next_player_id += 1;
                id
            },
        };
        let player = Player {
            id: player_id,
            name: params.name,
            player_type: PlayerType::External { token: params.token },
            connection_count: 0,
            client_connected,
        };
        self.token_player.insert(params.token, player_id);
        self.players.insert(player_id, player.duplicate());
        Ok(PlayerData::from(player))
    }

    /// Counts a connection that a player has proved to be theirs. What the others are to be told of
    /// it, if it is the player's first.
    pub fn add_connection(&mut self, player_id: usize) -> (update: Option<PlayerData>)
        requires
            old(self)@.players.contains_key(player_id),
            old(self)@.players[player_id].connection_count < usize::MAX,
        ensures
            final(self)@ == with_player(
                old(self)@,
                player_id,
                one_more_connection(old(self)@.players[player_id]),
            ),
            ({
                let player = one_more_connection(old(self)@.players[player_id]);
                if player.connection_count == 1 {
                    update is Some && update->0@ == player_data(player)
                } else {
                    update is None
                }
            }),
    {
        let mut player = self.players.get(&player_id).unwrap().duplicate();
        player.connection_count += 1;
        self.players.insert(player_id, player.duplicate());
        if player.connection_count == 1 {
            Some(PlayerData::from(player))
        } else {
            None
        }
    }

    /// Counts a connection of a player that was lost. What the others are to be told of it, if the
    /// player has none left.
    pub fn drop_connection(&mut self, player_id: usize) -> (update: Option<PlayerData>)
        ensures
            if old(self)@.players.contains_key(player_id) {
                let player = one_less_connection(old(self)@.players[player_id]);
                &&& final(self)@ == with_player(old(self)@, player_id, player)
                &&& if player.connection_count == 0 {
                    update is Some && update->0@ == player_data(player)
                } else {
                    update is None
                }
            } else {
                final(self)@ == old(self)@ && update is None
            },
    {
        let mut player = match self.players.get(&player_id) {
            Some(player) => player.duplicate(),
            None => return None,
        };
        if player.connection_count > 0 {
            player.connection_count -= 1;
        }
        self.players.insert(player_id, player.duplicate());
        if player.connection_count == 0 {
            Some(PlayerData::from(player))
        } else {
            None
        }
    }

    /// Takes down whether a player's client is there. What the others are to be told of it.
    pub fn set_client(&mut self, player_id: usize, connected: bool) -> (update: Option<PlayerData>)
        ensures
            if old(self)@.players.contains_key(player_id) {
                let player = with_client(old(self)@.players[player_id], connected);
                &&& final(self)@ == with_player(old(self)@, player_id, player)
                &&& update is Some
                &&& update->0@ == player_data(player)
            } else {
                final(self)@ == old(self)@ && update is None
            },
    {
        let mut player = match self.players.get(&player_id) {
            Some(player) => player.duplicate(),
            None => return None,
        };
        player.client_connected = connected;
        self.players.insert(player_id, player.duplicate());
        Some(PlayerData::from(player))
    }
}

} // verus!
