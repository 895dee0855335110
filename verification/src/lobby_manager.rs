//! All lobbies of the server, and who is to be told of what happens in them.

use vstd::prelude::*;

use crate::event::{lemma_notice_push, notice_views, LobbyEvent, LobbyEventView, Notice, NoticeView};
use crate::lobby::{
    player_data, Lobby, LobbyConfig, LobbyView, MatchMetaView, MatchStatus, PlayerView,
    PwMapDataView,
};
use crate::lobby_laws::law_finish;
use crate::membership::{with_client, with_player};
use crate::proposals::{no_strangers, PwMaps};
use crate::server_laws::{
    goes_by, law_change_lobby, law_client_reaches_all, law_listener_hears, law_open_lobby, listens,
    sent_through, server_inv,
};
use crate::table::{Duplicate, Table};
use crate::token::{hex_text, id_text, random_bytes, Token};
use crate::websocket::{deliver, delivered, WsConnection};

verus! {

/// The players, each named by lobby and number, who go by one token. None is listed twice.
#[derive(Debug)]
pub struct Memberships {
    players: Vec<(String, usize)>,
}

/// What a list of players says.
pub open spec fn player_views(players: Seq<(String, usize)>) -> Seq<(Seq<char>, usize)> {
    players.map_values(|player: (String, usize)| (player.0@, player.1))
}

impl View for Memberships {
    type V = Seq<(Seq<char>, usize)>;

    closed spec fn view(&self) -> Seq<(Seq<char>, usize)> {
        player_views(self.players@)
    }
}

impl Memberships {
    #[verifier::type_invariant]
    spec fn inv(&self) -> bool {
        self@.no_duplicates()
    }

    /// Nobody.
    pub fn new() -> (list: Self)
        ensures
            list@ == Seq::<(Seq<char>, usize)>::empty(),
    {
        let players: Vec<(String, usize)> = Vec::new();
        assert(player_views(players@) =~= Seq::<(Seq<char>, usize)>::empty());
        Memberships { players }
    }

    /// The players.
    pub fn players(&self) -> (players: &Vec<(String, usize)>)
        ensures
            player_views(players@) == self@,
            self@.no_duplicates(),
    {
        proof {
            use_type_invariant(self);
        }
        &self.players
    }

    /// Whether a player is listed.
    pub fn contains(&self, lobby_id: &String, player_id: usize) -> (found: bool)
        ensures
            found == self@.contains((lobby_id@, player_id)),
    {
        let n = self.players.len();
        let mut i: usize = 0;
        while i < n
            invariant
                n == self.players@.len(),
                i <= n,
                forall|j: int| 0 <= j < i ==> #[trigger] self@[j] != (lobby_id@, player_id),
            decreases n - i,
        {
            if self.players[i].0 == *lobby_id && self.players[i].1 == player_id {
                assert(self@[i as int] == (lobby_id@, player_id));
                return true;
            }
            i += 1;
        }
        false
    }

    /// Lists a player, if they are not listed yet.
    pub fn insert(&mut self, lobby_id: String, player_id: usize)
        ensures
            final(self)@ == listed(old(self)@, (lobby_id@, player_id)),
    {
        proof {
            use_type_invariant(&*self);
        }
        if !self.contains(&lobby_id, player_id) {
            let ghost before = self@;
            let mut players: Vec<(String, usize)> = Vec::new();
            std::mem::swap(&mut players, &mut self.players);
            let ghost added = (lobby_id@, player_id);
            players.push((lobby_id, player_id));
            assert(player_views(players@) =~= before.push(added));
            self.players = players;
        }
    }
}

/// `players` with `player` listed.
pub open spec fn listed(
    players: Seq<(Seq<char>, usize)>,
    player: (Seq<char>, usize),
) -> Seq<(Seq<char>, usize)> {
    if players.contains(player) {
        players
    } else {
        players.push(player)
    }
}

/// All lobbies of the server.
#[derive(Debug)]
pub struct LobbyManager {
    pub lobbies: Table<String, Lobby>,
    pub maps: PwMaps,
    pub websocket_connections: Table<String, Vec<WsConnection>>,
    /// token -> {(lobby_id, player_id)}
    pub token_player: Table<Token, Memberships>,
}

pub struct LobbyManagerView {
    pub lobbies: Map<Seq<char>, LobbyView>,
    pub maps: Map<Seq<char>, PwMapDataView>,
    pub websocket_connections: Map<Seq<char>, Seq<WsConnection>>,
    pub token_player: Map<Seq<u8>, Seq<(Seq<char>, usize)>>,
}

impl View for LobbyManager {
    type V = LobbyManagerView;

    open spec fn view(&self) -> LobbyManagerView {
        LobbyManagerView {
            lobbies: self.lobbies@,
            maps: self.maps@,
            websocket_connections: self.websocket_connections@,
            token_player: self.token_player@,
        }
    }
}

/// In no lobby is anybody spoken of who is not there.
pub open spec fn sound(mgr: LobbyManagerView) -> bool {
    forall|key: Seq<char>| #[trigger]
        mgr.lobbies.contains_key(key) ==> no_strangers(mgr.lobbies[key])
}

/// A lobby that nobody has joined yet.
pub open spec fn new_lobby(
    name: Seq<char>,
    public: bool,
    id: Seq<u8>,
    lobby_token: Seq<u8>,
) -> LobbyView {
    LobbyView {
        id: hex_text(id),
        name,
        public,
        next_player_id: 0,
        token_player: Map::empty(),
        players: Map::empty(),
        proposals: Map::empty(),
        matches: Map::empty(),
        lobby_token,
    }
}

impl Lobby {
    /// The lobby that `config` asks for, with the identifier and the token that were drawn for it.
    pub fn with_id(config: LobbyConfig, id: [u8; 16], lobby_token: Token) -> (lobby: Lobby)
        ensures
            lobby@ == new_lobby(config.name@, config.public, id@, lobby_token@),
    {
        Lobby {
            id: id_text(&id),
            name: config.name,
            public: config.public,
            next_player_id: 0,
            players: Table::new(),
            token_player: Table::new(),
            lobby_token,
            proposals: Table::new(),
            matches: Table::new(),
        }
    }
}

/// Which lobby comes is left to chance: see the clause of `from`.
impl vstd::std_specs::convert::FromSpecImpl<LobbyConfig> for Lobby {
    open spec fn obeys_from_spec() -> bool {
        false
    }

    open spec fn from_spec(config: LobbyConfig) -> Lobby {
        arbitrary()
    }
}

impl From<LobbyConfig> for Lobby {
    fn from(config: LobbyConfig) -> (lobby: Lobby)
        ensures
            exists|id: [u8; 16], lobby_token: Token|
                lobby@ == #[trigger] new_lobby(config.name@, config.public, id@, lobby_token@),
    {
        let id = random_bytes();
        let lobby_token = random_bytes();
        Lobby::with_id(config, id, lobby_token)
    }
}

/// The server with `lobby` open in it.
pub open spec fn with_lobby(mgr: LobbyManagerView, lobby: LobbyView) -> LobbyManagerView {
    LobbyManagerView { lobbies: mgr.lobbies.insert(lobby.id, lobby), ..mgr }
}

/// The lobbies once the clients of `players` are there, or are gone.
pub open spec fn with_clients(
    lobbies: Map<Seq<char>, LobbyView>,
    players: Seq<(Seq<char>, usize)>,
    connected: bool,
) -> Map<Seq<char>, LobbyView> {
    lobbies.map_entries(
        |key: Seq<char>, l: LobbyView|
            LobbyView {
                players: l.players.map_entries(
                    |id: usize, player: PlayerView|
                        if players.contains((key, id)) {
                            with_client(player, connected)
                        } else {
                            player
                        },
                ),
                ..l
            },
    )
}

/// `player` is a player of one of `lobbies`.
pub open spec fn is_player(
    lobbies: Map<Seq<char>, LobbyView>,
    player: (Seq<char>, usize),
) -> bool {
    lobbies.contains_key(player.0) && lobbies[player.0].players.contains_key(player.1)
}

/// What is to be told of a player whose client is there, or is gone.
pub open spec fn client_notice(
    lobbies: Map<Seq<char>, LobbyView>,
    player: (Seq<char>, usize),
    connected: bool,
) -> NoticeView {
    NoticeView {
        lobby_id: player.0,
        event: LobbyEventView::PlayerData(
            player_data(with_client(lobbies[player.0].players[player.1], connected)),
        ),
    }
}

/// What is to be told once the clients of `players` are there, or are gone: one notice for each that
/// is a player.
pub open spec fn client_notices(
    lobbies: Map<Seq<char>, LobbyView>,
    players: Seq<(Seq<char>, usize)>,
    connected: bool,
) -> Seq<NoticeView> {
    players.filter(|player: (Seq<char>, usize)| is_player(lobbies, player)).map_values(
        |player: (Seq<char>, usize)| client_notice(lobbies, player, connected),
    )
}

/// The players who go by `token`.
pub open spec fn players_of(mgr: LobbyManagerView, token: Seq<u8>) -> Seq<(Seq<char>, usize)> {
    if mgr.token_player.contains_key(token) {
        mgr.token_player[token]
    } else {
        Seq::empty()
    }
}

/// `meta` once its match is over.
pub open spec fn done(meta: MatchMetaView) -> MatchMetaView {
    MatchMetaView { status: MatchStatus::Done, ..meta }
}

/// The lobby `lobby_id` is there and lists the match `match_id`.
pub open spec fn lists_match(
    mgr: LobbyManagerView,
    lobby_id: Seq<char>,
    match_id: Seq<char>,
) -> bool {
    mgr.lobbies.contains_key(lobby_id) && mgr.lobbies[lobby_id].matches.contains_key(match_id)
}

/// The lobby once its match `match_id` is over.
pub open spec fn with_match_done(l: LobbyView, match_id: Seq<char>) -> LobbyView {
    LobbyView { matches: l.matches.insert(match_id, done(l.matches[match_id])), ..l }
}

/// What is said of lobbies depends on the lobbies alone.
proof fn lemma_same_lobbies(before: LobbyManagerView, after: LobbyManagerView)
    requires
        before.lobbies == after.lobbies,
        before.token_player == after.token_player,
    ensures
        sound(before) ==> sound(after),
        server_inv(before) ==> server_inv(after),
{
    if sound(before) {
        assert forall|key: Seq<char>| #[trigger]
            after.lobbies.contains_key(key) implies no_strangers(after.lobbies[key]) by {
            assert(before.lobbies.contains_key(key));
        }
    }
    if server_inv(before) {
        assert forall|token: Seq<u8>, key: Seq<char>, id: usize|
            players_of(after, token).contains((key, id)) <==> #[trigger] goes_by(
                after.lobbies,
                token,
                key,
                id,
            ) by {
            assert(players_of(before, token).contains((key, id)) <==> goes_by(
                before.lobbies,
                token,
                key,
                id,
            ));
        }
    }
}

/// Hearing of clients brings in nobody unknown.
proof fn lemma_clients_sound(
    mgr: LobbyManagerView,
    players: Seq<(Seq<char>, usize)>,
    connected: bool,
)
    requires
        sound(mgr),
    ensures
        sound(
            LobbyManagerView { lobbies: with_clients(mgr.lobbies, players, connected), ..mgr },
        ),
{
    let after = with_clients(mgr.lobbies, players, connected);
    assert forall|key: Seq<char>| #[trigger] after.contains_key(key) implies no_strangers(
        after[key],
    ) by {
        let l = mgr.lobbies[key];
        assert(mgr.lobbies.contains_key(key));
        assert forall|k: Seq<char>, i: int|
            after[key].proposals.contains_key(k) && 0 <= i
                < after[key].proposals[k].players.len() implies after[key].players.contains_key(
            (#[trigger] after[key].proposals[k].players[i]).player_id,
        ) by {
            assert(l.players.contains_key(l.proposals[k].players[i].player_id));
        }
    }
}

/// The end of a match brings in nobody unknown.
proof fn lemma_done_no_strangers(l: LobbyView, match_id: Seq<char>)
    requires
        no_strangers(l),
    ensures
        no_strangers(with_match_done(l, match_id)),
{
    let after = with_match_done(l, match_id);
    assert forall|k: Seq<char>, i: int|
        after.proposals.contains_key(k) && 0 <= i
            < after.proposals[k].players.len() implies after.players.contains_key(
        (#[trigger] after.proposals[k].players[i]).player_id,
    ) by {
        assert(l.players.contains_key(l.proposals[k].players[i].player_id));
    }
}

/// Nobody's client: nothing changes and nothing is told.
proof fn lemma_no_clients(lobbies: Map<Seq<char>, LobbyView>, connected: bool)
    ensures
        with_clients(lobbies, Seq::empty(), connected) == lobbies,
        client_notices(lobbies, Seq::empty(), connected) == Seq::<NoticeView>::empty(),
{
    let nobody = Seq::<(Seq<char>, usize)>::empty();
    assert forall|key: Seq<char>| #[trigger] lobbies.contains_key(key) implies with_clients(
        lobbies,
        nobody,
        connected,
    )[key] == lobbies[key] by {
        assert(with_clients(lobbies, nobody, connected)[key].players =~= lobbies[key].players);
    }
    assert(with_clients(lobbies, nobody, connected) =~= lobbies);
    reveal(Seq::filter);
    assert(client_notices(lobbies, nobody, connected) =~= Seq::<NoticeView>::empty());
}

/// The lobby after one player more.
spec fn one_client(lobby: LobbyView, id: usize, connected: bool) -> LobbyView {
    if lobby.players.contains_key(id) {
        with_player(lobby, id, with_client(lobby.players[id], connected))
    } else {
        lobby
    }
}

/// One player more: only that player changes, and only they are told of.
proof fn lemma_next_client(
    lobbies: Map<Seq<char>, LobbyView>,
    players: Seq<(Seq<char>, usize)>,
    player: (Seq<char>, usize),
    connected: bool,
)
    ensures
        ({
            let now = with_clients(lobbies, players, connected);
            let next = with_clients(lobbies, players.push(player), connected);
            &&& now.contains_key(player.0) == lobbies.contains_key(player.0)
            &&& next == if lobbies.contains_key(player.0) {
                now.insert(player.0, one_client(now[player.0], player.1, connected))
            } else {
                now
            }
            &&& is_player(now, player) == is_player(lobbies, player)
            &&& is_player(lobbies, player) ==> with_client(
                now[player.0].players[player.1],
                connected,
            ) == with_client(lobbies[player.0].players[player.1], connected)
            &&& client_notices(lobbies, players.push(player), connected) == if is_player(
                lobbies,
                player,
            ) {
                client_notices(lobbies, players, connected).push(
                    client_notice(lobbies, player, connected),
                )
            } else {
                client_notices(lobbies, players, connected)
            }
        }),
{
    let more = players.push(player);
    let now = with_clients(lobbies, players, connected);
    let next = with_clients(lobbies, more, connected);
    let expected = if lobbies.contains_key(player.0) {
        now.insert(player.0, one_client(now[player.0], player.1, connected))
    } else {
        now
    };
    assert forall|other: (Seq<char>, usize)| #[trigger]
        more.contains(other) == (players.contains(other) || other == player) by {
        if players.contains(other) {
            let i = choose|i: int| 0 <= i < players.len() && players[i] == other;
            assert(more[i] == other);
        }
        assert(more[players.len() as int] == player);
    }
    assert forall|key: Seq<char>| #[trigger] next.contains_key(key) implies next[key]
        == expected[key] by {
        assert(next[key].players =~= expected[key].players);
    }
    assert(next =~= expected);
    reveal(Seq::filter);
    assert(more.drop_last() =~= players);
    assert(client_notices(lobbies, more, connected) =~= if is_player(lobbies, player) {
        client_notices(lobbies, players, connected).push(client_notice(lobbies, player, connected))
    } else {
        client_notices(lobbies, players, connected)
    });
}

impl LobbyManager {
    /// A server without lobbies, on which matches can be played on `maps`.
    pub fn create(maps: PwMaps) -> (mgr: Self)
        ensures
            mgr@ == (LobbyManagerView {
                lobbies: Map::empty(),
                maps: maps@,
                websocket_connections: Map::empty(),
                token_player: Map::empty(),
            }),
            sound(mgr@),
            server_inv(mgr@),
    {
        LobbyManager {
            lobbies: Table::new(),
            websocket_connections: Table::new(),
            token_player: Table::new(),
            maps,
        }
    }

    /// Opens `lobby`.
    pub fn add_lobby(&mut self, lobby: &Lobby)
        ensures
            final(self)@ == with_lobby(old(self)@, lobby@),
            sound(old(self)@) && no_strangers(lobby@) ==> sound(final(self)@),
    {
        let ghost before = self@;
        self.lobbies.insert(lobby.id.clone(), lobby.duplicate());
        proof {
            if sound(before) && no_strangers(lobby@) {
                assert forall|key: Seq<char>| #[trigger]
                    self@.lobbies.contains_key(key) implies no_strangers(self@.lobbies[key]) by {
                    if key != lobby@.id {
                        assert(before.lobbies.contains_key(key));
                    }
                }
            }
        }
    }

    /// Opens the lobby that `config` asks for, under an identifier that is drawn at random.
    pub fn create_lobby(&mut self, config: LobbyConfig) -> (lobby: Lobby)
        ensures
            exists|id: [u8; 16], lobby_token: Token|
                lobby@ == #[trigger] new_lobby(config.name@, config.public, id@, lobby_token@),
            final(self)@ == with_lobby(old(self)@, lobby@),
            sound(old(self)@) ==> sound(final(self)@),
            server_inv(old(self)@) && !old(self)@.lobbies.contains_key(lobby@.id) ==> server_inv(
                final(self)@,
            ),
    {
        let ghost before = self@;
        let ghost (name, public) = (config.name@, config.public);
        let lobby = Lobby::from(config);
        self.add_lobby(&lobby);
        proof {
            let (id, lobby_token) = choose|id: [u8; 16], lobby_token: Token|
                lobby@ == #[trigger] new_lobby(name, public, id@, lobby_token@);
            if server_inv(before) && !before.lobbies.contains_key(lobby@.id) {
                law_open_lobby(before, name, public, id@, lobby_token@);
            }
        }
        lobby
    }

    /// Sends `serialized` to all who listen to a lobby, and forgets those who no longer listen.
    pub fn send_update(&mut self, lobby_id: &str, serialized: &String)
        ensures
            if old(self)@.websocket_connections.contains_key(lobby_id@) {
                exists|kept: Seq<WsConnection>, dropped: Seq<WsConnection>|
                    {
                        &&& #[trigger] delivered(
                            old(self)@.websocket_connections[lobby_id@],
                            kept,
                            dropped,
                            serialized@,
                        )
                        &&& forall|channel: int| #[trigger]
                            listens(old(self)@, lobby_id@, channel) ==> sent_through(
                                kept,
                                dropped,
                                serialized@,
                                channel,
                            )
                        &&& final(self)@ == (LobbyManagerView {
                            websocket_connections: old(self)@.websocket_connections.insert(
                                lobby_id@,
                                kept,
                            ),
                            ..old(self)@
                        })
                    }
            } else {
                final(self)@ == old(self)@
            },
            sound(old(self)@) ==> sound(final(self)@),
            server_inv(old(self)@) ==> server_inv(final(self)@),
    {
        let key = lobby_id.to_owned();
        let ghost mgr = self@;
        let ghost before = self@.websocket_connections;
        match self.websocket_connections.remove(&key) {
            Some(connections) => {
                let mut connections = connections;
                let dropped = deliver(&mut connections, serialized);
                let ghost kept = connections@;
                self.websocket_connections.insert(key, connections);
                proof {
                    assert(before.remove(lobby_id@).insert(lobby_id@, kept) =~= before.insert(
                        lobby_id@,
                        kept,
                    ));
                    assert(delivered(before[lobby_id@], kept, dropped@, serialized@));
                    assert forall|channel: int| #[trigger]
                        listens(mgr, lobby_id@, channel) implies sent_through(
                        kept,
                        dropped@,
                        serialized@,
                        channel,
                    ) by {
                        law_listener_hears(mgr, lobby_id@, kept, dropped@, serialized@, channel);
                    }
                }
            },
            None => {
                assert(before.remove(lobby_id@) =~= before);
            },
        }
        proof {
            lemma_same_lobbies(mgr, self@);
        }
    }

    /// Takes down in all lobbies that the client with `token` is there, or is gone. What is to be told
    /// of it.
    pub fn set_client_connected(&mut self, token: &Token, value: bool) -> (notices: Vec<Notice>)
        ensures
            final(self)@ == (LobbyManagerView {
                lobbies: with_clients(old(self)@.lobbies, players_of(old(self)@, token@), value),
                ..old(self)@
            }),
            notice_views(notices@) == client_notices(
                old(self)@.lobbies,
                players_of(old(self)@, token@),
                value,
            ),
            sound(old(self)@) ==> sound(final(self)@),
            server_inv(old(self)@) ==> server_inv(final(self)@),
    {
        let mut notices: Vec<Notice> = Vec::new();
        let ghost before = self@.lobbies;
        let ghost all = players_of(self@, token@);
        proof {
            if sound(self@) {
                lemma_clients_sound(self@, all, value);
            }
            if server_inv(self@) {
                law_client_reaches_all(self@, token@, value);
            }
            lemma_no_clients(before, value);
            assert(all.take(0) =~= Seq::<(Seq<char>, usize)>::empty());
            assert(notice_views(notices@) =~= Seq::<NoticeView>::empty());
        }
        let players = match self.token_player.get(token) {
            Some(list) => list.players(),
            None => {
                assert(all.take(0) =~= all);
                return notices;
            },
        };
        let n = players.len();
        let mut i: usize = 0;
        while i < n
            invariant
                player_views(players@) == all,
                n == players@.len(),
                i <= n,
                self.lobbies@ == with_clients(before, all.take(i as int), value),
                self.maps@ == old(self)@.maps,
                self.websocket_connections@ == old(self)@.websocket_connections,
                self.token_player@ == old(self)@.token_player,
                notice_views(notices@) == client_notices(before, all.take(i as int), value),
            decreases n - i,
        {
            let lobby_id = &players[i].0;
            let player_id = players[i].1;
            let ghost now = self.lobbies@;
            proof {
                assert(all[i as int] == (lobby_id@, player_id));
                lemma_next_client(before, all.take(i as int), all[i as int], value);
                assert(all.take(i + 1) =~= all.take(i as int).push(all[i as int]));
            }
            match self.lobbies.remove(lobby_id) {
                Some(lobby) => {
                    let mut lobby = lobby;
                    let update = lobby.set_client(player_id, value);
                    proof {
                        assert(now.remove(lobby_id@).insert(lobby_id@, lobby@) =~= now.insert(
                            lobby_id@,
                            lobby@,
                        ));
                    }
                    self.lobbies.insert(lobby_id.clone(), lobby);
                    if let Some(data) = update {
                        let notice = Notice {
                            lobby_id: lobby_id.clone(),
                            event: LobbyEvent::PlayerData(data),
                        };
                        proof {
                            lemma_notice_push(notices@, notice);
                        }
                        notices.push(notice);
                    }
                },
                None => {
                    assert(now.remove(lobby_id@) =~= now);
                },
            }
            i += 1;
        }
        assert(all.take(n as int) =~= all);
        notices
    }

    /// Takes down that a match of a lobby is over. What is to be told of it.
    pub fn finish_match(&mut self, lobby_id: &str, match_id: &str) -> (notice: Option<Notice>)
        ensures
            if lists_match(old(self)@, lobby_id@, match_id@) {
                &&& final(self)@ == (LobbyManagerView {
                    lobbies: old(self)@.lobbies.insert(
                        lobby_id@,
                        with_match_done(old(self)@.lobbies[lobby_id@], match_id@),
                    ),
                    ..old(self)@
                })
                &&& notice is Some
                &&& notice->0@ == (NoticeView {
                    lobby_id: lobby_id@,
                    event: LobbyEventView::MatchData(
                        done(old(self)@.lobbies[lobby_id@].matches[match_id@]),
                    ),
                })
            } else {
                final(self)@ == old(self)@ && notice is None
            },
            sound(old(self)@) ==> sound(final(self)@),
            server_inv(old(self)@) ==> server_inv(final(self)@),
    {
        let ghost mgr = self@;
        let key = lobby_id.to_owned();
        let match_key = match_id.to_owned();
        let ghost before = self@.lobbies;
        let mut lobby = match self.lobbies.remove(&key) {
            Some(lobby) => lobby,
            None => {
                assert(before.remove(lobby_id@) =~= before);
                return None;
            },
        };
        let ghost matches = lobby@.matches;
        let notice = match lobby.matches.remove(&match_key) {
            Some(meta) => {
                let mut meta = meta;
                meta.status = MatchStatus::Done;
                let copy = meta.duplicate();
                proof {
                    assert(matches.remove(match_id@).insert(match_id@, meta@) =~= matches.insert(
                        match_id@,
                        meta@,
                    ));
                }
                lobby.matches.insert(match_key, meta);
                Some(Notice { lobby_id: key.clone(), event: LobbyEvent::MatchData(copy) })
            },
            None => {
                assert(matches.remove(match_id@) =~= matches);
                None
            },
        };
        proof {
            assert(before.remove(lobby_id@).insert(lobby_id@, lobby@) =~= before.insert(
                lobby_id@,
                lobby@,
            ));
            if !before[lobby_id@].matches.contains_key(match_id@) {
                assert(before.insert(lobby_id@, lobby@) =~= before);
            } else {
                if sound(mgr) {
                    lemma_done_no_strangers(before[lobby_id@], match_id@);
                }
                if server_inv(mgr) {
                    law_finish(before[lobby_id@], match_id@);
                    law_change_lobby(mgr, lobby_id@, lobby@);
                }
            }
        }
        self.lobbies.insert(key, lobby);
        notice
    }
}

} // verus!
