//! Lobbies, the players in them, and the proposals and matches that the players make.

use vstd::prelude::*;

use crate::planetwars::{MatchConfig, MatchConfigView};
use crate::table::{as_map, distinct_keys, lemma_next_entry, Duplicate, Table};
use crate::token::Token;

verus! {

/// What a new lobby is asked to be.
#[derive(Debug)]
pub struct LobbyConfig {
    pub name: String,
    pub public: bool,
}

/// A map that matches can be played on.
#[derive(Debug)]
pub struct PwMapData {
    pub name: String,
    pub max_players: usize,
}

pub struct PwMapDataView {
    pub name: Seq<char>,
    pub max_players: usize,
}

impl View for PwMapData {
    type V = PwMapDataView;

    open spec fn view(&self) -> PwMapDataView {
        PwMapDataView { name: self.name@, max_players: self.max_players }
    }
}

impl Duplicate for PwMapData {
    fn duplicate(&self) -> (copy: Self) {
        PwMapData { name: self.name.clone(), max_players: self.max_players }
    }
}

/// Where a player's moves come from.
#[derive(Debug)]
pub enum PlayerType {
    /// A client that connects with `token`.
    External { token: Token },
    /// A bot that the server runs itself.
    Internal { bot: String },
}

pub enum PlayerTypeView {
    External { token: Seq<u8> },
    Internal { bot: Seq<char> },
}

impl View for PlayerType {
    type V = PlayerTypeView;

    open spec fn view(&self) -> PlayerTypeView {
        match self {
            PlayerType::External { token } => PlayerTypeView::External { token: token@ },
            PlayerType::Internal { bot } => PlayerTypeView::Internal { bot: bot@ },
        }
    }
}

impl Duplicate for PlayerType {
    fn duplicate(&self) -> (copy: Self) {
        match self {
            PlayerType::External { token } => PlayerType::External { token: *token },
            PlayerType::Internal { bot } => PlayerType::Internal { bot: bot.clone() },
        }
    }
}

/// A player of a lobby.
#[derive(Debug)]
pub struct Player {
    /// Scoped in the lobby.
    pub id: usize,
    pub name: String,
    pub player_type: PlayerType,
    pub connection_count: usize,
    pub client_connected: bool,
}

pub struct PlayerView {
    pub id: usize,
    pub name: Seq<char>,
    pub player_type: PlayerTypeView,
    pub connection_count: usize,
    pub client_connected: bool,
}

impl View for Player {
    type V = PlayerView;

    open spec fn view(&self) -> PlayerView {
        PlayerView {
            id: self.id,
            name: self.name@,
            player_type: self.player_type@,
            connection_count: self.connection_count,
            client_connected: self.client_connected,
        }
    }
}

impl Duplicate for Player {
    fn duplicate(&self) -> (copy: Self) {
        Player {
            id: self.id,
            name: self.name.clone(),
            player_type: self.player_type.duplicate(),
            connection_count: self.connection_count,
            client_connected: self.client_connected,
        }
    }
}

impl Clone for Player {
    fn clone(&self) -> (copy: Self)
        ensures
            copy@ == self@,
    {
        self.duplicate()
    }
}

/// What the others may see of a player.
#[derive(Debug)]
pub struct PlayerData {
    pub id: usize,
    pub name: String,
    pub connected: bool,
    pub client_connected: bool,
}

pub struct PlayerDataView {
    pub id: usize,
    pub name: Seq<char>,
    pub connected: bool,
    pub client_connected: bool,
}

impl View for PlayerData {
    type V = PlayerDataView;

    open spec fn view(&self) -> PlayerDataView {
        PlayerDataView {
            id: self.id,
            name: self.name@,
            connected: self.connected,
            client_connected: self.client_connected,
        }
    }
}

impl Duplicate for PlayerData {
    fn duplicate(&self) -> (copy: Self) {
        PlayerData {
            id: self.id,
            name: self.name.clone(),
            connected: self.connected,
            client_connected: self.client_connected,
        }
    }
}

impl Clone for PlayerData {
    fn clone(&self) -> (copy: Self)
        ensures
            copy@ == self@,
    {
        self.duplicate()
    }
}

/// What the others may see of `player`: not its token, and of its connections only whether there is
/// one.
pub open spec fn player_data(player: PlayerView) -> PlayerDataView {
    PlayerDataView {
        id: player.id,
        name: player.name,
        connected: player.connection_count > 0,
        client_connected: player.client_connected,
    }
}

impl vstd::std_specs::convert::FromSpecImpl<Player> for PlayerData {
    open spec fn obeys_from_spec() -> bool {
        true
    }

    open spec fn from_spec(player: Player) -> PlayerData {
        PlayerData {
            id: player.id,
            name: player.name,
            connected: player.connection_count > 0,
            client_connected: player.client_connected,
        }
    }
}

impl From<Player> for PlayerData {
    fn from(player: Player) -> (data: PlayerData)
        ensures
            data@ == player_data(player@),
            data.id == player.id,
            data.name@ == player.name@,
            data.connected <==> player.connection_count >= 1,
            data.client_connected == player.client_connected,
    {
        PlayerData {
            id: player.id,
            name: player.name,
            connected: player.connection_count > 0,
            client_connected: player.client_connected,
        }
    }
}

/// What a player has said to a proposal.
#[derive(Debug, Clone, Copy, PartialEq, Eq, Structural)]
pub enum AcceptedState {
    Unanswered,
    Accepted,
    Rejected,
}

/// A player that a proposal asks, and the answer so far.
#[derive(Debug, Clone, Copy, PartialEq, Eq, Structural)]
pub struct ProposalPlayer {
    pub player_id: usize,
    pub status: AcceptedState,
}

/// How far a proposal has come.
#[derive(Debug, PartialEq)]
pub enum ProposalStatus {
    Pending,
    Denied,
    Accepted { match_id: String },
}

pub enum ProposalStatusView {
    Pending,
    Denied,
    Accepted { match_id: Seq<char> },
}

impl View for ProposalStatus {
    type V = ProposalStatusView;

    open spec fn view(&self) -> ProposalStatusView {
        match self {
            ProposalStatus::Pending => ProposalStatusView::Pending,
            ProposalStatus::Denied => ProposalStatusView::Denied,
            ProposalStatus::Accepted { match_id } => ProposalStatusView::Accepted {
                match_id: match_id@,
            },
        }
    }
}

impl Duplicate for ProposalStatus {
    fn duplicate(&self) -> (copy: Self) {
        match self {
            ProposalStatus::Pending => ProposalStatus::Pending,
            ProposalStatus::Denied => ProposalStatus::Denied,
            ProposalStatus::Accepted { match_id } => ProposalStatus::Accepted {
                match_id: match_id.clone(),
            },
        }
    }
}

/// A match that one player suggests to others.
#[derive(Debug)]
pub struct Proposal {
    pub id: String,
    pub owner_id: usize,
    pub config: MatchConfig,
    pub players: Vec<ProposalPlayer>,
    pub status: ProposalStatus,
}

pub struct ProposalView {
    pub id: Seq<char>,
    pub owner_id: usize,
    pub config: MatchConfigView,
    pub players: Seq<ProposalPlayer>,
    pub status: ProposalStatusView,
}

impl View for Proposal {
    type V = ProposalView;

    open spec fn view(&self) -> ProposalView {
        ProposalView {
            id: self.id@,
            owner_id: self.owner_id,
            config: self.config@,
            players: self.players@,
            status: self.status@,
        }
    }
}

impl Duplicate for Proposal {
    fn duplicate(&self) -> (copy: Self) {
        let n = self.players.len();
        let mut players: Vec<ProposalPlayer> = Vec::new();
        let mut i: usize = 0;
        while i < n
            invariant
                n == self.players@.len(),
                i <= n,
                players@ == self.players@.take(i as int),
            decreases n - i,
        {
            players.push(self.players[i]);
            i += 1;
            assert(players@ =~= self.players@.take(i as int));
        }
        assert(players@ =~= self.players@);
        Proposal {
            id: self.id.clone(),
            owner_id: self.owner_id,
            config: self.config.duplicate(),
            players,
            status: self.status.duplicate(),
        }
    }
}

impl Clone for Proposal {
    fn clone(&self) -> (copy: Self)
        ensures
            copy@ == self@,
    {
        self.duplicate()
    }
}

/// A moment in time: seconds since the start of 1970 in UTC, and the nanoseconds after them.
#[derive(Debug, Clone, Copy, PartialEq, Eq, Structural)]
pub struct Timestamp {
    pub seconds: i64,
    pub nanos: u32,
}

/// `chrono::Utc::now`, read with `timestamp` and `timestamp_subsec_nanos`: any moment may come, given by
/// less than a second's worth of nanoseconds. On a machine whose clock stands before 1970 it panics.
#[verifier::external_body]
pub(crate) fn current_time() -> (now: Timestamp)
    ensures
        now.nanos < 1_000_000_000,
{
    let now = chrono::Utc::now();
    Timestamp { seconds: now.timestamp(), nanos: now.timestamp_subsec_nanos() }
}

/// Whether a match still runs.
#[derive(Debug, Clone, Copy, PartialEq, Eq, Structural)]
pub enum MatchStatus {
    Playing,
    Done,
}

/// What a lobby knows of a match that was started in it.
#[derive(Debug)]
pub struct MatchMeta {
    pub id: String,
    pub timestamp: Timestamp,
    pub config: MatchConfig,
    pub players: Vec<usize>,
    pub status: MatchStatus,
}

pub struct MatchMetaView {
    pub id: Seq<char>,
    pub timestamp: Timestamp,
    pub config: MatchConfigView,
    pub players: Seq<usize>,
    pub status: MatchStatus,
}

impl View for MatchMeta {
    type V = MatchMetaView;

    open spec fn view(&self) -> MatchMetaView {
        MatchMetaView {
            id: self.id@,
            timestamp: self.timestamp,
            config: self.config@,
            players: self.players@,
            status: self.status,
        }
    }
}

impl Duplicate for MatchMeta {
    fn duplicate(&self) -> (copy: Self) {
        let n = self.players.len();
        let mut players: Vec<usize> = Vec::new();
        let mut i: usize = 0;
        while i < n
            invariant
                n == self.players@.len(),
                i <= n,
                players@ == self.players@.take(i as int),
            decreases n - i,
        {
            players.push(self.players[i]);
            i += 1;
            assert(players@ =~= self.players@.take(i as int));
        }
        assert(players@ =~= self.players@);
        MatchMeta {
            id: self.id.clone(),
            timestamp: self.timestamp,
            config: self.config.duplicate(),
            players,
            status: self.status,
        }
    }
}

impl Clone for MatchMeta {
    fn clone(&self) -> (copy: Self)
        ensures
            copy@ == self@,
    {
        self.duplicate()
    }
}

/// A lobby: a place where players meet and agree on matches.
#[derive(Debug)]
pub struct Lobby {
    pub id: String,
    pub name: String,
    pub public: bool,
    pub next_player_id: usize,
    pub token_player: Table<Token, usize>,
    pub players: Table<usize, Player>,
    pub proposals: Table<String, Proposal>,
    pub matches: Table<String, MatchMeta>,
    pub lobby_token: Token,
}

pub struct LobbyView {
    pub id: Seq<char>,
    pub name: Seq<char>,
    pub public: bool,
    pub next_player_id: usize,
    pub token_player: Map<Seq<u8>, usize>,
    pub players: Map<usize, PlayerView>,
    pub proposals: Map<Seq<char>, ProposalView>,
    pub matches: Map<Seq<char>, MatchMetaView>,
    pub lobby_token: Seq<u8>,
}

impl View for Lobby {
    type V = LobbyView;

    open spec fn view(&self) -> LobbyView {
        LobbyView {
            id: self.id@,
            name: self.name@,
            public: self.public,
            next_player_id: self.next_player_id,
            token_player: self.token_player@,
            players: self.players@,
            proposals: self.proposals@,
            matches: self.matches@,
            lobby_token: self.lobby_token@,
        }
    }
}

impl Duplicate for Lobby {
    fn duplicate(&self) -> (copy: Self) {
        Lobby {
            id: self.id.clone(),
            name: self.name.clone(),
            public: self.public,
            next_player_id: self.next_player_id,
            token_player: self.token_player.duplicate(),
            players: self.players.duplicate(),
            proposals: self.proposals.duplicate(),
            matches: self.matches.duplicate(),
            lobby_token: self.lobby_token,
        }
    }
}

impl Clone for Lobby {
    fn clone(&self) -> (copy: Self)
        ensures
            copy@ == self@,
    {
        self.duplicate()
    }
}

/// What anyone may see of a lobby.
#[derive(Debug)]
pub struct LobbyData {
    pub id: String,
    pub name: String,
    pub public: bool,
    pub players: Table<usize, PlayerData>,
    pub proposals: Table<String, Proposal>,
    pub matches: Table<String, MatchMeta>,
}

pub struct LobbyDataView {
    pub id: Seq<char>,
    pub name: Seq<char>,
    pub public: bool,
    pub players: Map<usize, PlayerDataView>,
    pub proposals: Map<Seq<char>, ProposalView>,
    pub matches: Map<Seq<char>, MatchMetaView>,
}

impl View for LobbyData {
    type V = LobbyDataView;

    open spec fn view(&self) -> LobbyDataView {
        LobbyDataView {
            id: self.id@,
            name: self.name@,
            public: self.public,
            players: self.players@,
            proposals: self.proposals@,
            matches: self.matches@,
        }
    }
}

/// What anyone may see of `lobby`.
pub open spec fn lobby_data(lobby: LobbyView) -> LobbyDataView {
    LobbyDataView {
        id: lobby.id,
        name: lobby.name,
        public: lobby.public,
        players: lobby.players.map_values(|player: PlayerView| player_data(player)),
        proposals: lobby.proposals,
        matches: lobby.matches,
    }
}

/// Nothing is said of the whole value: see the clause of `from`.
impl vstd::std_specs::convert::FromSpecImpl<Lobby> for LobbyData {
    open spec fn obeys_from_spec() -> bool {
        false
    }

    open spec fn from_spec(lobby: Lobby) -> LobbyData {
        arbitrary()
    }
}

impl From<Lobby> for LobbyData {
    fn from(lobby: Lobby) -> (data: LobbyData)
        ensures
            data@ == lobby_data(lobby@),
    {
        let mut players: Table<usize, PlayerData> = Table::new();
        let ghost show = |player: PlayerView| player_data(player);
        let entries = lobby.players.entries();
        let n = entries.len();
        let mut i: usize = 0;
        assert(players@ =~= as_map(entries@.take(0)).map_values(show));
        while i < n
            invariant
                n == entries@.len(),
                i <= n,
                distinct_keys(entries@),
                show == (|player: PlayerView| player_data(player)),
                players@ == as_map(entries@.take(i as int)).map_values(show),
            decreases n - i,
        {
            proof {
                lemma_next_entry(entries@, i as int);
            }
            let player = entries[i].1.duplicate();
            players.insert(entries[i].0, PlayerData::from(player));
            i += 1;
            assert(players@ =~= as_map(entries@.take(i as int)).map_values(show));
        }
        assert(entries@.take(n as int) =~= entries@);
        LobbyData {
            id: lobby.id,
            name: lobby.name,
            public: lobby.public,
            players,
            proposals: lobby.proposals,
            matches: lobby.matches,
        }
    }
}

/// A player is shown under their number and name, as connected if and only if they have at least one
/// connection, and with a client if and only if that is there. Neither says anything of the other.
pub proof fn law_player_shown(player: PlayerView)
    ensures
        player_data(player).id == player.id,
        player_data(player).name == player.name,
        player_data(player).connected <==> player.connection_count >= 1,
        player_data(player).client_connected <==> player.client_connected,
{
}

/// All that is shown of a lobby is as it is in the lobby: its name and number, whether it is public, its
/// proposals and matches, and of each player what may be seen of them.
pub proof fn law_lobby_shown(l: LobbyView)
    ensures
        lobby_data(l).id == l.id,
        lobby_data(l).name == l.name,
        lobby_data(l).public == l.public,
        lobby_data(l).proposals == l.proposals,
        lobby_data(l).matches == l.matches,
        forall|id: usize| #[trigger]
            lobby_data(l).players.contains_key(id) <==> l.players.contains_key(id),
        forall|id: usize| #[trigger]
            l.players.contains_key(id) ==> {
                let shown = lobby_data(l).players[id];
                &&& shown.id == l.players[id].id
                &&& shown.name == l.players[id].name
                &&& shown.connected <==> l.players[id].connection_count >= 1
                &&& shown.client_connected <==> l.players[id].client_connected
            },
{
}

/// Nothing is lost of a player, of what is shown of one, or of a map when it is spoken of.
pub proof fn law_player_views(player: Player, data: PlayerData, map: PwMapData)
    ensures
        player@.id == player.id,
        player@.name == player.name@,
        player@.connection_count == player.connection_count,
        player@.client_connected == player.client_connected,
        match player.player_type {
            PlayerType::External { token } => player@.player_type == (PlayerTypeView::External {
                token: token@,
            }),
            PlayerType::Internal { bot } => player@.player_type == (PlayerTypeView::Internal {
                bot: bot@,
            }),
        },
        data@.id == data.id,
        data@.name == data.name@,
        data@.connected == data.connected,
        data@.client_connected == data.client_connected,
        map@.name == map.name@,
        map@.max_players == map.max_players,
{
}

/// Nothing is lost of a proposal, or of a match, when it is spoken of.
pub proof fn law_proposal_views(proposal: Proposal, meta: MatchMeta)
    ensures
        proposal@.id == proposal.id@,
        proposal@.owner_id == proposal.owner_id,
        proposal@.config.map_name == proposal.config.map_name@,
        proposal@.config.max_turns == proposal.config.max_turns,
        proposal@.players == proposal.players@,
        match proposal.status {
            ProposalStatus::Pending => proposal@.status is Pending,
            ProposalStatus::Denied => proposal@.status is Denied,
            ProposalStatus::Accepted { match_id } => proposal@.status == (
            ProposalStatusView::Accepted { match_id: match_id@ }),
        },
        meta@.id == meta.id@,
        meta@.timestamp == meta.timestamp,
        meta@.config.map_name == meta.config.map_name@,
        meta@.config.max_turns == meta.config.max_turns,
        meta@.players == meta.players@,
        meta@.status == meta.status,
{
}

/// Nothing is lost of a lobby, or of what is shown of one, when it is spoken of.
pub proof fn law_lobby_views(lobby: Lobby, data: LobbyData)
    ensures
        lobby@.id == lobby.id@,
        lobby@.name == lobby.name@,
        lobby@.public == lobby.public,
        lobby@.next_player_id == lobby.next_player_id,
        lobby@.token_player == lobby.token_player@,
        lobby@.players == lobby.players@,
        lobby@.proposals == lobby.proposals@,
        lobby@.matches == lobby.matches@,
        lobby@.lobby_token == lobby.lobby_token@,
        data@.id == data.id@,
        data@.name == data.name@,
        data@.public == data.public,
        data@.players == data.players@,
        data@.proposals == data.proposals@,
        data@.matches == data.matches@,
{
}

} // verus!
