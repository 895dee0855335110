//! What a client may say over its connection, and what comes of it.

use tokio::sync::mpsc::UnboundedSender;
use vstd::prelude::*;

use crate::event::{
    lemma_notice_push, notice_views, LobbyEvent, LobbyEventView, MatchLogEvent, Notice, NoticeView,
};
use crate::game_manager::{GameManager, MatchData};
use crate::lobby::{lobby_data, player_data, LobbyData, LobbyView, PlayerView};
use crate::lobby_manager::{is_player, player_views, sound, LobbyManager, LobbyManagerView};
use crate::membership::{one_less_connection, one_more_connection, with_player};
use crate::proposals::no_strangers;
use crate::server_laws::{law_connect, law_disconnect, law_listener_listed, listens, server_inv};
use crate::table::Duplicate;
use crate::token::Token;
use crate::websocket::{channel_of, send_attempts, WsConnection};

verus! {

/// The client says which player of a lobby it speaks for.
#[derive(Debug)]
pub struct AuthenticatePlayer {
    pub lobby_id: String,
    pub token: Token,
}

/// The client wants to hear of what happens in a lobby.
#[derive(Debug)]
pub struct SubscribeToLobby {
    pub lobby_id: String,
}

/// The client wants to hear the log of a match, as its stream `stream_id`.
#[derive(Debug)]
pub struct SubscribeToMatch {
    pub match_id: String,
    pub stream_id: usize,
}

/// What a client may say.
#[derive(Debug)]
pub enum WsClientMessage {
    AuthenticatePlayer(AuthenticatePlayer),
    SubscribeToLobby(SubscribeToLobby),
    SubscribeToMatch(SubscribeToMatch),
}

/// What is to be done because of what a client said.
#[derive(Debug)]
pub enum HandlerAction<'a, S> {
    /// Nothing more.
    Nothing,
    /// Tell those who listen to a lobby.
    Tell(Notice),
    /// Show the client the lobby `lobby_id` as `state`, and let it listen from there on.
    ShowLobby { lobby_id: String, state: LobbyEvent },
    /// Pass on to the client, as its stream `stream_id`, what comes through `log_stream`.
    FollowMatch { stream_id: usize, log_stream: &'a S },
}

/// One client of the server.
#[derive(Debug)]
pub struct ConnectionHandler {
    conn: WsConnection,
    // (lobby_id, player_id)
    authenticated_players: Vec<(String, usize)>,
}

/// The player of the lobby `lobby_id` who goes by `token`.
pub open spec fn claimed_player(
    mgr: LobbyManagerView,
    lobby_id: Seq<char>,
    token: Seq<u8>,
) -> Option<usize> {
    if mgr.lobbies.contains_key(lobby_id) && mgr.lobbies[lobby_id].token_player.contains_key(
        token,
    ) {
        Some(mgr.lobbies[lobby_id].token_player[token])
    } else {
        None
    }
}

/// The lobbies once `player` has one connection more.
pub open spec fn after_connect(
    lobbies: Map<Seq<char>, LobbyView>,
    player: (Seq<char>, usize),
) -> Map<Seq<char>, LobbyView> {
    let l = lobbies[player.0];
    lobbies.insert(
        player.0,
        with_player(l, player.1, one_more_connection(l.players[player.1])),
    )
}

/// The lobbies once each of `players` has one connection more for each time it is listed.
pub open spec fn after_connects(
    lobbies: Map<Seq<char>, LobbyView>,
    players: Seq<(Seq<char>, usize)>,
) -> Map<Seq<char>, LobbyView>
    decreases players.len(),
{
    if players.len() == 0 {
        lobbies
    } else {
        after_connect(after_connects(lobbies, players.drop_last()), players.last())
    }
}

/// The lobbies once `player` has one connection fewer.
pub open spec fn after_drop(
    lobbies: Map<Seq<char>, LobbyView>,
    player: (Seq<char>, usize),
) -> Map<Seq<char>, LobbyView> {
    if is_player(lobbies, player) {
        let l = lobbies[player.0];
        lobbies.insert(
            player.0,
            with_player(l, player.1, one_less_connection(l.players[player.1])),
        )
    } else {
        lobbies
    }
}

/// The lobbies once each of `players` has one connection fewer for each time it is listed.
pub open spec fn after_drops(
    lobbies: Map<Seq<char>, LobbyView>,
    players: Seq<(Seq<char>, usize)>,
) -> Map<Seq<char>, LobbyView>
    decreases players.len(),
{
    if players.len() == 0 {
        lobbies
    } else {
        after_drop(after_drops(lobbies, players.drop_last()), players.last())
    }
}

/// What is to be told of `player`.
pub open spec fn player_notice(lobby_id: Seq<char>, player: PlayerView) -> NoticeView {
    NoticeView { lobby_id, event: LobbyEventView::PlayerData(player_data(player)) }
}

/// What is to be told once `player` has one connection fewer: something only if none is left.
pub open spec fn drop_notice(
    lobbies: Map<Seq<char>, LobbyView>,
    player: (Seq<char>, usize),
) -> Seq<NoticeView> {
    if is_player(lobbies, player) {
        let now = one_less_connection(lobbies[player.0].players[player.1]);
        if now.connection_count == 0 {
            seq![player_notice(player.0, now)]
        } else {
            Seq::empty()
        }
    } else {
        Seq::empty()
    }
}

/// What is to be told once each of `players` has one connection fewer for each time it is listed.
pub open spec fn drop_notices(
    lobbies: Map<Seq<char>, LobbyView>,
    players: Seq<(Seq<char>, usize)>,
) -> Seq<NoticeView>
    decreases players.len(),
{
    if players.len() == 0 {
        Seq::empty()
    } else {
        let earlier = players.drop_last();
        drop_notices(lobbies, earlier) + drop_notice(
            after_drops(lobbies, earlier),
            players.last(),
        )
    }
}

/// There is room to count another connection of the claimed player.
pub open spec fn can_count(mgr: LobbyManagerView, lobby_id: Seq<char>, token: Seq<u8>) -> bool {
    match claimed_player(mgr, lobby_id, token) {
        Some(id) => mgr.lobbies[lobby_id].players[id].connection_count < usize::MAX,
        None => true,
    }
}

/// What comes of a client's claim to be a player.
pub open spec fn claim_heard(
    before: LobbyManagerView,
    after: LobbyManagerView,
    players_before: Seq<(Seq<char>, usize)>,
    players_after: Seq<(Seq<char>, usize)>,
    lobby_id: Seq<char>,
    token: Seq<u8>,
    notice: Option<Notice>,
) -> bool {
    match claimed_player(before, lobby_id, token) {
        Some(id) => {
            let player = one_more_connection(before.lobbies[lobby_id].players[id]);
            &&& players_after == players_before.push((lobby_id, id))
            &&& after == (LobbyManagerView {
                lobbies: after_connect(before.lobbies, (lobby_id, id)),
                ..before
            })
            &&& if player.connection_count == 1 {
                notice is Some && notice->0@ == player_notice(lobby_id, player)
            } else {
                notice is None
            }
        },
        None => {
            &&& players_after == players_before
            &&& after == before
            &&& notice is None
        },
    }
}

/// A player in place of a player brings in nobody unknown.
proof fn lemma_player_no_strangers(l: LobbyView, id: usize, player: PlayerView)
    requires
        no_strangers(l),
    ensures
        no_strangers(with_player(l, id, player)),
{
    let after = with_player(l, id, player);
    assert forall|k: Seq<char>, i: int|
        after.proposals.contains_key(k) && 0 <= i
            < after.proposals[k].players.len() implies after.players.contains_key(
        (#[trigger] after.proposals[k].players[i]).player_id,
    ) by {
        assert(l.players.contains_key(l.proposals[k].players[i].player_id));
    }
}

/// Losing connections brings in nobody unknown.
proof fn lemma_drops_sound(mgr: LobbyManagerView, players: Seq<(Seq<char>, usize)>)
    requires
        sound(mgr),
    ensures
        sound(LobbyManagerView { lobbies: after_drops(mgr.lobbies, players), ..mgr }),
    decreases players.len(),
{
    if players.len() > 0 {
        let earlier = players.drop_last();
        lemma_drops_sound(mgr, earlier);
        let now = after_drops(mgr.lobbies, earlier);
        let player = players.last();
        if is_player(now, player) {
            let l = now[player.0];
            let lobbies = LobbyManagerView { lobbies: now, ..mgr }.lobbies;
            assert(lobbies.contains_key(player.0));
            lemma_player_no_strangers(l, player.1, one_less_connection(l.players[player.1]));
        }
    }
}

/// What comes of what a client says.
pub open spec fn message_heard<'a, S>(
    before: LobbyManagerView,
    after: LobbyManagerView,
    players_before: Seq<(Seq<char>, usize)>,
    players_after: Seq<(Seq<char>, usize)>,
    matches: Map<Seq<char>, MatchData<S>>,
    msg: WsClientMessage,
    action: HandlerAction<'a, S>,
) -> bool {
    match msg {
        WsClientMessage::AuthenticatePlayer(req) => {
            &&& action is Nothing || action is Tell
            &&& claim_heard(
                before,
                after,
                players_before,
                players_after,
                req.lobby_id@,
                req.token@,
                match action {
                    HandlerAction::Tell(notice) => Some(notice),
                    _ => None,
                },
            )
        },
        WsClientMessage::SubscribeToLobby(req) => {
            &&& players_after == players_before
            &&& after == before
            &&& if before.lobbies.contains_key(req.lobby_id@) {
                action matches HandlerAction::ShowLobby { lobby_id, state } && lobby_id@
                    == req.lobby_id@ && state@ == LobbyEventView::LobbyState(
                    lobby_data(before.lobbies[req.lobby_id@]),
                )
            } else {
                action is Nothing
            }
        },
        WsClientMessage::SubscribeToMatch(req) => {
            &&& players_after == players_before
            &&& after == before
            &&& if matches.contains_key(req.match_id@) && matches[req.match_id@] is InProgress {
                action matches HandlerAction::FollowMatch { stream_id, log_stream } && stream_id
                    == req.stream_id && matches[req.match_id@] == (MatchData::InProgress {
                    log_stream: *log_stream,
                })
            } else {
                action is Nothing
            }
        },
    }
}

/// What comes in over a connection.
#[derive(Debug)]
pub enum WsInput {
    /// Something that the client says.
    Message(WsClientMessage),
    /// Something that cannot be read.
    Unreadable,
    /// The connection has failed.
    Failed,
    /// The client has closed the connection.
    Closed,
}

/// What is to be done because of what came in.
#[derive(Debug)]
pub enum WsStep<'a, S> {
    /// Do this, and wait for what comes next.
    Continue(HandlerAction<'a, S>),
    /// Tell this, and stop.
    Stop(Vec<Notice>),
}

/// What comes of what came in over a connection.
pub open spec fn input_handled<'a, S>(
    before: LobbyManagerView,
    after: LobbyManagerView,
    players_before: Seq<(Seq<char>, usize)>,
    players_after: Seq<(Seq<char>, usize)>,
    matches: Map<Seq<char>, MatchData<S>>,
    input: WsInput,
    step: WsStep<'a, S>,
) -> bool {
    match input {
        WsInput::Message(msg) => step matches WsStep::Continue(action) && message_heard(
            before,
            after,
            players_before,
            players_after,
            matches,
            msg,
            action,
        ),
        WsInput::Unreadable => {
            &&& step matches WsStep::Continue(HandlerAction::Nothing)
            &&& players_after == players_before
            &&& after == before
        },
        _ => {
            &&& players_after == players_before
            &&& after == (LobbyManagerView {
                lobbies: after_drops(before.lobbies, players_before),
                ..before
            })
            &&& step matches WsStep::Stop(notices) && notice_views(notices@) == drop_notices(
                before.lobbies,
                players_before,
            )
        },
    }
}

impl ConnectionHandler {
    /// The number of the client's connection.
    pub closed spec fn id(self) -> usize {
        self.conn.id()
    }

    /// What was sent to the client by the handler itself.
    pub closed spec fn sends(self) -> Seq<(Seq<char>, bool)> {
        self.conn.sends()
    }

    /// The channel through which the client is reached.
    pub closed spec fn channel(self) -> int {
        self.conn.channel()
    }

    /// The players whom the client speaks for, once for each time that it said so.
    pub closed spec fn players(self) -> Seq<(Seq<char>, usize)> {
        player_views(self.authenticated_players@)
    }

    /// A client that has said nothing yet, reached through `tx`.
    pub fn new(conn_id: usize, tx: UnboundedSender<String>) -> (handler: Self)
        ensures
            handler.id() == conn_id,
            handler.sends() == send_attempts(tx),
            handler.channel() == channel_of(tx),
            handler.players() == Seq::<(Seq<char>, usize)>::empty(),
    {
        let handler = ConnectionHandler {
            conn: WsConnection::new(conn_id, tx),
            authenticated_players: Vec::new(),
        };
        assert(handler.players() =~= Seq::<(Seq<char>, usize)>::empty());
        handler
    }

    /// The client says which player of a lobby it speaks for. What is to be told of it.
    pub fn authenticate(&mut self, mgr: &mut LobbyManager, req: AuthenticatePlayer) -> (notice: Option<
        Notice,
    >)
        requires
            sound(old(mgr)@),
            can_count(old(mgr)@, req.lobby_id@, req.token@),
        ensures
            claim_heard(
                old(mgr)@,
                final(mgr)@,
                old(self).players(),
                final(self).players(),
                req.lobby_id@,
                req.token@,
                notice,
            ),
            final(self).id() == old(self).id(),
            final(self).channel() == old(self).channel(),
            final(self).sends() == old(self).sends(),
            sound(final(mgr)@),
            server_inv(old(mgr)@) ==> server_inv(final(mgr)@),
    {
        let ghost before = mgr@;
        let mut lobby = match mgr.lobbies.remove(&req.lobby_id) {
            Some(lobby) => lobby,
            None => {
                assert(before.lobbies.remove(req.lobby_id@) =~= before.lobbies);
                return None;
            },
        };
        let found: Option<usize> = match lobby.token_player.get(&req.token) {
            Some(player_id) => Some(*player_id),
            None => None,
        };
        let update = match found {
            Some(player_id) => {
                let ghost earlier = self.players();
                self.authenticated_players.push((req.lobby_id.clone(), player_id));
                assert(self.players() =~= earlier.push((req.lobby_id@, player_id)));
                assert(no_strangers(before.lobbies[req.lobby_id@]));
                lobby.add_connection(player_id)
            },
            None => None,
        };
        proof {
            let key = req.lobby_id@;
            assert(before.lobbies.remove(key).insert(key, lobby@) =~= before.lobbies.insert(
                key,
                lobby@,
            ));
            if found is None {
                assert(before.lobbies.insert(key, lobby@) =~= before.lobbies);
            } else {
                let id = found->0;
                let l = before.lobbies[key];
                lemma_player_no_strangers(l, id, one_more_connection(l.players[id]));
                if server_inv(before) {
                    law_connect(before, key, id);
                }
            }
        }
        mgr.lobbies.insert(req.lobby_id.clone(), lobby);
        match update {
            Some(data) => Some(
                Notice { lobby_id: req.lobby_id, event: LobbyEvent::PlayerData(data) },
            ),
            None => None,
        }
    }

    /// The client is gone. What is to be told of it.
    pub fn disconnect(&self, mgr: &mut LobbyManager) -> (notices: Vec<Notice>)
        ensures
            final(mgr)@ == (LobbyManagerView {
                lobbies: after_drops(old(mgr)@.lobbies, self.players()),
                ..old(mgr)@
            }),
            notice_views(notices@) == drop_notices(old(mgr)@.lobbies, self.players()),
            sound(old(mgr)@) ==> sound(final(mgr)@),
            server_inv(old(mgr)@) ==> server_inv(final(mgr)@),
    {
        proof {
            if sound(mgr@) {
                lemma_drops_sound(mgr@, self.players());
            }
            if server_inv(mgr@) {
                law_disconnect(mgr@, self.players());
            }
        }
        let ghost before = mgr@.lobbies;
        let ghost all = self.players();
        let mut notices: Vec<Notice> = Vec::new();
        let n = self.authenticated_players.len();
        let mut i: usize = 0;
        proof {
            assert(all.take(0) =~= Seq::<(Seq<char>, usize)>::empty());
            assert(notice_views(notices@) =~= Seq::<NoticeView>::empty());
        }
        while i < n
            invariant
                all == self.players(),
                n == self.authenticated_players@.len(),
                i <= n,
                mgr.lobbies@ == after_drops(before, all.take(i as int)),
                mgr.maps@ == old(mgr)@.maps,
                mgr.websocket_connections@ == old(mgr)@.websocket_connections,
                mgr.token_player@ == old(mgr)@.token_player,
                notice_views(notices@) == drop_notices(before, all.take(i as int)),
            decreases n - i,
        {
            let lobby_id = &self.authenticated_players[i].0;
            let player_id = self.authenticated_players[i].1;
            let ghost now = mgr.lobbies@;
            let ghost player = (lobby_id@, player_id);
            let ghost told = notice_views(notices@);
            proof {
                assert(all[i as int] == player);
                assert(all.take(i + 1).drop_last() =~= all.take(i as int));
            }
            match mgr.lobbies.remove(lobby_id) {
                Some(lobby) => {
                    let mut lobby = lobby;
                    let update = lobby.drop_connection(player_id);
                    proof {
                        assert(now.remove(lobby_id@).insert(lobby_id@, lobby@) =~= now.insert(
                            lobby_id@,
                            lobby@,
                        ));
                        if !is_player(now, player) {
                            assert(now.insert(lobby_id@, lobby@) =~= now);
                        }
                    }
                    mgr.lobbies.insert(lobby_id.clone(), lobby);
                    if let Some(data) = update {
                        let notice = Notice {
                            lobby_id: lobby_id.clone(),
                            event: LobbyEvent::PlayerData(data),
                        };
                        proof {
                            lemma_notice_push(notices@, notice);
                        }
                        notices.push(notice);
                    }
                },
                None => {
                    assert(now.remove(lobby_id@) =~= now);
                },
            }
            i += 1;
            assert(notice_views(notices@) =~= told + drop_notice(now, player));
        }
        assert(all.take(n as int) =~= all);
        notices
    }

    /// The client wants to hear of what happens in a lobby: the lobby as it is now, which the client
    /// is to be shown first.
    pub fn subscribe_to_lobby(&self, mgr: &LobbyManager, lobby_id: &String) -> (state: Option<
        LobbyEvent,
    >)
        ensures
            if mgr@.lobbies.contains_key(lobby_id@) {
                &&& state is Some
                &&& state->0@ == LobbyEventView::LobbyState(
                    lobby_data(mgr@.lobbies[lobby_id@]),
                )
            } else {
                state is None
            },
    {
        match mgr.lobbies.get(lobby_id) {
            Some(lobby) => Some(LobbyEvent::LobbyState(LobbyData::from(lobby.duplicate()))),
            None => None,
        }
    }

    /// Shows the client the lobby, as `state` has it, and lets it listen from there on. If the client
    /// is gone, nothing changes.
    pub fn listen(&mut self, mgr: &mut LobbyManager, lobby_id: String, state: String) -> (res: Result<
        (),
        (),
    >)
        ensures
            final(self).id() == old(self).id(),
            final(self).channel() == old(self).channel(),
            final(self).players() == old(self).players(),
            final(self).sends() == old(self).sends().push((state@, res is Ok)),
            match res {
                Ok(()) => exists|conn: WsConnection|
                    {
                        &&& #[trigger] conn.id() == old(self).id()
                        &&& conn.channel() == old(self).channel()
                        &&& conn.sends() == Seq::<(Seq<char>, bool)>::empty()
                        &&& final(mgr)@ == with_listener(old(mgr)@, lobby_id@, conn)
                    },
                Err(()) => final(mgr)@ == old(mgr)@,
            },
            res is Ok ==> listens(final(mgr)@, lobby_id@, old(self).channel()),
            sound(old(mgr)@) ==> sound(final(mgr)@),
            server_inv(old(mgr)@) ==> server_inv(final(mgr)@),
    {
        let ghost before = mgr@.websocket_connections;
        // update current state to prevent desync
        match self.conn.send(state) {
            Ok(()) => (),
            Err(()) => return Err(()),
        }
        // add connection to connection pool
        let mut connections = match mgr.websocket_connections.remove(&lobby_id) {
            Some(connections) => connections,
            None => Vec::new(),
        };
        let conn = self.conn.share();
        assert(conn.id() == old(self).id());
        connections.push(conn);
        proof {
            let list = connections@;
            assert(list =~= listeners(old(mgr)@, lobby_id@).push(conn));
            assert(before.remove(lobby_id@).insert(lobby_id@, list) =~= before.insert(
                lobby_id@,
                list,
            ));
        }
        proof {
            law_listener_listed(old(mgr)@, lobby_id@, conn, conn.channel());
        }
        mgr.websocket_connections.insert(lobby_id, connections);
        Ok(())
    }

    /// The client wants to hear the log of a match: how it can be had, if the match still runs.
    pub fn subscribe_to_match<'a, S>(
        &self,
        game_mgr: &'a GameManager<S>,
        req: &SubscribeToMatch,
    ) -> (log_stream: Option<&'a S>)
        ensures
            match log_stream {
                Some(s) => game_mgr@.contains_key(req.match_id@) && game_mgr@[req.match_id@]
                    == (MatchData::InProgress { log_stream: *s }),
                None => !game_mgr@.contains_key(req.match_id@) || game_mgr@[req.match_id@] is
                    Finished,
            },
    {
        game_mgr.running_log(req.match_id.as_str())
    }

    /// Does what the client says. What is still to be done because of it.
    pub fn handle_message<'a, S>(
        &mut self,
        mgr: &mut LobbyManager,
        game_mgr: &'a GameManager<S>,
        msg: WsClientMessage,
    ) -> (action: HandlerAction<'a, S>)
        requires
            sound(old(mgr)@),
            msg matches WsClientMessage::AuthenticatePlayer(req) ==> can_count(
                old(mgr)@,
                req.lobby_id@,
                req.token@,
            ),
        ensures
            final(self).id() == old(self).id(),
            final(self).channel() == old(self).channel(),
            final(self).sends() == old(self).sends(),
            message_heard(
                old(mgr)@,
                final(mgr)@,
                old(self).players(),
                final(self).players(),
                game_mgr@,
                msg,
                action,
            ),
            sound(final(mgr)@),
            server_inv(old(mgr)@) ==> server_inv(final(mgr)@),
    {
        match msg {
            WsClientMessage::AuthenticatePlayer(req) => match self.authenticate(mgr, req) {
                Some(notice) => HandlerAction::Tell(notice),
                None => HandlerAction::Nothing,
            },
            WsClientMessage::SubscribeToLobby(req) => match self.subscribe_to_lobby(
                mgr,
                &req.lobby_id,
            ) {
                Some(state) => HandlerAction::ShowLobby { lobby_id: req.lobby_id, state },
                None => HandlerAction::Nothing,
            },
            WsClientMessage::SubscribeToMatch(req) => match self.subscribe_to_match(
                game_mgr,
                &req,
            ) {
                Some(log_stream) => HandlerAction::FollowMatch {
                    stream_id: req.stream_id,
                    log_stream,
                },
                None => HandlerAction::Nothing,
            },
        }
    }
}

impl ConnectionHandler {
    /// Handles what comes in over the connection. What cannot be read is passed over; a connection that
    /// fails is given up as one that is closed.
    pub fn step<'a, S>(
        &mut self,
        mgr: &mut LobbyManager,
        game_mgr: &'a GameManager<S>,
        input: WsInput,
    ) -> (step: WsStep<'a, S>)
        requires
            sound(old(mgr)@),
            input matches WsInput::Message(WsClientMessage::AuthenticatePlayer(req)) ==> can_count(
                old(mgr)@,
                req.lobby_id@,
                req.token@,
            ),
        ensures
            final(self).id() == old(self).id(),
            final(self).channel() == old(self).channel(),
            final(self).sends() == old(self).sends(),
            input_handled(
                old(mgr)@,
                final(mgr)@,
                old(self).players(),
                final(self).players(),
                game_mgr@,
                input,
                step,
            ),
            sound(final(mgr)@),
            server_inv(old(mgr)@) ==> server_inv(final(mgr)@),
    {
        match input {
            WsInput::Message(msg) => WsStep::Continue(self.handle_message(mgr, game_mgr, msg)),
            WsInput::Unreadable => WsStep::Continue(HandlerAction::Nothing),
            WsInput::Failed | WsInput::Closed => WsStep::Stop(self.disconnect(mgr)),
        }
    }
}

/// What comes in is a claim of a client that cannot be counted any more.
pub open spec fn uncountable(mgr: LobbyManagerView, input: WsInput) -> bool {
    input matches WsInput::Message(WsClientMessage::AuthenticatePlayer(req)) && !can_count(
        mgr,
        req.lobby_id@,
        req.token@,
    )
}

/// Whether there is room to count another connection of the player whom a client claims to be.
fn claim_counts(mgr: &LobbyManager, req: &AuthenticatePlayer) -> (counts: bool)
    requires
        sound(mgr@),
    ensures
        counts == can_count(mgr@, req.lobby_id@, req.token@),
{
    let lobby = match mgr.lobbies.get(&req.lobby_id) {
        Some(lobby) => lobby,
        None => return true,
    };
    assert(no_strangers(mgr@.lobbies[req.lobby_id@]));
    match lobby.token_player.get(&req.token) {
        Some(player_id) => {
            assert(mgr@.lobbies[req.lobby_id@].token_player.contains_key(req.token@));
            lobby.players.get(player_id).unwrap().connection_count < usize::MAX
        },
        None => true,
    }
}

impl ConnectionHandler {
    /// Handles what comes in over the connection, unless it is a claim that cannot be counted any more.
    pub fn try_step<'a, S>(
        &mut self,
        mgr: &mut LobbyManager,
        game_mgr: &'a GameManager<S>,
        input: WsInput,
    ) -> (step: Option<WsStep<'a, S>>)
        requires
            sound(old(mgr)@),
        ensures
            final(self).id() == old(self).id(),
            final(self).channel() == old(self).channel(),
            final(self).sends() == old(self).sends(),
            match step {
                Some(step) => !uncountable(old(mgr)@, input) && input_handled(
                    old(mgr)@,
                    final(mgr)@,
                    old(self).players(),
                    final(self).players(),
                    game_mgr@,
                    input,
                    step,
                ),
                None => {
                    &&& uncountable(old(mgr)@, input)
                    &&& final(self).players() == old(self).players()
                    &&& final(mgr)@ == old(mgr)@
                },
            },
            sound(final(mgr)@),
            server_inv(old(mgr)@) ==> server_inv(final(mgr)@),
    {
        let counts = match &input {
            WsInput::Message(WsClientMessage::AuthenticatePlayer(req)) => claim_counts(mgr, req),
            _ => true,
        };
        if counts {
            Some(self.step(mgr, game_mgr, input))
        } else {
            None
        }
    }
}

/// Those who listen to a lobby.
pub open spec fn listeners(mgr: LobbyManagerView, lobby_id: Seq<char>) -> Seq<WsConnection> {
    if mgr.websocket_connections.contains_key(lobby_id) {
        mgr.websocket_connections[lobby_id]
    } else {
        Seq::empty()
    }
}

/// The server with `conn` put at the end of the list of those who listen to a lobby.
pub open spec fn with_listener(
    mgr: LobbyManagerView,
    lobby_id: Seq<char>,
    conn: WsConnection,
) -> LobbyManagerView {
    LobbyManagerView {
        websocket_connections: mgr.websocket_connections.insert(
            lobby_id,
            listeners(mgr, lobby_id).push(conn),
        ),
        ..mgr
    }
}

/// What a client that follows a match is told of one entry of its log.
pub fn match_log_event(stream_id: usize, entry: String) -> (event: LobbyEvent)
    ensures
        event@ == (LobbyEventView::MatchLogEvent { stream_id, event: entry@ }),
{
    LobbyEvent::MatchLogEvent(MatchLogEvent { stream_id, event: entry })
}

} // verus!
