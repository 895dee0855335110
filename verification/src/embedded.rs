//! The server inside another program, which speaks to it in frames.

use vstd::prelude::*;

use crate::game_manager::{player_number, player_numbers};
use crate::table::Table;

verus! {

/// A number as four bytes, the highest first.
pub open spec fn be_bytes(n: u32) -> Seq<u8> {
    seq![
        (n / 0x100_0000) as u8,
        (n / 0x1_0000 % 0x100) as u8,
        (n / 0x100 % 0x100) as u8,
        (n % 0x100) as u8,
    ]
}

/// The number that four bytes stand for, the highest first.
pub open spec fn be_value(bytes: Seq<u8>) -> u32 {
    (bytes[0] * 0x100_0000 + bytes[1] * 0x1_0000 + bytes[2] * 0x100 + bytes[3]) as u32
}

/// What a frame says of the length of its content: as much of it as four bytes can hold.
pub open spec fn stated_len(content: Seq<u8>) -> u32 {
    (content.len() % 0x1_0000_0000) as u32
}

/// `content` as a frame: its length and then itself.
pub open spec fn frame(content: Seq<u8>) -> Seq<u8> {
    be_bytes(stated_len(content)) + content
}

/// The content of the first frame of `stream` and what follows it, if the frame is all there.
pub open spec fn first_frame(stream: Seq<u8>) -> Option<(Seq<u8>, Seq<u8>)> {
    if stream.len() < 4 {
        None
    } else {
        let end = 4 + be_value(stream.take(4));
        if stream.len() < end {
            None
        } else {
            Some((stream.subrange(4, end), stream.skip(end)))
        }
    }
}

/// A number is read back from its bytes.
pub proof fn law_be_round_trip(n: u32)
    ensures
        be_bytes(n).len() == 4,
        be_value(be_bytes(n)) == n,
{
    assert(n / 0x100_0000 < 0x100);
    assert(n / 0x1_0000 % 0x100 < 0x100);
    assert(n == (n / 0x100_0000) * 0x100_0000 + (n / 0x1_0000 % 0x100) * 0x1_0000 + (n / 0x100
        % 0x100) * 0x100 + n % 0x100);
}

/// The first frame of a stream is read as it was written, if its length fits in four bytes, and what
/// follows it is left.
pub proof fn law_frame_round_trip(content: Seq<u8>, rest: Seq<u8>)
    requires
        content.len() <= u32::MAX,
    ensures
        first_frame(frame(content) + rest) == Some((content, rest)),
{
    let stream = frame(content) + rest;
    law_be_round_trip(stated_len(content));
    assert(stream.take(4) =~= be_bytes(stated_len(content)));
    let end = 4 + content.len() as int;
    assert(stream.subrange(4, end) =~= content);
    assert(stream.skip(end) =~= rest);
}

/// The length of the content that follows the head of a frame.
pub fn frame_len(head: &[u8; 4]) -> (len: u32)
    ensures
        len == be_value(head@),
{
    let len: u32 = head[0] as u32 * 0x100_0000 + head[1] as u32 * 0x1_0000 + head[2] as u32 * 0x100
        + head[3] as u32;
    len
}

/// Frames `buf`.
pub fn encode_frame(buf: &Vec<u8>) -> (bytes: Vec<u8>)
    ensures
        bytes@ == frame(buf@),
{
    let full: u64 = buf.len() as u64;
    let n: u32 = #[verifier::truncate] (full as u32);
    assert(n == full % 0x1_0000_0000) by (bit_vector)
        requires
            n == full as u32,
    ;
    assert(n / 0x100_0000 < 0x100);
    let mut bytes: Vec<u8> = Vec::new();
    bytes.push((n / 0x100_0000) as u8);
    bytes.push((n / 0x1_0000 % 0x100) as u8);
    bytes.push((n / 0x100 % 0x100) as u8);
    bytes.push((n % 0x100) as u8);
    assert(bytes@ =~= be_bytes(stated_len(buf@)));
    let len = buf.len();
    let mut i: usize = 0;
    assert(bytes@ =~= be_bytes(stated_len(buf@)) + buf@.take(0));
    while i < len
        invariant
            len == buf@.len(),
            i <= len,
            bytes@ == be_bytes(stated_len(buf@)) + buf@.take(i as int),
        decreases len - i,
    {
        bytes.push(buf[i]);
        i += 1;
        assert(bytes@ =~= be_bytes(stated_len(buf@)) + buf@.take(i as int));
    }
    assert(buf@.take(len as int) =~= buf@);
    bytes
}

/// A player of one of the matches.
#[derive(Debug)]
pub struct PlayerUid {
    pub match_id: String,
    pub player_id: u32,
}

pub struct PlayerUidView {
    pub match_id: Seq<char>,
    pub player_id: u32,
}

impl View for PlayerUid {
    type V = PlayerUidView;

    open spec fn view(&self) -> PlayerUidView {
        PlayerUidView { match_id: self.match_id@, player_id: self.player_id }
    }
}

/// What a list of players says.
pub open spec fn uid_views(players: Seq<PlayerUid>) -> Seq<PlayerUidView> {
    players.map_values(|player: PlayerUid| player@)
}

/// A match is to be played, as `config` has it.
#[derive(Debug)]
pub struct StartMatch<C> {
    pub match_id: String,
    pub num_players: usize,
    pub config: C,
}

/// A player answers a request.
#[derive(Debug)]
pub struct PlayerResponse {
    pub match_id: String,
    pub player_id: u32,
    pub request_id: u32,
    pub content: Vec<u8>,
}

/// What the server can be told to do.
#[derive(Debug)]
pub enum CtrlMsg<C> {
    StartMatch(StartMatch<C>),
    PlayerResponse(PlayerResponse),
}

/// A player is asked something.
#[derive(Debug)]
pub struct PlayerRequest {
    pub match_id: String,
    pub player_id: u32,
    pub request_id: u32,
    pub content: Vec<u8>,
}

/// A match is over.
#[derive(Debug)]
pub struct MatchFinished {
    pub match_id: String,
    pub match_log: Vec<String>,
}

/// What the server says.
#[derive(Debug)]
pub enum ServerMessage {
    PlayerRequest(PlayerRequest),
    MatchFinished(MatchFinished),
}

/// What happens around the server: a frame came in, a match asks a player something, or a match is
/// over.
#[derive(Debug)]
pub enum HandlerEvent<C> {
    Control(CtrlMsg<C>),
    Request { player: PlayerUid, request_id: u32, content: Vec<u8> },
    MatchComplete { id: String, log: Vec<String> },
}

/// An answer of a player that a match is to be given.
#[derive(Debug)]
pub struct ResponseEvent {
    pub player_id: u32,
    pub request_id: u32,
    pub response: Vec<u8>,
}

/// What is to be done because of what happened.
#[derive(Debug)]
pub enum HandlerOutput<'a, B, C> {
    /// Play the match with these players.
    Play { match_id: String, players: Vec<PlayerUid>, config: C },
    /// Give `event` to the match that listens to `event_bus`.
    Forward { event_bus: &'a B, event: ResponseEvent },
    /// Send a message, as a frame.
    Send(ServerMessage),
}

/// How a match that runs is told what happens to it.
#[derive(Debug)]
pub struct RunningMatch<B> {
    pub event_bus: B,
}

impl<B> View for RunningMatch<B> {
    type V = B;

    open spec fn view(&self) -> B {
        self.event_bus
    }
}

/// The matches that run. `B` is how a match is told what happens to it.
#[derive(Debug)]
pub struct Handler<B> {
    match_event_bus: Table<String, RunningMatch<B>>,
}

impl<B> View for Handler<B> {
    type V = Map<Seq<char>, B>;

    closed spec fn view(&self) -> Map<Seq<char>, B> {
        self.match_event_bus@
    }
}

/// The players of a match of `count`.
pub open spec fn match_uids(match_id: Seq<char>, count: nat) -> Seq<PlayerUidView> {
    Seq::new(count, |i: int| PlayerUidView { match_id, player_id: player_number(i) })
}

impl<B> Handler<B> {
    /// No match runs.
    pub fn new() -> (handler: Self)
        ensures
            handler@ == Map::<Seq<char>, B>::empty(),
    {
        Handler { match_event_bus: Table::new() }
    }

    /// Takes down that a match runs. The players it is played with.
    pub fn start_match<C>(&mut self, m: &StartMatch<C>, event_bus: B) -> (players: Vec<PlayerUid>)
        ensures
            final(self)@ == old(self)@.insert(m.match_id@, event_bus),
            uid_views(players@) == match_uids(m.match_id@, m.num_players as nat),
    {
        self.match_event_bus.insert(m.match_id.clone(), RunningMatch { event_bus });
        let numbers = player_numbers(m.num_players);
        let n = numbers.len();
        let mut players: Vec<PlayerUid> = Vec::new();
        let mut i: usize = 0;
        while i < n
            invariant
                n == numbers@.len(),
                i <= n,
                players@.len() == i,
                forall|j: int|
                    0 <= j < i ==> (#[trigger] players@[j])@ == (PlayerUidView {
                        match_id: m.match_id@,
                        player_id: numbers@[j],
                    }),
            decreases n - i,
        {
            players.push(PlayerUid { match_id: m.match_id.clone(), player_id: numbers[i] });
            i += 1;
        }
        assert(uid_views(players@) =~= match_uids(m.match_id@, m.num_players as nat));
        players
    }

    /// Finds the match that a player answers to. The match must run.
    pub fn handle_response(&self, resp: PlayerResponse) -> (out: (&B, ResponseEvent))
        requires
            self@.contains_key(resp.match_id@),
        ensures
            *out.0 == self@[resp.match_id@],
            out.1 == (ResponseEvent {
                player_id: resp.player_id,
                request_id: resp.request_id,
                response: resp.content,
            }),
    {
        let running = self.match_event_bus.get(&resp.match_id).unwrap();
        (
            &running.event_bus,
            ResponseEvent {
                player_id: resp.player_id,
                request_id: resp.request_id,
                response: resp.content,
            },
        )
    }

    /// Whether a match runs.
    pub fn is_running(&self, match_id: &String) -> (running: bool)
        ensures
            running == self@.contains_key(match_id@),
    {
        self.match_event_bus.contains_key(match_id)
    }

    /// Takes down that a match is over. What is to be said of it.
    pub fn finish_match(&mut self, id: String, log: Vec<String>) -> (msg: ServerMessage)
        ensures
            final(self)@ == old(self)@.remove(id@),
            msg == ServerMessage::MatchFinished(MatchFinished { match_id: id, match_log: log }),
    {
        self.match_event_bus.remove(&id);
        ServerMessage::MatchFinished(MatchFinished { match_id: id, match_log: log })
    }

    /// Does what an event asks for. `event_bus` is for the match that the event may start. What is
    /// still to be done because of it.
    pub fn handle_event<C>(&mut self, event: HandlerEvent<C>, event_bus: B) -> (out: HandlerOutput<
        '_,
        B,
        C,
    >)
        requires
            event matches HandlerEvent::Control(CtrlMsg::PlayerResponse(resp)) ==> old(
                self,
            )@.contains_key(resp.match_id@),
        ensures
            match event {
                HandlerEvent::Control(CtrlMsg::StartMatch(m)) => {
                    &&& final(self)@ == old(self)@.insert(m.match_id@, event_bus)
                    &&& out matches HandlerOutput::Play { match_id, players, config } && match_id
                        == m.match_id && config == m.config && uid_views(players@) == match_uids(
                        m.match_id@,
                        m.num_players as nat,
                    )
                },
                HandlerEvent::Control(CtrlMsg::PlayerResponse(resp)) => {
                    &&& final(self)@ == old(self)@
                    &&& out matches HandlerOutput::Forward { event_bus: bus, event } && *bus == old(
                        self,
                    )@[resp.match_id@] && event == (ResponseEvent {
                        player_id: resp.player_id,
                        request_id: resp.request_id,
                        response: resp.content,
                    })
                },
                HandlerEvent::Request { player, request_id, content } => {
                    &&& final(self)@ == old(self)@
                    &&& out == (HandlerOutput::<B, C>::Send(
                        ServerMessage::PlayerRequest(
                            PlayerRequest {
                                match_id: player.match_id,
                                player_id: player.player_id,
                                request_id,
                                content,
                            },
                        ),
                    ))
                },
                HandlerEvent::MatchComplete { id, log } => {
                    &&& final(self)@ == old(self)@.remove(id@)
                    &&& out == (HandlerOutput::<B, C>::Send(
                        ServerMessage::MatchFinished(
                            MatchFinished { match_id: id, match_log: log },
                        ),
                    ))
                },
            },
    {
        match event {
            HandlerEvent::Control(CtrlMsg::StartMatch(m)) => {
                let players = self.start_match(&m, event_bus);
                HandlerOutput::Play { match_id: m.match_id, players, config: m.config }
            },
            HandlerEvent::Control(CtrlMsg::PlayerResponse(resp)) => {
                let (event_bus, event) = self.handle_response(resp);
                HandlerOutput::Forward { event_bus, event }
            },
            HandlerEvent::Request { player, request_id, content } => HandlerOutput::Send(
                ServerMessage::PlayerRequest(
                    PlayerRequest {
                        match_id: player.match_id,
                        player_id: player.player_id,
                        request_id,
                        content,
                    },
                ),
            ),
            HandlerEvent::MatchComplete { id, log } => HandlerOutput::Send(
                self.finish_match(id, log),
            ),
        }
    }
}

/// A number is written with its highest byte first.
pub proof fn law_highest_byte_first(n: u32)
    ensures
        be_bytes(n).len() == 4,
        n == be_bytes(n)[0] * 16777216 + be_bytes(n)[1] * 65536 + be_bytes(n)[2] * 256
            + be_bytes(n)[3],
{
    law_be_round_trip(n);
    assert(n / 0x100_0000 < 0x100);
    assert(n == (n / 0x100_0000) * 0x100_0000 + (n / 0x1_0000 % 0x100) * 0x1_0000 + (n / 0x100
        % 0x100) * 0x100 + n % 0x100);
}

/// Four bytes are read with the highest first.
pub proof fn law_read_highest_byte_first(bytes: Seq<u8>)
    ensures
        be_value(bytes) == bytes[0] * 16777216 + bytes[1] * 65536 + bytes[2] * 256 + bytes[3],
{
}

/// A frame is four bytes that say how long its content is, and then the content as it is.
pub proof fn law_frame(content: Seq<u8>)
    requires
        content.len() <= u32::MAX,
    ensures
        frame(content).len() == 4 + content.len(),
        content.len() == frame(content)[0] * 16777216 + frame(content)[1] * 65536 + frame(
            content,
        )[2] * 256 + frame(content)[3],
        frame(content).skip(4) == content,
{
    law_highest_byte_first(stated_len(content));
    assert(frame(content).skip(4) =~= content);
}

/// The players of a match are known by the match and by their number, counted from one.
pub proof fn law_match_uids(match_id: Seq<char>, count: nat)
    requires
        count <= u32::MAX,
    ensures
        match_uids(match_id, count).len() == count,
        forall|i: int|
            0 <= i < count ==> (#[trigger] match_uids(match_id, count)[i]).match_id == match_id
                && match_uids(match_id, count)[i].player_id == i + 1,
{
}

/// A list of players says who each of them is, in order.
pub proof fn law_uid_views(players: Seq<PlayerUid>)
    ensures
        uid_views(players).len() == players.len(),
        forall|i: int|
            0 <= i < players.len() ==> (#[trigger] uid_views(players)[i]).match_id
                == players[i].match_id@ && uid_views(players)[i].player_id == players[i].player_id,
{
}

/// A frame is read exactly when all of it is there: the four bytes, and as much as they say.
pub proof fn law_first_frame(stream: Seq<u8>)
    ensures
        ({
            let stated = stream[0] * 16777216 + stream[1] * 65536 + stream[2] * 256 + stream[3];
            &&& first_frame(stream) is None <==> stream.len() < 4 || stream.len() < 4 + stated
            &&& first_frame(stream) matches Some((content, rest)) ==> content.len() == stated
                && stream == stream.take(4) + content + rest
        }),
{
    if stream.len() >= 4 {
        law_read_highest_byte_first(stream.take(4));
        if first_frame(stream) is Some {
            let (content, rest) = first_frame(stream)->0;
            assert(stream =~= stream.take(4) + content + rest);
        }
    }
}

} // verus!
