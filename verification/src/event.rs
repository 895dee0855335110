//! What a lobby tells those who listen to it.

use vstd::prelude::*;

use crate::lobby::{
    LobbyData, LobbyDataView, MatchMeta, MatchMetaView, PlayerData, PlayerDataView, Proposal,
    ProposalView,
};

verus! {

/// One line of the log of a match, for the listener's stream `stream_id`.
#[derive(Debug)]
pub struct MatchLogEvent {
    pub stream_id: usize,
    pub event: String,
}

/// Something that happened in a lobby.
#[derive(Debug)]
pub enum LobbyEvent {
    LobbyState(LobbyData),
    PlayerData(PlayerData),
    ProposalData(Proposal),
    MatchData(MatchMeta),
    MatchLogEvent(MatchLogEvent),
}

pub enum LobbyEventView {
    LobbyState(LobbyDataView),
    PlayerData(PlayerDataView),
    ProposalData(ProposalView),
    MatchData(MatchMetaView),
    MatchLogEvent { stream_id: usize, event: Seq<char> },
}

impl View for LobbyEvent {
    type V = LobbyEventView;

    open spec fn view(&self) -> LobbyEventView {
        match self {
            LobbyEvent::LobbyState(data) => LobbyEventView::LobbyState(data@),
            LobbyEvent::PlayerData(data) => LobbyEventView::PlayerData(data@),
            LobbyEvent::ProposalData(data) => LobbyEventView::ProposalData(data@),
            LobbyEvent::MatchData(data) => LobbyEventView::MatchData(data@),
            LobbyEvent::MatchLogEvent(log) => LobbyEventView::MatchLogEvent {
                stream_id: log.stream_id,
                event: log.event@,
            },
        }
    }
}

/// Something to be told to all who listen to a lobby.
#[derive(Debug)]
pub struct Notice {
    pub lobby_id: String,
    pub event: LobbyEvent,
}

pub struct NoticeView {
    pub lobby_id: Seq<char>,
    pub event: LobbyEventView,
}

impl View for Notice {
    type V = NoticeView;

    open spec fn view(&self) -> NoticeView {
        NoticeView { lobby_id: self.lobby_id@, event: self.event@ }
    }
}

/// What a list of notices says.
pub open spec fn notice_views(notices: Seq<Notice>) -> Seq<NoticeView> {
    notices.map_values(|notice: Notice| notice@)
}

/// One notice more is one thing more that is said.
pub proof fn lemma_notice_push(notices: Seq<Notice>, notice: Notice)
    ensures
        notice_views(notices.push(notice)) == notice_views(notices).push(notice@),
{
    assert(notice_views(notices.push(notice)) =~= notice_views(notices).push(notice@));
}

/// A notice says what happened, to the lobby where it happened, and nothing of it is lost.
pub proof fn law_notice_view(notice: Notice)
    ensures
        notice@.lobby_id == notice.lobby_id@,
        match notice.event {
            LobbyEvent::LobbyState(data) => notice@.event == LobbyEventView::LobbyState(data@),
            LobbyEvent::PlayerData(data) => notice@.event == LobbyEventView::PlayerData(data@),
            LobbyEvent::ProposalData(data) => notice@.event == LobbyEventView::ProposalData(data@),
            LobbyEvent::MatchData(data) => notice@.event == LobbyEventView::MatchData(data@),
            LobbyEvent::MatchLogEvent(log) => notice@.event == (LobbyEventView::MatchLogEvent {
                stream_id: log.stream_id,
                event: log.event@,
            }),
        },
{
}

/// A list of notices says what each of them says, in order.
pub proof fn law_notice_views(notices: Seq<Notice>)
    ensures
        notice_views(notices).len() == notices.len(),
        forall|i: int| 0 <= i < notices.len() ==> #[trigger] notice_views(notices)[i] == notices[i]@,
{
}

} // verus!
