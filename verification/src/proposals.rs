//! How a match is proposed, answered and started.

use vstd::prelude::*;

use crate::error::{LobbyApiError, LobbyApiErrorView, LobbyApiResult};
use crate::game_manager::{MatchPlayer, MatchPlayerView};
use crate::lobby::{
    AcceptedState, Lobby, LobbyView, MatchMeta, MatchMetaView, MatchStatus, PlayerType,
    PlayerTypeView, Proposal, ProposalPlayer, ProposalStatus, ProposalStatusView, ProposalView,
    PwMapData, PwMapDataView, Timestamp,
};
use crate::planetwars::{MatchConfig, MatchConfigView};
use crate::table::{Duplicate, Table};

verus! {

/// Nobody is spoken of who is not there: every token and every proposal names players of the lobby.
pub open spec fn no_strangers(l: LobbyView) -> bool {
    &&& forall|token: Seq<u8>| #[trigger]
        l.token_player.contains_key(token) ==> l.players.contains_key(l.token_player[token])
    &&& forall|key: Seq<char>, i: int|
        l.proposals.contains_key(key) && 0 <= i < l.proposals[key].players.len()
            ==> l.players.contains_key((#[trigger] l.proposals[key].players[i]).player_id)
}

/// Every player that `proposal` asks has accepted it and has a client to play with.
pub open spec fn all_ready(l: LobbyView, proposal: ProposalView) -> bool {
    forall|i: int|
        0 <= i < proposal.players.len() ==> player_ready(l, #[trigger] proposal.players[i])
}

/// One player that a proposal asks has accepted it and has a client to play with.
pub open spec fn player_ready(l: LobbyView, asked: ProposalPlayer) -> bool {
    asked.status == AcceptedState::Accepted && l.players[asked.player_id].client_connected
}

/// Why `player` may not start the proposal, if that is so. What is checked first is answered first.
pub open spec fn start_refusal(
    l: LobbyView,
    player: Option<usize>,
    proposal_id: Seq<char>,
) -> Option<LobbyApiErrorView> {
    if player is None {
        Some(LobbyApiErrorView::NotAuthenticated)
    } else if !l.proposals.contains_key(proposal_id) {
        Some(LobbyApiErrorView::ProposalNotFound)
    } else if player->0 != l.proposals[proposal_id].owner_id {
        Some(LobbyApiErrorView::NotAuthorized)
    } else if l.proposals[proposal_id].status !is Pending {
        Some(LobbyApiErrorView::ProposalExpired)
    } else if !all_ready(l, l.proposals[proposal_id]) {
        Some(LobbyApiErrorView::ProposalNotReady)
    } else {
        None
    }
}

/// How a player takes part in a match.
pub open spec fn match_player(player_type: PlayerTypeView) -> MatchPlayerView {
    match player_type {
        PlayerTypeView::External { token } => MatchPlayerView::External(token),
        PlayerTypeView::Internal { bot } => MatchPlayerView::Internal(bot),
    }
}

/// Those who take part in the match of `proposal`, in the order in which it asks them.
pub open spec fn match_players(l: LobbyView, proposal: ProposalView) -> Seq<MatchPlayerView> {
    proposal.players.map_values(
        |asked: ProposalPlayer| match_player(l.players[asked.player_id].player_type),
    )
}

/// The match that starts from `proposal`.
pub open spec fn new_match(
    proposal: ProposalView,
    match_id: Seq<char>,
    now: Timestamp,
) -> MatchMetaView {
    MatchMetaView {
        id: match_id,
        timestamp: now,
        config: proposal.config,
        players: proposal.players.map_values(|asked: ProposalPlayer| asked.player_id),
        status: MatchStatus::Playing,
    }
}

/// `proposal` once its match has started.
pub open spec fn accepted_proposal(proposal: ProposalView, match_id: Seq<char>) -> ProposalView {
    ProposalView { status: ProposalStatusView::Accepted { match_id }, ..proposal }
}

/// The lobby once the match of the proposal has started: the match is listed, and the proposal is no
/// longer open.
pub open spec fn started(
    l: LobbyView,
    proposal_id: Seq<char>,
    match_id: Seq<char>,
    now: Timestamp,
) -> LobbyView {
    let proposal = l.proposals[proposal_id];
    LobbyView {
        matches: l.matches.insert(match_id, new_match(proposal, match_id, now)),
        proposals: l.proposals.insert(
            proposal_id,
            accepted_proposal(proposal, match_id),
        ).remove(proposal.id),
        ..l
    }
}

/// One player more is one view more.
proof fn lemma_views_push(players: Seq<MatchPlayer>, player: MatchPlayer)
    ensures
        players.push(player).map_values(|p: MatchPlayer| p@) == players.map_values(
            |p: MatchPlayer| p@,
        ).push(player@),
{
    assert(players.push(player).map_values(|p: MatchPlayer| p@) =~= players.map_values(
        |p: MatchPlayer| p@,
    ).push(player@));
}

impl Lobby {
    /// Those who take part in the match of a proposal, if `player` may start it.
    pub fn ready_players(&self, player: Option<usize>, proposal_id: &String) -> (res: LobbyApiResult<
        Vec<MatchPlayer>,
    >)
        requires
            no_strangers(self@),
        ensures
            match start_refusal(self@, player, proposal_id@) {
                Some(refusal) => res is Err && res->Err_0@ == refusal,
                None => res is Ok && res->Ok_0@.map_values(|p: MatchPlayer| p@) == match_players(
                    self@,
                    self@.proposals[proposal_id@],
                ),
            },
    {
        let player_id = match player {
            Some(id) => id,
            None => return Err(LobbyApiError::NotAuthenticated),
        };
        let proposal = match self.proposals.get(proposal_id) {
            Some(proposal) => proposal,
            None => return Err(LobbyApiError::ProposalNotFound),
        };
        if player_id != proposal.owner_id {
            return Err(LobbyApiError::NotAuthorized);
        }
        match proposal.status {
            ProposalStatus::Pending => (),
            _ => return Err(LobbyApiError::ProposalExpired),
        }
        let ghost expected = match_players(self@, proposal@);
        let n = proposal.players.len();
        let mut players: Vec<MatchPlayer> = Vec::new();
        let mut i: usize = 0;
        while i < n
            invariant
                no_strangers(self@),
                self@.proposals.contains_key(proposal_id@),
                self@.proposals[proposal_id@] == proposal@,
                player == Some(proposal@.owner_id),
                proposal@.status is Pending,
                expected == match_players(self@, proposal@),
                n == proposal@.players.len(),
                i <= n,
                forall|j: int| 0 <= j < i ==> player_ready(self@, #[trigger] proposal@.players[j]),
                players@.map_values(|p: MatchPlayer| p@) == expected.take(i as int),
            decreases n - i,
        {
            let asked = proposal.players[i];
            assert(self@.proposals[proposal_id@].players[i as int] == asked);
            let player = self.players.get(&asked.player_id).unwrap();
            if asked.status != AcceptedState::Accepted || !player.client_connected {
                assert(!player_ready(self@, proposal@.players[i as int]));
                return Err(LobbyApiError::ProposalNotReady);
            }
            let match_player = match &player.player_type {
                PlayerType::External { token } => MatchPlayer::External(*token),
                PlayerType::Internal { bot } => MatchPlayer::Internal(bot.clone()),
            };
            assert(match_player@ == expected[i as int]);
            let ghost earlier = players@;
            players.push(match_player);
            i += 1;
            proof {
                lemma_views_push(earlier, match_player);
                assert(expected.take(i as int) =~= expected.take(i - 1).push(expected[i - 1]));
            }
        }
        assert(expected.take(n as int) =~= expected);
        Ok(players)
    }

    /// Records that the match of a proposal has started.
    pub fn start_match(&mut self, proposal_id: &String, match_id: String, now: Timestamp) -> (res: (
        Proposal,
        MatchMeta,
    ))
        requires
            old(self)@.proposals.contains_key(proposal_id@),
        ensures
            final(self)@ == started(old(self)@, proposal_id@, match_id@, now),
            res.0@ == accepted_proposal(old(self)@.proposals[proposal_id@], match_id@),
            res.1@ == new_match(old(self)@.proposals[proposal_id@], match_id@, now),
            ({
                let proposal = old(self)@.proposals[proposal_id@];
                &&& res.1.id@ == match_id@
                &&& res.1.timestamp == now
                &&& res.1.status == MatchStatus::Playing
                &&& res.1.config.map_name@ == proposal.config.map_name
                &&& res.1.config.max_turns == proposal.config.max_turns
                &&& res.1.players@.len() == proposal.players.len()
                &&& forall|i: int|
                    0 <= i < proposal.players.len() ==> #[trigger] res.1.players@[i]
                        == proposal.players[i].player_id
                &&& res.0.id@ == proposal.id
                &&& res.0.owner_id == proposal.owner_id
                &&& res.0.config.map_name@ == proposal.config.map_name
                &&& res.0.config.max_turns == proposal.config.max_turns
                &&& res.0.players@ == proposal.players
                &&& res.0.status matches ProposalStatus::Accepted { match_id: id } && id@
                    == match_id@
            }),
    {
        let ghost before = self@;
        let mut proposal = self.proposals.get(proposal_id).unwrap().duplicate();
        let n = proposal.players.len();
        let mut players: Vec<usize> = Vec::new();
        let ghost expected = new_match(proposal@, match_id@, now).players;
        let mut i: usize = 0;
        while i < n
            invariant
                expected == new_match(proposal@, match_id@, now).players,
                n == proposal@.players.len(),
                i <= n,
                players@ == expected.take(i as int),
            decreases n - i,
        {
            players.push(proposal.players[i].player_id);
            i += 1;
            assert(players@ =~= expected.take(i as int));
        }
        assert(players@ =~= expected);
        let match_meta = MatchMeta {
            id: match_id.clone(),
            timestamp: now,
            status: MatchStatus::Playing,
            config: proposal.config.duplicate(),
            players,
        };
        self.matches.insert(match_meta.id.clone(), match_meta.duplicate());
        proposal.status = ProposalStatus::Accepted { match_id };
        self.proposals.insert(proposal_id.clone(), proposal.duplicate());
        // the proposal is no longer open; remove it
        self.proposals.remove(&proposal.id);
        (proposal, match_meta)
    }
}

/// The largest number of turns that a match may be asked to take.
pub const MAX_TURNS_ALLOWED: usize = 500;

/// The maps that matches can be played on, by name.
pub type PwMaps = Table<String, PwMapData>;

/// What a new proposal is asked to be.
#[derive(Debug)]
pub struct ProposalParams {
    pub config: MatchConfig,
    pub players: Vec<usize>,
}

/// What is wrong with asking `players` to play `config`, if anything is.
pub open spec fn params_refusal(
    maps: Map<Seq<char>, PwMapDataView>,
    config: MatchConfigView,
    players: Seq<usize>,
) -> Option<LobbyApiErrorView> {
    if config.max_turns > MAX_TURNS_ALLOWED {
        Some(LobbyApiErrorView::InvalidProposalParams("max allowed turns is 500"@))
    } else if !maps.contains_key(config.map_name) {
        Some(LobbyApiErrorView::InvalidProposalParams("map does not exist"@))
    } else if players.len() > maps[config.map_name].max_players {
        Some(LobbyApiErrorView::InvalidProposalParams("too many players"@))
    } else {
        None
    }
}

/// Checks what can be checked of a proposal before anything is known of who makes it.
pub fn validate_proposal_params(maps: &PwMaps, params: &ProposalParams) -> (res: LobbyApiResult<()>)
    ensures
        match params_refusal(maps@, params.config@, params.players@) {
            Some(refusal) => res is Err && res->Err_0@ == refusal,
            None => res is Ok,
        },
{
    if params.config.max_turns > MAX_TURNS_ALLOWED {
        return Err(
            LobbyApiError::InvalidProposalParams("max allowed turns is 500".to_owned()),
        );
    }
    let map_data = match maps.get(&params.config.map_name) {
        Some(map_data) => map_data,
        None => {
            return Err(LobbyApiError::InvalidProposalParams("map does not exist".to_owned()));
        },
    };
    if params.players.len() > map_data.max_players {
        return Err(LobbyApiError::InvalidProposalParams("too many players".to_owned()));
    }
    Ok(())
}

/// What a player that a new proposal asks has said to it: its maker and the server's own bots agree
/// from the start.
pub open spec fn first_answer(l: LobbyView, creator: usize, player_id: usize) -> AcceptedState {
    if player_id == creator || l.players[player_id].player_type is Internal {
        AcceptedState::Accepted
    } else {
        AcceptedState::Unanswered
    }
}

/// The proposal that `creator` makes to `players`.
pub open spec fn new_proposal(
    l: LobbyView,
    creator: usize,
    config: MatchConfigView,
    players: Seq<usize>,
    proposal_id: Seq<char>,
) -> ProposalView {
    ProposalView {
        id: proposal_id,
        owner_id: creator,
        config,
        players: players.map_values(
            |player_id: usize|
                ProposalPlayer { player_id, status: first_answer(l, creator, player_id) },
        ),
        status: ProposalStatusView::Pending,
    }
}

/// The lobby with `proposal` open in it.
pub open spec fn with_proposal(l: LobbyView, proposal: ProposalView) -> LobbyView {
    LobbyView { proposals: l.proposals.insert(proposal.id, proposal), ..l }
}

/// All of `players` are players of the lobby.
pub open spec fn all_known(l: LobbyView, players: Seq<usize>) -> bool {
    forall|i: int| 0 <= i < players.len() ==> l.players.contains_key(#[trigger] players[i])
}

/// Why `player` may not answer the proposal, if that is so.
pub open spec fn answer_refusal(
    l: LobbyView,
    player: Option<usize>,
    proposal_id: Seq<char>,
) -> Option<LobbyApiErrorView> {
    if player is None {
        Some(LobbyApiErrorView::NotAuthenticated)
    } else if !l.proposals.contains_key(proposal_id) {
        Some(LobbyApiErrorView::ProposalNotFound)
    } else {
        None
    }
}

/// The players that a proposal asks, once `player` has said `answer`.
pub open spec fn with_answer(
    players: Seq<ProposalPlayer>,
    player: usize,
    answer: AcceptedState,
) -> Seq<ProposalPlayer> {
    players.map_values(
        |asked: ProposalPlayer|
            if asked.player_id == player {
                ProposalPlayer { player_id: asked.player_id, status: answer }
            } else {
                asked
            },
    )
}

/// Someone has said no.
pub open spec fn has_rejection(players: Seq<ProposalPlayer>) -> bool {
    exists|i: int|
        0 <= i < players.len() && (#[trigger] players[i]).status == AcceptedState::Rejected
}

/// `proposal` once `player` has said `answer`: one no denies it.
pub open spec fn answered_proposal(
    proposal: ProposalView,
    player: usize,
    answer: AcceptedState,
) -> ProposalView {
    let players = with_answer(proposal.players, player, answer);
    ProposalView {
        players,
        status: if has_rejection(players) {
            ProposalStatusView::Denied
        } else {
            proposal.status
        },
        ..proposal
    }
}

/// The lobby once `player` has said `answer`: a proposal that is denied is discarded.
pub open spec fn answered(
    l: LobbyView,
    proposal_id: Seq<char>,
    player: usize,
    answer: AcceptedState,
) -> LobbyView {
    let proposal = answered_proposal(l.proposals[proposal_id], player, answer);
    let kept = l.proposals.insert(proposal_id, proposal);
    LobbyView {
        proposals: if proposal.status is Denied {
            kept.remove(proposal.id)
        } else {
            kept
        },
        ..l
    }
}

impl Lobby {
    /// Whether all of `players` are players of the lobby.
    pub fn knows_all(&self, players: &Vec<usize>) -> (known: bool)
        ensures
            known == all_known(self@, players@),
    {
        let n = players.len();
        let mut i: usize = 0;
        while i < n
            invariant
                n == players@.len(),
                i <= n,
                forall|j: int| 0 <= j < i ==> self@.players.contains_key(#[trigger] players@[j]),
            decreases n - i,
        {
            if !self.players.contains_key(&players[i]) {
                assert(!self@.players.contains_key(players@[i as int]));
                return false;
            }
            i += 1;
        }
        true
    }

    /// Opens a proposal of `creator` under `proposal_id`.
    pub fn add_proposal(&mut self, creator: usize, params: ProposalParams, proposal_id: String) -> (res:
        Proposal)
        requires
            all_known(old(self)@, params.players@),
        ensures
            res@ == new_proposal(
                old(self)@,
                creator,
                params.config@,
                params.players@,
                proposal_id@,
            ),
            final(self)@ == with_proposal(old(self)@, res@),
            res.id@ == proposal_id@,
            res.owner_id == creator,
            res.config.map_name@ == params.config.map_name@,
            res.config.max_turns == params.config.max_turns,
            res.status is Pending,
            res.players@.len() == params.players@.len(),
            forall|i: int|
                0 <= i < res.players@.len() ==> {
                    let asked = #[trigger] res.players@[i];
                    &&& asked.player_id == params.players@[i]
                    &&& asked.status == AcceptedState::Accepted <==> asked.player_id == creator
                        || old(self)@.players[asked.player_id].player_type is Internal
                    &&& asked.status == AcceptedState::Unanswered <==> asked.player_id != creator
                        && old(self)@.players[asked.player_id].player_type is External
                },
    {
        let n = params.players.len();
        let ghost expected = new_proposal(
            self@,
            creator,
            params.config@,
            params.players@,
            proposal_id@,
        ).players;
        let mut players: Vec<ProposalPlayer> = Vec::new();
        let mut i: usize = 0;
        while i < n
            invariant
                all_known(self@, params.players@),
                expected == new_proposal(
                    self@,
                    creator,
                    params.config@,
                    params.players@,
                    proposal_id@,
                ).players,
                n == params.players@.len(),
                i <= n,
                players@ == expected.take(i as int),
            decreases n - i,
        {
            let player_id = params.players[i];
            let mut status = AcceptedState::Unanswered;
            if player_id == creator {
                status = AcceptedState::Accepted;
            }
            let player = self.players.get(&player_id).unwrap();
            if let PlayerType::Internal { .. } = player.player_type {
                status = AcceptedState::Accepted;
            }
            players.push(ProposalPlayer { player_id, status });
            i += 1;
            assert(players@ =~= expected.take(i as int));
        }
        assert(players@ =~= expected);
        let proposal = Proposal {
            owner_id: creator,
            config: params.config,
            players,
            id: proposal_id,
            status: ProposalStatus::Pending,
        };
        self.proposals.insert(proposal.id.clone(), proposal.duplicate());
        proposal
    }

    /// Takes down what `player` says to a proposal.
    pub fn answer_proposal(
        &mut self,
        player: Option<usize>,
        proposal_id: &String,
        answer: AcceptedState,
    ) -> (res: LobbyApiResult<Proposal>)
        ensures
            match answer_refusal(old(self)@, player, proposal_id@) {
                Some(refusal) => {
                    &&& res is Err
                    &&& res->Err_0@ == refusal
                    &&& final(self)@ == old(self)@
                },
                None => {
                    &&& res is Ok
                    &&& res->Ok_0@ == answered_proposal(
                        old(self)@.proposals[proposal_id@],
                        player->0,
                        answer,
                    )
                    &&& final(self)@ == answered(old(self)@, proposal_id@, player->0, answer)
                },
            },
    {
        let player_id = match player {
            Some(id) => id,
            None => return Err(LobbyApiError::NotAuthenticated),
        };
        let mut proposal = match self.proposals.get(proposal_id) {
            Some(proposal) => proposal.duplicate(),
            None => return Err(LobbyApiError::ProposalNotFound),
        };
        let ghost asked = proposal@.players;
        let ghost expected = with_answer(asked, player_id, answer);
        let n = proposal.players.len();
        let mut players: Vec<ProposalPlayer> = Vec::new();
        let mut rejected = false;
        let mut i: usize = 0;
        while i < n
            invariant
                asked == proposal@.players,
                expected == with_answer(asked, player_id, answer),
                n == proposal@.players.len(),
                i <= n,
                players@ == expected.take(i as int),
                rejected == has_rejection(expected.take(i as int)),
            decreases n - i,
        {
            let mut asked_player = proposal.players[i];
            if asked_player.player_id == player_id {
                asked_player.status = answer;
            }
            if asked_player.status == AcceptedState::Rejected {
                rejected = true;
            }
            let ghost earlier = expected.take(i as int);
            players.push(asked_player);
            i += 1;
            proof {
                assert(players@ =~= expected.take(i as int));
                let later = expected.take(i as int);
                assert(later =~= earlier.push(asked_player));
                if has_rejection(earlier) {
                    let j = choose|j: int|
                        0 <= j < earlier.len() && (#[trigger] earlier[j]).status
                            == AcceptedState::Rejected;
                    assert(later[j] == earlier[j]);
                }
                if has_rejection(later) {
                    let j = choose|j: int|
                        0 <= j < later.len() && (#[trigger] later[j]).status
                            == AcceptedState::Rejected;
                    if j < earlier.len() {
                        assert(earlier[j] == later[j]);
                    }
                }
                assert(later[i - 1] == asked_player);
            }
        }
        assert(expected.take(n as int) =~= expected);
        proposal.players = players;
        if rejected {
            proposal.status = ProposalStatus::Denied;
        }
        self.proposals.insert(proposal_id.clone(), proposal.duplicate());
        // this proposal is no longer relevant; discard it.
        if let ProposalStatus::Denied = proposal.status {
            self.proposals.remove(&proposal.id);
        }
        Ok(proposal)
    }
}

} // verus!
