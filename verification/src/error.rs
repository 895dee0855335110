//! Refused requests, and what they are answered.

use vstd::prelude::*;

verus! {

/// Why a request to a lobby was refused.
#[derive(Debug)]
pub enum LobbyApiError {
    LobbyNotFound,
    NotAuthenticated,
    NotAuthorized,
    NameTaken,
    InvalidProposalParams(String),
    ProposalNotFound,
    ProposalExpired,
    ProposalNotReady,
}

pub enum LobbyApiErrorView {
    LobbyNotFound,
    NotAuthenticated,
    NotAuthorized,
    NameTaken,
    InvalidProposalParams(Seq<char>),
    ProposalNotFound,
    ProposalExpired,
    ProposalNotReady,
}

impl View for LobbyApiError {
    type V = LobbyApiErrorView;

    open spec fn view(&self) -> LobbyApiErrorView {
        match self {
            LobbyApiError::LobbyNotFound => LobbyApiErrorView::LobbyNotFound,
            LobbyApiError::NotAuthenticated => LobbyApiErrorView::NotAuthenticated,
            LobbyApiError::NotAuthorized => LobbyApiErrorView::NotAuthorized,
            LobbyApiError::NameTaken => LobbyApiErrorView::NameTaken,
            LobbyApiError::InvalidProposalParams(msg) => LobbyApiErrorView::InvalidProposalParams(
                msg@,
            ),
            LobbyApiError::ProposalNotFound => LobbyApiErrorView::ProposalNotFound,
            LobbyApiError::ProposalExpired => LobbyApiErrorView::ProposalExpired,
            LobbyApiError::ProposalNotReady => LobbyApiErrorView::ProposalNotReady,
        }
    }
}

pub type LobbyApiResult<T> = Result<T, LobbyApiError>;

/// An answer to a request.
#[derive(Debug)]
pub enum Response<T> {
    /// The request was granted: the value, to be sent as JSON.
    Json(T),
    /// A bare HTTP status code, or one with a line of text.
    Status { code: u16, message: Option<String> },
}

/// The status code that a refusal is answered with.
pub open spec fn refusal_code(err: LobbyApiErrorView) -> u16 {
    match err {
        LobbyApiErrorView::LobbyNotFound => 404,
        LobbyApiErrorView::NotAuthenticated => 400,
        LobbyApiErrorView::NotAuthorized => 401,
        LobbyApiErrorView::NameTaken => 400,
        LobbyApiErrorView::InvalidProposalParams(_) => 400,
        LobbyApiErrorView::ProposalNotFound => 404,
        LobbyApiErrorView::ProposalExpired => 400,
        LobbyApiErrorView::ProposalNotReady => 400,
    }
}

/// The line of text that a refusal is answered with.
pub open spec fn refusal_message(err: LobbyApiErrorView) -> Option<Seq<char>> {
    match err {
        LobbyApiErrorView::NameTaken => Some("name is not available"@),
        LobbyApiErrorView::InvalidProposalParams(msg) => Some(msg),
        LobbyApiErrorView::ProposalExpired => Some("proposal is no longer valid"@),
        LobbyApiErrorView::ProposalNotReady => Some("not all players have accepted"@),
        _ => None,
    }
}

/// Whether `response` is the bare status `code`, or `code` with the text `message`.
pub open spec fn is_status<T>(response: Response<T>, code: u16, message: Option<Seq<char>>) -> bool {
    &&& response is Status
    &&& response->code == code
    &&& match message {
        Some(text) => response->message is Some && response->message->0@ == text,
        None => response->message is None,
    }
}

fn bare_status<T>(code: u16) -> (response: Response<T>)
    ensures
        is_status(response, code, None),
{
    Response::Status { code, message: None }
}

fn status_with_text<T>(code: u16, text: &str) -> (response: Response<T>)
    ensures
        is_status(response, code, Some(text@)),
{
    Response::Status { code, message: Some(text.to_owned()) }
}

/// The answer to a request that came out as `result`.
pub fn result_to_response<T>(result: LobbyApiResult<T>) -> (response: Response<T>)
    ensures
        match result {
            Ok(value) => response == Response::Json(value),
            Err(err) => is_status(response, refusal_code(err@), refusal_message(err@)),
        },
        response is Json <==> result is Ok,
        result is Err ==> response is Status,
{
    match result {
        Ok(value) => Response::Json(value),
        Err(LobbyApiError::LobbyNotFound) => bare_status(404),
        Err(LobbyApiError::NotAuthenticated) => bare_status(400),
        Err(LobbyApiError::NotAuthorized) => bare_status(401),
        Err(LobbyApiError::NameTaken) => status_with_text(400, "name is not available"),
        Err(LobbyApiError::InvalidProposalParams(msg)) => Response::Status {
            code: 400,
            message: Some(msg),
        },
        Err(LobbyApiError::ProposalNotFound) => bare_status(404),
        Err(LobbyApiError::ProposalExpired) => status_with_text(400, "proposal is no longer valid"),
        Err(LobbyApiError::ProposalNotReady) => status_with_text(
            400,
            "not all players have accepted",
        ),
    }
}

/// What is not found is answered so, whoever may not do something is told that, and everything else that is
/// refused is a bad request.
pub proof fn law_refusal_codes(err: LobbyApiErrorView)
    ensures
        refusal_code(err) == 404 <==> err is LobbyNotFound || err is ProposalNotFound,
        refusal_code(err) == 401 <==> err is NotAuthorized,
        refusal_code(err) == 400 <==> !(err is LobbyNotFound || err is ProposalNotFound || err is
            NotAuthorized),
{
}

/// A refusal comes with a line of text exactly if its code does not say enough. What is wrong with the
/// parameters of a proposal is said in the words that were found for it.
pub proof fn law_refusal_messages(err: LobbyApiErrorView)
    ensures
        refusal_message(err) is None <==> err is LobbyNotFound || err is ProposalNotFound || err is
            NotAuthorized || err is NotAuthenticated,
        err is NameTaken ==> refusal_message(err) == Some("name is not available"@),
        err is ProposalExpired ==> refusal_message(err) == Some("proposal is no longer valid"@),
        err is ProposalNotReady ==> refusal_message(err) == Some("not all players have accepted"@),
        err matches LobbyApiErrorView::InvalidProposalParams(msg) ==> refusal_message(err) == Some(
            msg,
        ),
{
}

/// A status is known by its code and its text, and a refusal by what it is.
pub proof fn law_status<T>(
    response: Response<T>,
    code: u16,
    message: Option<Seq<char>>,
    err: LobbyApiError,
)
    ensures
        is_status(response, code, message) ==> match response {
            Response::Status { code: sent, message: text } => sent == code && match text {
                Some(t) => message == Some(t@),
                None => message is None,
            },
            Response::Json(_) => false,
        },
        match err {
            LobbyApiError::LobbyNotFound => err@ is LobbyNotFound,
            LobbyApiError::NotAuthenticated => err@ is NotAuthenticated,
            LobbyApiError::NotAuthorized => err@ is NotAuthorized,
            LobbyApiError::NameTaken => err@ is NameTaken,
            LobbyApiError::InvalidProposalParams(msg) => err@
                == LobbyApiErrorView::InvalidProposalParams(msg@),
            LobbyApiError::ProposalNotFound => err@ is ProposalNotFound,
            LobbyApiError::ProposalExpired => err@ is ProposalExpired,
            LobbyApiError::ProposalNotReady => err@ is ProposalNotReady,
        },
{
}

} // verus!
