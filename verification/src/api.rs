//! What the service answers to each request, as plain values for a front
//! end to render.

pub mod conversations;
pub mod laws;
pub mod login;

use vstd::prelude::*;

use crate::api::conversations::MessagesPage;
use crate::api::login::LoginPage;

verus! {

/// One of two answers.
pub enum Either<A, B> {
    E1(A),
    E2(B),
}

/// The status of an answer that carries no page.
#[derive(Clone, Copy, Debug, PartialEq, Eq, Structural)]
pub enum StatusCode {
    /// The request asked for changes and there are none.
    NoContent,
    /// The request is malformed.
    BadRequest,
    /// The store failed.
    InternalServerError,
}

impl StatusCode {
    /// The number of the status.
    pub fn as_u16(&self) -> (code: u16)
        ensures
            code == match *self {
                StatusCode::NoContent => 204u16,
                StatusCode::BadRequest => 400u16,
                StatusCode::InternalServerError => 500u16,
            },
    {
        match self {
            StatusCode::NoContent => 204,
            StatusCode::BadRequest => 400,
            StatusCode::InternalServerError => 500,
        }
    }
}

/// An answer that sends the client to another path.
pub struct Redirect {
    pub to: String,
}

/// What the page shows below its frame.
pub enum Content {
    Login(LoginPage),
    Messages(MessagesPage),
}

/// The whole page.
pub struct Root {
    pub content: Content,
}

/// The bytes of the header value `true`.
pub open spec fn header_true() -> Seq<u8> {
    seq![116u8, 114u8, 117u8, 101u8]
}

/// Whether a header is present with the value `true`.
pub open spec fn header_is_true(value: Option<Seq<u8>>) -> bool {
    value == Some(header_true())
}

/// What the bytes of an optional header value are.
pub open spec fn header_bytes(value: Option<&[u8]>) -> Option<Seq<u8>> {
    match value {
        Some(bytes) => Some(bytes@),
        None => None,
    }
}

fn is_true(value: Option<&[u8]>) -> (res: bool)
    ensures
        res == header_is_true(header_bytes(value)),
{
    match value {
        Some(bytes) => {
            let res = bytes.len() == 4 && bytes[0] == 116 && bytes[1] == 114 && bytes[2] == 117
                && bytes[3] == 101;
            proof {
                if res {
                    assert(bytes@ =~= header_true());
                }
            }
            res
        },
        None => false,
    }
}

/// A request that the page's script made, as its headers tell.
#[derive(Debug, Clone)]
pub struct HtmxRequest {
    /// Whether the script asks for a page that it had cached and lost.
    pub restore: bool,
}

impl HtmxRequest {
    /// Reads the request from the values of the headers `HX-Request` and
    /// `HX-History-Restore-Request`: it is accepted where the first is
    /// `true`, and asks for a restored page where the second is too.
    pub fn from_headers(
        hx_request: Option<&[u8]>,
        hx_history_restore_request: Option<&[u8]>,
    ) -> (res: Result<Self, (StatusCode, &'static str)>)
        ensures
            res is Ok <==> header_is_true(header_bytes(hx_request)),
            res matches Ok(request) ==> request.restore == header_is_true(
                header_bytes(hx_history_restore_request),
            ),
            res matches Err(rejection) ==> rejection.0 == StatusCode::BadRequest && rejection.1@
                == "Expected HTMX request for this endpoint!"@,
    {
        if !is_true(hx_request) {
            return Err((StatusCode::BadRequest, "Expected HTMX request for this endpoint!"));
        }
        Ok(HtmxRequest { restore: is_true(hx_history_restore_request) })
    }
}

/// An event that the answer raises in the page.
pub enum HxTrigger<P = ()> {
    NameOnly(String),
    WithPayload(String, P),
}

/// Whether `trigger` raises the event `name` and hands nothing with it.
pub open spec fn is_event(trigger: HxTrigger, name: Seq<char>) -> bool {
    match trigger {
        HxTrigger::NameOnly(raised) => raised@ == name,
        HxTrigger::WithPayload(_, _) => false,
    }
}

} // verus!
