//! Connection-scoped responses: the session-establishment messages that
//! share the frame codec's length-prefixed framing but address the
//! whole connection rather than one channel.
//!
//! The payload is a 4-byte big-endian numeric tag followed by the
//! variant's fields; strings travel as a 4-byte length and that many
//! bytes of UTF-8.

use vstd::prelude::*;

use crate::codec::copy_tail;
use crate::codec::read_be32;
use crate::codec::spec_u32_of;
use crate::codec::lemma_be32_eq_bytes;
use crate::error::Error;

verus! {

pub const MUX_MSG_HELLO: u32 = 0x00000001;

pub const MUX_S_OK: u32 = 0x80000001;

pub const MUX_S_PERMISSION_DENIED: u32 = 0x80000002;

pub const MUX_S_FAILURE: u32 = 0x80000003;

pub const MUX_S_EXIT_MESSAGE: u32 = 0x80000004;

pub const MUX_S_ALIVE: u32 = 0x80000005;

pub const MUX_S_SESSION_OPENED: u32 = 0x80000006;

pub const MUX_S_REMOTE_PORT: u32 = 0x80000007;

pub const MUX_S_TTY_ALLOC_FAIL: u32 = 0x80000008;

/// A connection-scoped response.
#[derive(Clone, Debug, PartialEq, Eq)]
pub enum Response {
    Hello { version: u32 },
    Alive { request_id: u32, server_pid: u32 },
    Okay { request_id: u32 },
    Failure { request_id: u32, reason: String },
    PermissionDenied { request_id: u32, reason: String },
    SessionOpened { request_id: u32, session_id: u32 },
    ExitMessage { session_id: u32, exit_value: u32 },
    TtyAllocFail { session_id: u32 },
    RemotePort { request_id: u32, remote_port: u32 },
}

/// Mathematical model of a [`Response`].
#[verifier::ext_equal]
pub enum ResponseView {
    Hello { version: u32 },
    Alive { request_id: u32, server_pid: u32 },
    Okay { request_id: u32 },
    Failure { request_id: u32, reason: Seq<char> },
    PermissionDenied { request_id: u32, reason: Seq<char> },
    SessionOpened { request_id: u32, session_id: u32 },
    ExitMessage { session_id: u32, exit_value: u32 },
    TtyAllocFail { session_id: u32 },
    RemotePort { request_id: u32, remote_port: u32 },
}

impl View for Response {
    type V = ResponseView;

    open spec fn view(&self) -> ResponseView {
        match self {
            Response::Hello { version } => ResponseView::Hello { version: *version },
            Response::Alive { request_id, server_pid } => ResponseView::Alive {
                request_id: *request_id,
                server_pid: *server_pid,
            },
            Response::Okay { request_id } => ResponseView::Okay { request_id: *request_id },
            Response::Failure { request_id, reason } => ResponseView::Failure {
                request_id: *request_id,
                reason: reason@,
            },
            Response::PermissionDenied { request_id, reason } => ResponseView::PermissionDenied {
                request_id: *request_id,
                reason: reason@,
            },
            Response::SessionOpened { request_id, session_id } => ResponseView::SessionOpened {
                request_id: *request_id,
                session_id: *session_id,
            },
            Response::ExitMessage { session_id, exit_value } => ResponseView::ExitMessage {
                session_id: *session_id,
                exit_value: *exit_value,
            },
            Response::TtyAllocFail { session_id } => ResponseView::TtyAllocFail {
                session_id: *session_id,
            },
            Response::RemotePort { request_id, remote_port } => ResponseView::RemotePort {
                request_id: *request_id,
                remote_port: *remote_port,
            },
        }
    }
}

/// What `String::from_utf8` computes: the decoded characters of a byte
/// sequence when it is valid UTF-8, and nothing otherwise.  The result
/// depends on the bytes alone.
pub uninterp spec fn utf8_decode(bytes: Seq<u8>) -> Option<Seq<char>>;

/// Relies on `String::from_utf8` of std: returns the string whose
/// characters decode the bytes exactly when they are valid UTF-8.
#[verifier::external_body]
fn string_from_utf8(bytes: Vec<u8>) -> (r: Option<String>)
    ensures
        r matches Some(s) ==> utf8_decode(bytes@) == Some(s@),
        r is None ==> utf8_decode(bytes@) is None,
{
    String::from_utf8(bytes).ok()
}

/// The numeric tag of a connection-scoped response.
pub open spec fn spec_response_tag(r: ResponseView) -> u32 {
    match r {
        ResponseView::Hello { .. } => MUX_MSG_HELLO,
        ResponseView::Alive { .. } => MUX_S_ALIVE,
        ResponseView::Okay { .. } => MUX_S_OK,
        ResponseView::Failure { .. } => MUX_S_FAILURE,
        ResponseView::PermissionDenied { .. } => MUX_S_PERMISSION_DENIED,
        ResponseView::SessionOpened { .. } => MUX_S_SESSION_OPENED,
        ResponseView::ExitMessage { .. } => MUX_S_EXIT_MESSAGE,
        ResponseView::TtyAllocFail { .. } => MUX_S_TTY_ALLOC_FAIL,
        ResponseView::RemotePort { .. } => MUX_S_REMOTE_PORT,
    }
}

/// Whether `tag` opens some connection-scoped payload.
pub open spec fn is_response_tag(tag: u32) -> bool {
    ||| tag == MUX_MSG_HELLO
    ||| tag == MUX_S_ALIVE
    ||| tag == MUX_S_OK
    ||| tag == MUX_S_FAILURE
    ||| tag == MUX_S_PERMISSION_DENIED
    ||| tag == MUX_S_SESSION_OPENED
    ||| tag == MUX_S_EXIT_MESSAGE
    ||| tag == MUX_S_TTY_ALLOC_FAIL
    ||| tag == MUX_S_REMOTE_PORT
}

/// Whether payload `p` spells exactly the response `r`: the tag, each
/// 32-bit field in order, and for the two string-carrying variants a
/// length-prefixed UTF-8 reason that decodes to the response's string.
pub open spec fn spec_response_matches(p: Seq<u8>, r: ResponseView) -> bool {
    &&& p.len() >= 4
    &&& spec_u32_of(p[0], p[1], p[2], p[3]) == spec_response_tag(r)
    &&& match r {
        ResponseView::Hello { version } => p.len() == 8 && version == spec_u32_of(
            p[4],
            p[5],
            p[6],
            p[7],
        ),
        ResponseView::Alive { request_id, server_pid } => p.len() == 12 && request_id
            == spec_u32_of(p[4], p[5], p[6], p[7]) && server_pid == spec_u32_of(
            p[8],
            p[9],
            p[10],
            p[11],
        ),
        ResponseView::Okay { request_id } => p.len() == 8 && request_id == spec_u32_of(
            p[4],
            p[5],
            p[6],
            p[7],
        ),
        ResponseView::Failure { request_id, reason } => p.len() >= 12 && request_id == spec_u32_of(
            p[4],
            p[5],
            p[6],
            p[7],
        ) && p.len() == 12 + spec_u32_of(p[8], p[9], p[10], p[11]) && utf8_decode(
            p.subrange(12, p.len() as int),
        ) == Some(reason),
        ResponseView::PermissionDenied { request_id, reason } => p.len() >= 12 && request_id
            == spec_u32_of(p[4], p[5], p[6], p[7]) && p.len() == 12 + spec_u32_of(
            p[8],
            p[9],
            p[10],
            p[11],
        ) && utf8_decode(p.subrange(12, p.len() as int)) == Some(reason),
        ResponseView::SessionOpened { request_id, session_id } => p.len() == 12 && request_id
            == spec_u32_of(p[4], p[5], p[6], p[7]) && session_id == spec_u32_of(
            p[8],
            p[9],
            p[10],
            p[11],
        ),
        ResponseView::ExitMessage { session_id, exit_value } => p.len() == 12 && session_id
            == spec_u32_of(p[4], p[5], p[6], p[7]) && exit_value == spec_u32_of(
            p[8],
            p[9],
            p[10],
            p[11],
        ),
        ResponseView::TtyAllocFail { session_id } => p.len() == 8 && session_id == spec_u32_of(
            p[4],
            p[5],
            p[6],
            p[7],
        ),
        ResponseView::RemotePort { request_id, remote_port } => p.len() == 12 && request_id
            == spec_u32_of(p[4], p[5], p[6], p[7]) && remote_port == spec_u32_of(
            p[8],
            p[9],
            p[10],
            p[11],
        ),
    }
}

/// The error [`ResponseVisitor::visit_enum`] reports on a payload no
/// response matches.
pub open spec fn spec_response_err(p: Seq<u8>) -> Error {
    if p.len() < 4 {
        Error::MalformedFrame
    } else {
        let tag = spec_u32_of(p[0], p[1], p[2], p[3]);
        if !is_response_tag(tag) {
            Error::UnexpectedPacketType(tag)
        } else if (tag == MUX_S_FAILURE || tag == MUX_S_PERMISSION_DENIED) && p.len() >= 12
            && p.len() == 12 + spec_u32_of(p[8], p[9], p[10], p[11]) && utf8_decode(
            p.subrange(12, p.len() as int),
        ) is None {
            Error::InvalidReasonString
        } else {
            Error::MalformedFrame
        }
    }
}

/// Decodes one connection-scoped payload by its numeric tag.
pub struct ResponseVisitor;

impl ResponseVisitor {
    /// Decodes the variant a payload's leading tag selects, reading the
    /// fields that follow; the exact inverse of the format
    /// [`spec_response_matches`] states.
    #[verifier::rlimit(60)]
    pub fn visit_enum(self, p: &[u8]) -> (r: Result<Response, Error>)
        ensures
            r matches Ok(resp) ==> spec_response_matches(p@, resp@),
            forall|v: ResponseView|
                spec_response_matches(p@, v) ==> (r matches Ok(resp) && resp@ == v),
            r matches Err(e) ==> e == spec_response_err(p@),
    {
        if p.len() < 4 {
            return Err(Error::MalformedFrame);
        }
        let tag = read_be32(p, 0);
        if tag == MUX_MSG_HELLO || tag == MUX_S_OK || tag == MUX_S_TTY_ALLOC_FAIL {
            if p.len() != 8 {
                return Err(Error::MalformedFrame);
            }
            let a = read_be32(p, 4);
            let resp = if tag == MUX_MSG_HELLO {
                Response::Hello { version: a }
            } else if tag == MUX_S_OK {
                Response::Okay { request_id: a }
            } else {
                Response::TtyAllocFail { session_id: a }
            };
            proof {
                assert forall|v: ResponseView| spec_response_matches(p@, v) implies v == resp@ by {
                    lemma_be32_eq_bytes(spec_response_tag(v), p@[0], p@[1], p@[2], p@[3]);
                    assert(v =~= resp@);
                }
            }
            Ok(resp)
        } else if tag == MUX_S_ALIVE || tag == MUX_S_SESSION_OPENED || tag == MUX_S_EXIT_MESSAGE
            || tag == MUX_S_REMOTE_PORT {
            if p.len() != 12 {
                return Err(Error::MalformedFrame);
            }
            let a = read_be32(p, 4);
            let b = read_be32(p, 8);
            let resp = if tag == MUX_S_ALIVE {
                Response::Alive { request_id: a, server_pid: b }
            } else if tag == MUX_S_SESSION_OPENED {
                Response::SessionOpened { request_id: a, session_id: b }
            } else if tag == MUX_S_EXIT_MESSAGE {
                Response::ExitMessage { session_id: a, exit_value: b }
            } else {
                Response::RemotePort { request_id: a, remote_port: b }
            };
            proof {
                assert forall|v: ResponseView| spec_response_matches(p@, v) implies v == resp@ by {
                    lemma_be32_eq_bytes(spec_response_tag(v), p@[0], p@[1], p@[2], p@[3]);
                    assert(v =~= resp@);
                }
            }
            Ok(resp)
        } else if tag == MUX_S_FAILURE || tag == MUX_S_PERMISSION_DENIED {
            if p.len() < 12 {
                return Err(Error::MalformedFrame);
            }
            let a = read_be32(p, 4);
            let l = read_be32(p, 8);
            if p.len() - 12 != l as usize {
                proof {
                    assert forall|v: ResponseView|
                        spec_response_matches(p@, v) implies false by {
                        lemma_be32_eq_bytes(spec_response_tag(v), p@[0], p@[1], p@[2], p@[3]);
                    }
                }
                return Err(Error::MalformedFrame);
            }
            let bytes = copy_tail(p, 12);
            match string_from_utf8(bytes) {
                Some(reason) => {
                    let resp = if tag == MUX_S_FAILURE {
                        Response::Failure { request_id: a, reason }
                    } else {
                        Response::PermissionDenied { request_id: a, reason }
                    };
                    proof {
                        assert forall|v: ResponseView|
                            spec_response_matches(p@, v) implies v == resp@ by {
                            lemma_be32_eq_bytes(spec_response_tag(v), p@[0], p@[1], p@[2], p@[3]);
                            assert(v =~= resp@);
                        }
                    }
                    Ok(resp)
                },
                None => {
                    proof {
                        assert forall|v: ResponseView|
                            spec_response_matches(p@, v) implies false by {
                            lemma_be32_eq_bytes(spec_response_tag(v), p@[0], p@[1], p@[2], p@[3]);
                        }
                    }
                    Err(Error::InvalidReasonString)
                },
            }
        } else {
            proof {
                assert forall|v: ResponseView| spec_response_matches(p@, v) implies false by {
                    lemma_be32_eq_bytes(spec_response_tag(v), p@[0], p@[1], p@[2], p@[3]);
                }
            }
            Err(Error::UnexpectedPacketType(tag))
        }
    }
}

impl Response {
    /// Decodes one connection-scoped payload, as the original framing
    /// primitive hands it over: the bytes after the length prefix.
    pub fn deserialize(payload: &[u8]) -> (r: Result<Response, Error>)
        ensures
            r matches Ok(resp) ==> spec_response_matches(payload@, resp@),
            forall|v: ResponseView|
                spec_response_matches(payload@, v) ==> (r matches Ok(resp) && resp@ == v),
            r matches Err(e) ==> e == spec_response_err(payload@),
    {
        ResponseVisitor.visit_enum(payload)
    }
}

} // verus!
