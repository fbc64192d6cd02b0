//! Frame codec: length-prefixed binary records carrying channel-scoped
//! responses.
//!
//! A frame on the wire is a 4-byte big-endian length `L` followed by `L`
//! payload bytes.  The payload is a 4-byte big-endian numeric tag, the
//! 4-byte recipient channel id, and the variant's fields.  Decoding is a
//! pure function of the bytes and is the exact inverse of encoding: the
//! contract of [`decode_payload`] states that every well-formed frame whose
//! encoding equals the input is returned, so `decode(encode(f)) == f`.

use vstd::prelude::*;

use crate::error::Error;

verus! {

pub const CHANNEL_OPEN_CONFIRMATION: u32 = 91;

pub const CHANNEL_OPEN_FAILURE: u32 = 92;

pub const CHANNEL_WINDOW_ADJUST: u32 = 93;

pub const CHANNEL_DATA: u32 = 94;

pub const CHANNEL_EXTENDED_DATA: u32 = 95;

pub const CHANNEL_EOF: u32 = 96;

pub const CHANNEL_CLOSE: u32 = 97;

pub const CHANNEL_REQUEST_SUCCESS: u32 = 99;

pub const CHANNEL_REQUEST_FAILURE: u32 = 100;

/// Numeric code of the only extended-data stream this client accepts.
pub const EXTENDED_DATA_STDERR: u32 = 1;

/// The secondary payload stream a frame of extended data belongs to.
#[derive(Clone, Copy, Debug, PartialEq, Eq)]
pub enum ExtendedDataType {
    Stderr,
}

/// A channel-scoped response, decoded from one frame's payload.
#[derive(Clone, Debug, PartialEq, Eq)]
pub enum ChannelResponse {
    OpenConfirmation { sender_channel: u32, init_win_size: u32, max_packet_size: u32 },
    OpenFailure { reason: u32 },
    BytesAdjust { bytes_to_add: u32 },
    Data { bytes: Vec<u8> },
    ExtendedData { data_type: ExtendedDataType, data: Vec<u8> },
    Eof,
    Close,
    RequestSuccess,
    RequestFailure,
}

/// One decoded frame: the channel it addresses and the response it carries.
#[derive(Clone, Debug, PartialEq, Eq)]
pub struct ChannelFrame {
    pub recipient_channel: u32,
    pub response: ChannelResponse,
}

/// Mathematical model of a [`ChannelResponse`]: payloads as byte sequences.
#[verifier::ext_equal]
pub enum ChannelResponseView {
    OpenConfirmation { sender_channel: u32, init_win_size: u32, max_packet_size: u32 },
    OpenFailure { reason: u32 },
    BytesAdjust { bytes_to_add: u32 },
    Data { bytes: Seq<u8> },
    ExtendedData { data_type: ExtendedDataType, data: Seq<u8> },
    Eof,
    Close,
    RequestSuccess,
    RequestFailure,
}

/// Mathematical model of a [`ChannelFrame`].
#[verifier::ext_equal]
pub struct ChannelFrameView {
    pub recipient_channel: u32,
    pub response: ChannelResponseView,
}

impl View for ChannelResponse {
    type V = ChannelResponseView;

    open spec fn view(&self) -> ChannelResponseView {
        match self {
            ChannelResponse::OpenConfirmation { sender_channel, init_win_size, max_packet_size } =>
                ChannelResponseView::OpenConfirmation {
                    sender_channel: *sender_channel,
                    init_win_size: *init_win_size,
                    max_packet_size: *max_packet_size,
                },
            ChannelResponse::OpenFailure { reason } =>
                ChannelResponseView::OpenFailure { reason: *reason },
            ChannelResponse::BytesAdjust { bytes_to_add } =>
                ChannelResponseView::BytesAdjust { bytes_to_add: *bytes_to_add },
            ChannelResponse::Data { bytes } => ChannelResponseView::Data { bytes: bytes@ },
            ChannelResponse::ExtendedData { data_type, data } =>
                ChannelResponseView::ExtendedData { data_type: *data_type, data: data@ },
            ChannelResponse::Eof => ChannelResponseView::Eof,
            ChannelResponse::Close => ChannelResponseView::Close,
            ChannelResponse::RequestSuccess => ChannelResponseView::RequestSuccess,
            ChannelResponse::RequestFailure => ChannelResponseView::RequestFailure,
        }
    }
}

impl View for ChannelFrame {
    type V = ChannelFrameView;

    open spec fn view(&self) -> ChannelFrameView {
        ChannelFrameView { recipient_channel: self.recipient_channel, response: self.response@ }
    }
}

/// The four big-endian bytes of a 32-bit integer.
pub open spec fn spec_be32(n: u32) -> Seq<u8> {
    seq![
        (n / 0x1000000) as u8,
        ((n / 0x10000) % 0x100) as u8,
        ((n / 0x100) % 0x100) as u8,
        (n % 0x100) as u8,
    ]
}

/// The 32-bit integer whose big-endian bytes are `b0 b1 b2 b3`.
pub open spec fn spec_u32_of(b0: u8, b1: u8, b2: u8, b3: u8) -> u32 {
    ((b0 as int) * 0x1000000 + (b1 as int) * 0x10000 + (b2 as int) * 0x100 + (b3 as int)) as u32
}

pub proof fn lemma_be32_inverse(n: u32)
    ensures
        spec_u32_of(spec_be32(n)[0], spec_be32(n)[1], spec_be32(n)[2], spec_be32(n)[3]) == n,
{
    assert(((n / 0x1000000) as u8 as int) * 0x1000000 + (((n / 0x10000) % 0x100) as u8 as int)
        * 0x10000 + (((n / 0x100) % 0x100) as u8 as int) * 0x100 + ((n % 0x100) as u8 as int)
        == n as int) by (bit_vector);
}

/// Appends the big-endian bytes of `n`.
fn push_be32(out: &mut Vec<u8>, n: u32)
    ensures
        final(out)@ == old(out)@ + spec_be32(n),
{
    proof {
        assert(n / 0x1000000 < 0x100) by (bit_vector);
    }
    out.push((n / 0x1000000) as u8);
    out.push(((n / 0x10000) % 0x100) as u8);
    out.push(((n / 0x100) % 0x100) as u8);
    out.push((n % 0x100) as u8);
    proof {
        assert(out@ =~= old(out)@ + spec_be32(n));
    }
}

/// Reads the big-endian 32-bit integer at offset `i`.
pub(crate) fn read_be32(p: &[u8], i: usize) -> (r: u32)
    requires
        i + 4 <= p@.len(),
    ensures
        r == spec_u32_of(p@[i as int], p@[i + 1], p@[i + 2], p@[i + 3]),
{
    let b0 = p[i] as u32;
    let b1 = p[i + 1] as u32;
    let b2 = p[i + 2] as u32;
    let b3 = p[i + 3] as u32;
    b0 * 0x1000000 + b1 * 0x10000 + b2 * 0x100 + b3
}

pub proof fn lemma_u32_of_be32(b0: u8, b1: u8, b2: u8, b3: u8)
    ensures
        spec_be32(spec_u32_of(b0, b1, b2, b3)) == seq![b0, b1, b2, b3],
{
    let n = spec_u32_of(b0, b1, b2, b3);
    assert((((b0 as int) * 0x1000000 + (b1 as int) * 0x10000 + (b2 as int) * 0x100 + (
    b3 as int)) as u32) / 0x1000000 == b0 as u32 && ((((b0 as int) * 0x1000000 + (b1 as int)
        * 0x10000 + (b2 as int) * 0x100 + (b3 as int)) as u32) / 0x10000) % 0x100 == b1 as u32
        && ((((b0 as int) * 0x1000000 + (b1 as int) * 0x10000 + (b2 as int) * 0x100 + (
    b3 as int)) as u32) / 0x100) % 0x100 == b2 as u32 && (((b0 as int) * 0x1000000 + (b1 as int)
        * 0x10000 + (b2 as int) * 0x100 + (b3 as int)) as u32) % 0x100 == b3 as u32)
        by (bit_vector);
    assert(spec_be32(n) =~= seq![b0, b1, b2, b3]);
}

/// If the bytes of `n` are `b0 b1 b2 b3`, then `n` is their combination.
pub proof fn lemma_be32_eq_bytes(n: u32, b0: u8, b1: u8, b2: u8, b3: u8)
    requires
        spec_be32(n)[0] == b0,
        spec_be32(n)[1] == b1,
        spec_be32(n)[2] == b2,
        spec_be32(n)[3] == b3,
    ensures
        n == spec_u32_of(b0, b1, b2, b3),
{
    lemma_be32_inverse(n);
}

/// The numeric tag that opens a channel-scoped payload.
pub open spec fn spec_tag(r: ChannelResponseView) -> u32 {
    match r {
        ChannelResponseView::OpenConfirmation { .. } => CHANNEL_OPEN_CONFIRMATION,
        ChannelResponseView::OpenFailure { .. } => CHANNEL_OPEN_FAILURE,
        ChannelResponseView::BytesAdjust { .. } => CHANNEL_WINDOW_ADJUST,
        ChannelResponseView::Data { .. } => CHANNEL_DATA,
        ChannelResponseView::ExtendedData { .. } => CHANNEL_EXTENDED_DATA,
        ChannelResponseView::Eof => CHANNEL_EOF,
        ChannelResponseView::Close => CHANNEL_CLOSE,
        ChannelResponseView::RequestSuccess => CHANNEL_REQUEST_SUCCESS,
        ChannelResponseView::RequestFailure => CHANNEL_REQUEST_FAILURE,
    }
}

/// Whether `tag` opens some channel-scoped payload.
pub open spec fn is_channel_tag(tag: u32) -> bool {
    ||| tag == CHANNEL_OPEN_CONFIRMATION
    ||| tag == CHANNEL_OPEN_FAILURE
    ||| tag == CHANNEL_WINDOW_ADJUST
    ||| tag == CHANNEL_DATA
    ||| tag == CHANNEL_EXTENDED_DATA
    ||| tag == CHANNEL_EOF
    ||| tag == CHANNEL_CLOSE
    ||| tag == CHANNEL_REQUEST_SUCCESS
    ||| tag == CHANNEL_REQUEST_FAILURE
}

/// The field bytes that follow the tag and the recipient id.
pub open spec fn spec_body(r: ChannelResponseView) -> Seq<u8> {
    match r {
        ChannelResponseView::OpenConfirmation { sender_channel, init_win_size, max_packet_size } =>
            spec_be32(sender_channel) + spec_be32(init_win_size) + spec_be32(max_packet_size),
        ChannelResponseView::OpenFailure { reason } => spec_be32(reason),
        ChannelResponseView::BytesAdjust { bytes_to_add } => spec_be32(bytes_to_add),
        ChannelResponseView::Data { bytes } => spec_be32(bytes.len() as u32) + bytes,
        ChannelResponseView::ExtendedData { data_type: _, data } => spec_be32(EXTENDED_DATA_STDERR)
            + spec_be32(data.len() as u32) + data,
        ChannelResponseView::Eof => Seq::empty(),
        ChannelResponseView::Close => Seq::empty(),
        ChannelResponseView::RequestSuccess => Seq::empty(),
        ChannelResponseView::RequestFailure => Seq::empty(),
    }
}

/// The whole payload of one frame: tag, recipient id, fields.
pub open spec fn spec_payload(f: ChannelFrameView) -> Seq<u8> {
    spec_be32(spec_tag(f.response)) + spec_be32(f.recipient_channel) + spec_body(f.response)
}

/// A frame whose byte counts fit the wire's 32-bit length fields.
pub open spec fn wf_frame(f: ChannelFrameView) -> bool {
    match f.response {
        ChannelResponseView::Data { bytes } => bytes.len() <= u32::MAX,
        ChannelResponseView::ExtendedData { data_type: _, data } => data.len() <= u32::MAX,
        _ => true,
    }
}

/// The error [`decode_payload`] returns on a payload no frame encodes
/// to.  A recognised connection-scoped tag is rejected as an unexpected
/// channel state: this core serves channel traffic only.
pub open spec fn spec_decode_err(p: Seq<u8>) -> Error {
    if p.len() < 8 {
        Error::MalformedFrame
    } else {
        let tag = spec_u32_of(p[0], p[1], p[2], p[3]);
        if crate::response::is_response_tag(tag) {
            Error::UnexpectedChannelState
        } else if !is_channel_tag(tag) {
            Error::UnknownPacketType(tag)
        } else if tag == CHANNEL_EXTENDED_DATA && p.len() >= 12 && spec_u32_of(
            p[8],
            p[9],
            p[10],
            p[11],
        ) != EXTENDED_DATA_STDERR {
            Error::UnknownExtendedDataType(spec_u32_of(p[8], p[9], p[10], p[11]))
        } else {
            Error::MalformedFrame
        }
    }
}

/// Appends a copy of `bytes`.
fn push_bytes(out: &mut Vec<u8>, bytes: &[u8])
    ensures
        final(out)@ == old(out)@ + bytes@,
{
    let mut i: usize = 0;
    while i < bytes.len()
        invariant
            i <= bytes@.len(),
            out@ == old(out)@ + bytes@.subrange(0, i as int),
        decreases bytes@.len() - i,
    {
        out.push(bytes[i]);
        proof {
            assert(out@ =~= old(out)@ + bytes@.subrange(0, i + 1 as int));
        }
        i += 1;
    }
    proof {
        assert(old(out)@ + bytes@.subrange(0, i as int) =~= old(out)@ + bytes@);
    }
}

/// Copies the bytes of `p` from `start` to the end.
pub(crate) fn copy_tail(p: &[u8], start: usize) -> (r: Vec<u8>)
    requires
        start <= p@.len(),
    ensures
        r@ == p@.subrange(start as int, p@.len() as int),
{
    let mut out: Vec<u8> = Vec::new();
    let mut i: usize = start;
    while i < p.len()
        invariant
            start <= i <= p@.len(),
            out@ == p@.subrange(start as int, i as int),
        decreases p@.len() - i,
    {
        out.push(p[i]);
        proof {
            assert(out@ =~= p@.subrange(start as int, i + 1 as int));
        }
        i += 1;
    }
    out
}

/// Encodes the payload of one frame: tag, recipient id, fields.
pub fn encode_payload(f: &ChannelFrame) -> (r: Vec<u8>)
    requires
        wf_frame(f@),
    ensures
        r@ == spec_payload(f@),
{
    let mut out: Vec<u8> = Vec::new();
    match &f.response {
        ChannelResponse::OpenConfirmation { sender_channel, init_win_size, max_packet_size } => {
            push_be32(&mut out, CHANNEL_OPEN_CONFIRMATION);
            push_be32(&mut out, f.recipient_channel);
            push_be32(&mut out, *sender_channel);
            push_be32(&mut out, *init_win_size);
            push_be32(&mut out, *max_packet_size);
            proof {
                assert(out@ =~= spec_payload(f@));
            }
        },
        ChannelResponse::OpenFailure { reason } => {
            push_be32(&mut out, CHANNEL_OPEN_FAILURE);
            push_be32(&mut out, f.recipient_channel);
            push_be32(&mut out, *reason);
            proof {
                assert(out@ =~= spec_payload(f@));
            }
        },
        ChannelResponse::BytesAdjust { bytes_to_add } => {
            push_be32(&mut out, CHANNEL_WINDOW_ADJUST);
            push_be32(&mut out, f.recipient_channel);
            push_be32(&mut out, *bytes_to_add);
            proof {
                assert(out@ =~= spec_payload(f@));
            }
        },
        ChannelResponse::Data { bytes } => {
            push_be32(&mut out, CHANNEL_DATA);
            push_be32(&mut out, f.recipient_channel);
            push_be32(&mut out, bytes.len() as u32);
            push_bytes(&mut out, bytes.as_slice());
            proof {
                assert(out@ =~= spec_payload(f@));
            }
        },
        ChannelResponse::ExtendedData { data_type: _, data } => {
            push_be32(&mut out, CHANNEL_EXTENDED_DATA);
            push_be32(&mut out, f.recipient_channel);
            push_be32(&mut out, EXTENDED_DATA_STDERR);
            push_be32(&mut out, data.len() as u32);
            push_bytes(&mut out, data.as_slice());
            proof {
                assert(out@ =~= spec_payload(f@));
            }
        },
        ChannelResponse::Eof => {
            push_be32(&mut out, CHANNEL_EOF);
            push_be32(&mut out, f.recipient_channel);
            proof {
                assert(out@ =~= spec_payload(f@));
            }
        },
        ChannelResponse::Close => {
            push_be32(&mut out, CHANNEL_CLOSE);
            push_be32(&mut out, f.recipient_channel);
            proof {
                assert(out@ =~= spec_payload(f@));
            }
        },
        ChannelResponse::RequestSuccess => {
            push_be32(&mut out, CHANNEL_REQUEST_SUCCESS);
            push_be32(&mut out, f.recipient_channel);
            proof {
                assert(out@ =~= spec_payload(f@));
            }
        },
        ChannelResponse::RequestFailure => {
            push_be32(&mut out, CHANNEL_REQUEST_FAILURE);
            push_be32(&mut out, f.recipient_channel);
            proof {
                assert(out@ =~= spec_payload(f@));
            }
        },
    }
    out
}

/// A whole frame on the wire: big-endian payload length, then the payload.
pub open spec fn spec_encoded(f: ChannelFrameView) -> Seq<u8> {
    spec_be32(spec_payload(f).len() as u32) + spec_payload(f)
}

/// Encodes one frame with its length prefix.
pub fn encode(f: &ChannelFrame) -> (r: Vec<u8>)
    requires
        wf_frame(f@),
        spec_payload(f@).len() <= u32::MAX,
    ensures
        r@ == spec_encoded(f@),
{
    let payload = encode_payload(f);
    let mut out: Vec<u8> = Vec::new();
    push_be32(&mut out, payload.len() as u32);
    push_bytes(&mut out, payload.as_slice());
    proof {
        assert(out@ =~= spec_encoded(f@));
    }
    out
}

/// How a payload relates to its length-prefixed header fields.
proof fn lemma_payload_parts(v: ChannelFrameView, p: Seq<u8>)
    requires
        spec_payload(v) == p,
    ensures
        p.len() == 8 + spec_body(v.response).len(),
        spec_body(v.response) == p.subrange(8, p.len() as int),
        spec_tag(v.response) == spec_u32_of(p[0], p[1], p[2], p[3]),
        v.recipient_channel == spec_u32_of(p[4], p[5], p[6], p[7]),
        is_channel_tag(spec_u32_of(p[0], p[1], p[2], p[3])),
{
    assert(spec_body(v.response) =~= p.subrange(8, p.len() as int));
    lemma_be32_eq_bytes(spec_tag(v.response), p[0], p[1], p[2], p[3]);
    lemma_be32_eq_bytes(v.recipient_channel, p[4], p[5], p[6], p[7]);
}

/// Decodes one frame's payload: the exact inverse of [`encode_payload`].
///
/// Every well-formed frame whose payload equals `p` is returned, so
/// decoding what [`encode_payload`] produced gives the original frame
/// back.  On any other input the error names the first thing wrong with
/// the bytes, as [`spec_decode_err`] states.
#[verifier::rlimit(100)]
pub fn decode_payload(p: &[u8]) -> (r: Result<ChannelFrame, Error>)
    ensures
        r matches Ok(f) ==> wf_frame(f@) && spec_payload(f@) == p@,
        forall|v: ChannelFrameView|
            wf_frame(v) && spec_payload(v) == p@ ==> (r matches Ok(f) && f@ == v),
        r matches Err(e) ==> e == spec_decode_err(p@),
{
    if p.len() < 8 {
        proof {
            assert forall|v: ChannelFrameView|
                wf_frame(v) && spec_payload(v) == p@ implies false by {
                lemma_payload_parts(v, p@);
            };
        }
        return Err(Error::MalformedFrame);
    }
    let tag = read_be32(p, 0);
    let recipient = read_be32(p, 4);
    if tag == CHANNEL_OPEN_CONFIRMATION {
        if p.len() != 20 {
            proof {
                assert forall|v: ChannelFrameView|
                    wf_frame(v) && spec_payload(v) == p@ implies false by {
                    lemma_payload_parts(v, p@);
                };
            }
            return Err(Error::MalformedFrame);
        }
        let sender_channel = read_be32(p, 8);
        let init_win_size = read_be32(p, 12);
        let max_packet_size = read_be32(p, 16);
        let f = ChannelFrame {
            recipient_channel: recipient,
            response: ChannelResponse::OpenConfirmation {
                sender_channel,
                init_win_size,
                max_packet_size,
            },
        };
        proof {
            lemma_u32_of_be32(p@[0], p@[1], p@[2], p@[3]);
            lemma_u32_of_be32(p@[4], p@[5], p@[6], p@[7]);
            lemma_u32_of_be32(p@[8], p@[9], p@[10], p@[11]);
            lemma_u32_of_be32(p@[12], p@[13], p@[14], p@[15]);
            lemma_u32_of_be32(p@[16], p@[17], p@[18], p@[19]);
            assert(spec_payload(f@) =~= p@);
            assert forall|v: ChannelFrameView|
                wf_frame(v) && spec_payload(v) == p@ implies v == f@ by {
                lemma_payload_parts(v, p@);
                match v.response {
                    ChannelResponseView::OpenConfirmation {
                        sender_channel: s,
                        init_win_size: iw,
                        max_packet_size: mp,
                    } => {
                        lemma_be32_eq_bytes(s, p@[8], p@[9], p@[10], p@[11]);
                        lemma_be32_eq_bytes(iw, p@[12], p@[13], p@[14], p@[15]);
                        lemma_be32_eq_bytes(mp, p@[16], p@[17], p@[18], p@[19]);
                        assert(v =~= f@);
                    },
                    _ => {
                        assert(false);
                    },
                }
            };
        }
        Ok(f)
    } else if tag == CHANNEL_OPEN_FAILURE {
        if p.len() != 12 {
            proof {
                assert forall|v: ChannelFrameView|
                    wf_frame(v) && spec_payload(v) == p@ implies false by {
                    lemma_payload_parts(v, p@);
                };
            }
            return Err(Error::MalformedFrame);
        }
        let reason = read_be32(p, 8);
        let f = ChannelFrame {
            recipient_channel: recipient,
            response: ChannelResponse::OpenFailure { reason },
        };
        proof {
            lemma_u32_of_be32(p@[0], p@[1], p@[2], p@[3]);
            lemma_u32_of_be32(p@[4], p@[5], p@[6], p@[7]);
            lemma_u32_of_be32(p@[8], p@[9], p@[10], p@[11]);
            assert(spec_payload(f@) =~= p@);
            assert forall|v: ChannelFrameView|
                wf_frame(v) && spec_payload(v) == p@ implies v == f@ by {
                lemma_payload_parts(v, p@);
                match v.response {
                    ChannelResponseView::OpenFailure { reason: rs } => {
                        lemma_be32_eq_bytes(rs, p@[8], p@[9], p@[10], p@[11]);
                        assert(v =~= f@);
                    },
                    _ => {
                        assert(false);
                    },
                }
            };
        }
        Ok(f)
    } else if tag == CHANNEL_WINDOW_ADJUST {
        if p.len() != 12 {
            proof {
                assert forall|v: ChannelFrameView|
                    wf_frame(v) && spec_payload(v) == p@ implies false by {
                    lemma_payload_parts(v, p@);
                };
            }
            return Err(Error::MalformedFrame);
        }
        let bytes_to_add = read_be32(p, 8);
        let f = ChannelFrame {
            recipient_channel: recipient,
            response: ChannelResponse::BytesAdjust { bytes_to_add },
        };
        proof {
            lemma_u32_of_be32(p@[0], p@[1], p@[2], p@[3]);
            lemma_u32_of_be32(p@[4], p@[5], p@[6], p@[7]);
            lemma_u32_of_be32(p@[8], p@[9], p@[10], p@[11]);
            assert(spec_payload(f@) =~= p@);
            assert forall|v: ChannelFrameView|
                wf_frame(v) && spec_payload(v) == p@ implies v == f@ by {
                lemma_payload_parts(v, p@);
                match v.response {
                    ChannelResponseView::BytesAdjust { bytes_to_add: b } => {
                        lemma_be32_eq_bytes(b, p@[8], p@[9], p@[10], p@[11]);
                        assert(v =~= f@);
                    },
                    _ => {
                        assert(false);
                    },
                }
            };
        }
        Ok(f)
    } else if tag == CHANNEL_DATA {
        if p.len() < 12 {
            proof {
                assert forall|v: ChannelFrameView|
                    wf_frame(v) && spec_payload(v) == p@ implies false by {
                    lemma_payload_parts(v, p@);
                };
            }
            return Err(Error::MalformedFrame);
        }
        let l = read_be32(p, 8);
        if p.len() - 12 != l as usize {
            proof {
                assert forall|v: ChannelFrameView|
                    wf_frame(v) && spec_payload(v) == p@ implies false by {
                    lemma_payload_parts(v, p@);
                    match v.response {
                        ChannelResponseView::Data { bytes } => {
                            lemma_be32_eq_bytes(bytes.len() as u32, p@[8], p@[9], p@[10], p@[11]);
                        },
                        _ => {
                            assert(false);
                        },
                    }
                };
            }
            return Err(Error::MalformedFrame);
        }
        let bytes = copy_tail(p, 12);
        let f = ChannelFrame {
            recipient_channel: recipient,
            response: ChannelResponse::Data { bytes },
        };
        proof {
            lemma_u32_of_be32(p@[0], p@[1], p@[2], p@[3]);
            lemma_u32_of_be32(p@[4], p@[5], p@[6], p@[7]);
            lemma_u32_of_be32(p@[8], p@[9], p@[10], p@[11]);
            assert(spec_payload(f@) =~= p@);
            assert forall|v: ChannelFrameView|
                wf_frame(v) && spec_payload(v) == p@ implies v == f@ by {
                lemma_payload_parts(v, p@);
                match v.response {
                    ChannelResponseView::Data { bytes: vb } => {
                        lemma_be32_eq_bytes(vb.len() as u32, p@[8], p@[9], p@[10], p@[11]);
                        assert(vb =~= p@.subrange(12, p@.len() as int));
                        assert(v =~= f@);
                    },
                    _ => {
                        assert(false);
                    },
                }
            };
        }
        Ok(f)
    } else if tag == CHANNEL_EXTENDED_DATA {
        if p.len() < 12 {
            proof {
                assert forall|v: ChannelFrameView|
                    wf_frame(v) && spec_payload(v) == p@ implies false by {
                    lemma_payload_parts(v, p@);
                };
            }
            return Err(Error::MalformedFrame);
        }
        let code = read_be32(p, 8);
        if code != EXTENDED_DATA_STDERR {
            proof {
                assert forall|v: ChannelFrameView|
                    wf_frame(v) && spec_payload(v) == p@ implies false by {
                    lemma_payload_parts(v, p@);
                    match v.response {
                        ChannelResponseView::ExtendedData { data_type: _, data } => {
                            lemma_be32_eq_bytes(EXTENDED_DATA_STDERR, p@[8], p@[9], p@[10], p@[11]);
                        },
                        _ => {
                            assert(false);
                        },
                    }
                };
            }
            return Err(Error::UnknownExtendedDataType(code));
        }
        if p.len() < 16 {
            proof {
                assert forall|v: ChannelFrameView|
                    wf_frame(v) && spec_payload(v) == p@ implies false by {
                    lemma_payload_parts(v, p@);
                };
            }
            return Err(Error::MalformedFrame);
        }
        let l = read_be32(p, 12);
        if p.len() - 16 != l as usize {
            proof {
                assert forall|v: ChannelFrameView|
                    wf_frame(v) && spec_payload(v) == p@ implies false by {
                    lemma_payload_parts(v, p@);
                    match v.response {
                        ChannelResponseView::ExtendedData { data_type: _, data } => {
                            lemma_be32_eq_bytes(data.len() as u32, p@[12], p@[13], p@[14], p@[15]);
                        },
                        _ => {
                            assert(false);
                        },
                    }
                };
            }
            return Err(Error::MalformedFrame);
        }
        let data = copy_tail(p, 16);
        let f = ChannelFrame {
            recipient_channel: recipient,
            response: ChannelResponse::ExtendedData { data_type: ExtendedDataType::Stderr, data },
        };
        proof {
            lemma_u32_of_be32(p@[0], p@[1], p@[2], p@[3]);
            lemma_u32_of_be32(p@[4], p@[5], p@[6], p@[7]);
            lemma_u32_of_be32(p@[8], p@[9], p@[10], p@[11]);
            lemma_u32_of_be32(p@[12], p@[13], p@[14], p@[15]);
            assert(spec_payload(f@) =~= p@);
            assert forall|v: ChannelFrameView|
                wf_frame(v) && spec_payload(v) == p@ implies v == f@ by {
                lemma_payload_parts(v, p@);
                match v.response {
                    ChannelResponseView::ExtendedData { data_type: dt, data: vd } => {
                        lemma_be32_eq_bytes(vd.len() as u32, p@[12], p@[13], p@[14], p@[15]);
                        assert(vd =~= p@.subrange(16, p@.len() as int));
                        assert(v =~= f@);
                    },
                    _ => {
                        assert(false);
                    },
                }
            };
        }
        Ok(f)
    } else if tag == CHANNEL_EOF || tag == CHANNEL_CLOSE || tag == CHANNEL_REQUEST_SUCCESS || tag
        == CHANNEL_REQUEST_FAILURE {
        if p.len() != 8 {
            proof {
                assert forall|v: ChannelFrameView|
                    wf_frame(v) && spec_payload(v) == p@ implies false by {
                    lemma_payload_parts(v, p@);
                };
            }
            return Err(Error::MalformedFrame);
        }
        let response = if tag == CHANNEL_EOF {
            ChannelResponse::Eof
        } else if tag == CHANNEL_CLOSE {
            ChannelResponse::Close
        } else if tag == CHANNEL_REQUEST_SUCCESS {
            ChannelResponse::RequestSuccess
        } else {
            ChannelResponse::RequestFailure
        };
        let f = ChannelFrame { recipient_channel: recipient, response };
        proof {
            lemma_u32_of_be32(p@[0], p@[1], p@[2], p@[3]);
            lemma_u32_of_be32(p@[4], p@[5], p@[6], p@[7]);
            assert(spec_payload(f@) =~= p@);
            assert forall|v: ChannelFrameView|
                wf_frame(v) && spec_payload(v) == p@ implies v == f@ by {
                lemma_payload_parts(v, p@);
                assert(v =~= f@);
            };
        }
        Ok(f)
    } else {
        proof {
            assert forall|v: ChannelFrameView|
                wf_frame(v) && spec_payload(v) == p@ implies false by {
                lemma_payload_parts(v, p@);
            };
        }
        if tag == crate::response::MUX_MSG_HELLO || tag >= 0x80000001 && tag <= 0x80000008 {
            Err(Error::UnexpectedChannelState)
        } else {
            Err(Error::UnknownPacketType(tag))
        }
    }
}

/// How many buffered bytes one whole frame needs: the 4-byte length
/// prefix and the payload length it announces.  `None` while even the
/// prefix is incomplete, so the caller knows to read at least 4 bytes.
pub fn frame_size(buf: &[u8]) -> (r: Option<u64>)
    ensures
        buf@.len() < 4 ==> r is None,
        buf@.len() >= 4 ==> r == Some(
            (4 + spec_u32_of(buf@[0], buf@[1], buf@[2], buf@[3])) as u64,
        ),
{
    if buf.len() < 4 {
        None
    } else {
        let l = read_be32(buf, 0);
        Some(4u64 + l as u64)
    }
}

} // verus!

