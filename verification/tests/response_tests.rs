use mux_client::Error;
use mux_client::Response;
use mux_client::ResponseVisitor;

fn be32(n: u32) -> [u8; 4] {
    n.to_be_bytes()
}

fn payload(tag: u32, fields: &[u32]) -> Vec<u8> {
    let mut p = be32(tag).to_vec();
    for f in fields {
        p.extend_from_slice(&be32(*f));
    }
    p
}

fn string_payload(tag: u32, request_id: u32, reason: &str) -> Vec<u8> {
    let mut p = payload(tag, &[request_id, reason.len() as u32]);
    p.extend_from_slice(reason.as_bytes());
    p
}

#[test]
fn decode_hello() {
    let r = Response::deserialize(&payload(0x00000001, &[4]));
    assert_eq!(r, Ok(Response::Hello { version: 4 }));
}

#[test]
fn decode_alive() {
    let r = Response::deserialize(&payload(0x80000005, &[7, 4242]));
    assert_eq!(r, Ok(Response::Alive { request_id: 7, server_pid: 4242 }));
}

#[test]
fn decode_okay() {
    let r = Response::deserialize(&payload(0x80000001, &[9]));
    assert_eq!(r, Ok(Response::Okay { request_id: 9 }));
}

#[test]
fn decode_failure_with_reason() {
    let r = Response::deserialize(&string_payload(0x80000003, 5, "nope"));
    assert_eq!(r, Ok(Response::Failure { request_id: 5, reason: String::from("nope") }));
}

#[test]
fn decode_permission_denied() {
    let r = Response::deserialize(&string_payload(0x80000002, 6, "denied"));
    assert_eq!(
        r,
        Ok(Response::PermissionDenied { request_id: 6, reason: String::from("denied") })
    );
}

#[test]
fn decode_session_opened() {
    let r = Response::deserialize(&payload(0x80000006, &[1, 2]));
    assert_eq!(r, Ok(Response::SessionOpened { request_id: 1, session_id: 2 }));
}

#[test]
fn decode_exit_message() {
    let r = Response::deserialize(&payload(0x80000004, &[3, 1]));
    assert_eq!(r, Ok(Response::ExitMessage { session_id: 3, exit_value: 1 }));
}

#[test]
fn decode_tty_alloc_fail() {
    let r = Response::deserialize(&payload(0x80000008, &[3]));
    assert_eq!(r, Ok(Response::TtyAllocFail { session_id: 3 }));
}

#[test]
fn decode_remote_port() {
    let r = Response::deserialize(&payload(0x80000007, &[3, 8022]));
    assert_eq!(r, Ok(Response::RemotePort { request_id: 3, remote_port: 8022 }));
}

#[test]
fn decode_unknown_packet_type() {
    let r = ResponseVisitor.visit_enum(&payload(0x7000_0000, &[1]));
    assert_eq!(r, Err(Error::UnexpectedPacketType(0x7000_0000)));
}

#[test]
fn decode_truncated_response() {
    assert_eq!(Response::deserialize(&[0, 0]), Err(Error::MalformedFrame));
    assert_eq!(Response::deserialize(&payload(0x80000001, &[])), Err(Error::MalformedFrame));
}

#[test]
fn decode_invalid_reason_string() {
    let mut p = payload(0x80000003, &[5, 2]);
    p.extend_from_slice(&[0xff, 0xfe]);
    assert_eq!(Response::deserialize(&p), Err(Error::InvalidReasonString));
}

#[test]
fn decode_reason_length_mismatch() {
    let mut p = payload(0x80000003, &[5, 10]);
    p.extend_from_slice(b"abc");
    assert_eq!(Response::deserialize(&p), Err(Error::MalformedFrame));
}
