use mux_client::codec::ChannelFrame;
use mux_client::codec::ChannelResponse;
use mux_client::codec::ExtendedDataType;
use mux_client::codec::decode_payload;
use mux_client::codec::encode;
use mux_client::codec::encode_payload;
use mux_client::codec::frame_size;
use mux_client::Error;

fn roundtrip(frame: ChannelFrame) {
    let payload = encode_payload(&frame);
    let decoded = decode_payload(&payload).expect("a well-formed payload must decode");
    assert_eq!(decoded, frame);
}

#[test]
fn roundtrip_open_confirmation() {
    roundtrip(ChannelFrame {
        recipient_channel: 3,
        response: ChannelResponse::OpenConfirmation {
            sender_channel: 9,
            init_win_size: 65536,
            max_packet_size: 32768,
        },
    });
}

#[test]
fn roundtrip_open_failure() {
    roundtrip(ChannelFrame {
        recipient_channel: 1,
        response: ChannelResponse::OpenFailure { reason: 4 },
    });
}

#[test]
fn roundtrip_bytes_adjust() {
    roundtrip(ChannelFrame {
        recipient_channel: 0xdeadbeef,
        response: ChannelResponse::BytesAdjust { bytes_to_add: u32::MAX },
    });
}

#[test]
fn roundtrip_data_empty() {
    roundtrip(ChannelFrame {
        recipient_channel: 2,
        response: ChannelResponse::Data { bytes: Vec::new() },
    });
}

#[test]
fn roundtrip_data_large() {
    let bytes: Vec<u8> = (0..70000u32).map(|i| (i % 251) as u8).collect();
    roundtrip(ChannelFrame { recipient_channel: 7, response: ChannelResponse::Data { bytes } });
}

#[test]
fn roundtrip_extended_data() {
    roundtrip(ChannelFrame {
        recipient_channel: 5,
        response: ChannelResponse::ExtendedData {
            data_type: ExtendedDataType::Stderr,
            data: vec![1, 2, 3, 4, 5],
        },
    });
}

#[test]
fn roundtrip_bare_variants() {
    roundtrip(ChannelFrame { recipient_channel: 8, response: ChannelResponse::Eof });
    roundtrip(ChannelFrame { recipient_channel: 8, response: ChannelResponse::Close });
    roundtrip(ChannelFrame { recipient_channel: 8, response: ChannelResponse::RequestSuccess });
    roundtrip(ChannelFrame { recipient_channel: 8, response: ChannelResponse::RequestFailure });
}

#[test]
fn bytes_adjust_exact_encoding() {
    let frame = ChannelFrame {
        recipient_channel: 0x01020304,
        response: ChannelResponse::BytesAdjust { bytes_to_add: 0x00008000 },
    };
    let whole = encode(&frame);
    assert_eq!(
        whole,
        vec![0, 0, 0, 12, 0, 0, 0, 93, 1, 2, 3, 4, 0, 0, 0x80, 0]
    );
}

#[test]
fn decode_truncated_payload() {
    assert_eq!(decode_payload(&[0, 0, 0]), Err(Error::MalformedFrame));
    assert_eq!(decode_payload(&[0, 0, 0, 97, 0, 0, 0]), Err(Error::MalformedFrame));
}

#[test]
fn decode_unknown_tag() {
    let payload = [0, 0, 0, 42, 0, 0, 0, 1];
    assert_eq!(decode_payload(&payload), Err(Error::UnknownPacketType(42)));
}

#[test]
fn decode_unknown_extended_data_type() {
    // tag 95, recipient 1, stream code 2, empty data
    let payload = [0, 0, 0, 95, 0, 0, 0, 1, 0, 0, 0, 2, 0, 0, 0, 0];
    assert_eq!(decode_payload(&payload), Err(Error::UnknownExtendedDataType(2)));
}

#[test]
fn decode_data_length_mismatch() {
    // tag 94, recipient 1, declared length 5, only 2 bytes present
    let payload = [0, 0, 0, 94, 0, 0, 0, 1, 0, 0, 0, 5, 10, 11];
    assert_eq!(decode_payload(&payload), Err(Error::MalformedFrame));
}

#[test]
fn decode_close_with_trailing_bytes() {
    let payload = [0, 0, 0, 97, 0, 0, 0, 1, 9];
    assert_eq!(decode_payload(&payload), Err(Error::MalformedFrame));
}

#[test]
fn frame_size_reads_the_prefix() {
    assert_eq!(frame_size(&[]), None);
    assert_eq!(frame_size(&[0, 0, 0]), None);
    let frame = ChannelFrame { recipient_channel: 1, response: ChannelResponse::Eof };
    let whole = encode(&frame);
    assert_eq!(frame_size(&whole), Some(whole.len() as u64));
}

#[test]
fn decode_connection_scoped_tag_is_unexpected_channel_state() {
    // A session-establishment tag carries no channel traffic: the
    // dispatch core rejects it as an unexpected channel state.
    let hello = [0, 0, 0, 1, 0, 0, 0, 4];
    assert_eq!(decode_payload(&hello), Err(Error::UnexpectedChannelState));
    let okay = [0x80, 0, 0, 1, 0, 0, 0, 9];
    assert_eq!(decode_payload(&okay), Err(Error::UnexpectedChannelState));
}
