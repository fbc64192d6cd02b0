use mux_client::channel::ChannelState;
use mux_client::codec::ChannelFrame;
use mux_client::codec::ChannelResponse;
use mux_client::codec::ExtendedDataType;
use mux_client::codec::decode_payload;
use mux_client::dispatch::Connection;
use mux_client::pending::Completion;
use mux_client::Error;

fn confirm(conn: &mut Connection, slot: u32, sender: u32, init_win: u32) {
    conn.handle_frame(ChannelFrame {
        recipient_channel: slot,
        response: ChannelResponse::OpenConfirmation {
            sender_channel: sender,
            init_win_size: init_win,
            max_packet_size: 32768,
        },
    })
    .expect("open confirmation for a requested channel must succeed");
}

fn data_frame(sender: u32, len: usize) -> ChannelFrame {
    ChannelFrame {
        recipient_channel: sender,
        response: ChannelResponse::Data { bytes: vec![7u8; len] },
    }
}

#[test]
fn end_to_end_window_scenario() {
    // Initial sender window 65536, receiver quantum 32768, one consumer.
    let mut conn = Connection::new();
    let slot = conn.open_channel(32768, 32768, true, false);
    confirm(&mut conn, slot, 100, 65536);

    // 40000 bytes of data across two frames.
    conn.handle_frame(data_frame(100, 20000)).unwrap();
    conn.handle_frame(data_frame(100, 20000)).unwrap();

    // Exactly one window-adjust acknowledgement, carrying the quantum.
    let outbound = conn.take_outbound();
    assert_eq!(outbound.len(), 1);
    let frame = decode_payload(&outbound[0][4..]).unwrap();
    assert_eq!(frame.recipient_channel, slot);
    assert_eq!(frame.response, ChannelResponse::BytesAdjust { bytes_to_add: 32768 });

    // The consumer can read all 40000 bytes; the sender window holds the
    // initial grant.
    let d = conn.descriptor(slot).unwrap();
    assert_eq!(d.rx.as_ref().unwrap().readable_bytes(), 40000);
    assert_eq!(d.sender_window_size, 65536);
}

#[test]
fn no_consumer_no_window_adjust() {
    let mut conn = Connection::new();
    let slot = conn.open_channel(1000, 1000, false, false);
    confirm(&mut conn, slot, 4, 0);
    // Far more data than the budget: without a consumer, no adjust ever.
    for _ in 0..10 {
        conn.handle_frame(data_frame(4, 900)).unwrap();
    }
    assert_eq!(conn.take_outbound().len(), 0);
}

#[test]
fn stderr_payload_reaches_the_stderr_sink() {
    let mut conn = Connection::new();
    let slot = conn.open_channel(1000, 1000, true, true);
    confirm(&mut conn, slot, 4, 0);
    conn.handle_frame(ChannelFrame {
        recipient_channel: 4,
        response: ChannelResponse::ExtendedData {
            data_type: ExtendedDataType::Stderr,
            data: vec![1, 2, 3],
        },
    })
    .unwrap();
    let d = conn.descriptor(slot).unwrap();
    assert_eq!(d.stderr.as_ref().unwrap().readable_bytes(), 3);
    assert_eq!(d.rx.as_ref().unwrap().readable_bytes(), 0);
}

#[test]
fn duplicate_sender_channel_leaves_entry_untouched() {
    let mut conn = Connection::new();
    let slot_a = conn.open_channel(100, 100, true, false);
    let slot_b = conn.open_channel(200, 200, true, false);
    confirm(&mut conn, slot_a, 5, 1000);

    let r = conn.handle_frame(ChannelFrame {
        recipient_channel: slot_b,
        response: ChannelResponse::OpenConfirmation {
            sender_channel: 5,
            init_win_size: 9,
            max_packet_size: 9,
        },
    });
    assert_eq!(r, Err(Error::DuplicateSenderChannel(5)));

    // The existing registry entry still points at the first channel.
    let ing = conn.ingoing(5).unwrap();
    assert_eq!(ing.arena_slot, slot_a);
    assert_eq!(ing.receiver_win_size, 100);
}

#[test]
fn unregistered_channel_is_fatal_and_mutates_nothing() {
    let mut conn = Connection::new();
    let slot = conn.open_channel(100, 100, true, false);
    confirm(&mut conn, slot, 5, 1000);

    let r = conn.handle_frame(data_frame(9, 10));
    assert_eq!(r, Err(Error::InvalidSenderChannel(9)));
    // Nothing reached the registered channel and nothing was emitted.
    assert_eq!(conn.descriptor(slot).unwrap().rx.as_ref().unwrap().readable_bytes(), 0);
    assert_eq!(conn.ingoing(5).unwrap().receiver_win_size, 100);
    assert_eq!(conn.take_outbound().len(), 0);
}

#[test]
fn open_failure_settles_once() {
    let mut conn = Connection::new();
    let slot = conn.open_channel(100, 100, false, false);
    conn.handle_frame(ChannelFrame {
        recipient_channel: slot,
        response: ChannelResponse::OpenFailure { reason: 2 },
    })
    .unwrap();
    assert_eq!(conn.descriptor(slot).unwrap().state, ChannelState::Failed { reason: 2 });
    // No registry entry was created.
    assert!(conn.ingoing(slot).is_none());
    // A second settlement of either kind is an error.
    let r = conn.handle_frame(ChannelFrame {
        recipient_channel: slot,
        response: ChannelResponse::OpenFailure { reason: 3 },
    });
    assert_eq!(r, Err(Error::ChannelAlreadyResolved(slot)));
    assert_eq!(conn.descriptor(slot).unwrap().state, ChannelState::Failed { reason: 2 });
}

#[test]
fn unknown_recipient_on_open_confirmation() {
    let mut conn = Connection::new();
    let r = conn.handle_frame(ChannelFrame {
        recipient_channel: 77,
        response: ChannelResponse::OpenConfirmation {
            sender_channel: 1,
            init_win_size: 1,
            max_packet_size: 1,
        },
    });
    assert_eq!(r, Err(Error::UnknownRecipientChannel(77)));
}

#[test]
fn bytes_adjust_credits_the_sender_window() {
    let mut conn = Connection::new();
    let slot = conn.open_channel(100, 100, false, false);
    confirm(&mut conn, slot, 6, 1000);
    conn.handle_frame(ChannelFrame {
        recipient_channel: 6,
        response: ChannelResponse::BytesAdjust { bytes_to_add: 500 },
    })
    .unwrap();
    assert_eq!(conn.descriptor(slot).unwrap().sender_window_size, 1500);
}

#[test]
fn sender_window_saturates_instead_of_wrapping() {
    let mut conn = Connection::new();
    let slot = conn.open_channel(100, 100, false, false);
    confirm(&mut conn, slot, 6, u32::MAX);
    // A second maximal credit is still exact on the 64-bit counter.
    conn.handle_frame(ChannelFrame {
        recipient_channel: 6,
        response: ChannelResponse::BytesAdjust { bytes_to_add: u32::MAX },
    })
    .unwrap();
    assert_eq!(conn.descriptor(slot).unwrap().sender_window_size, 2 * (u32::MAX as u64));
}

#[test]
fn eof_then_close_marks_sinks_once_and_unregisters() {
    let mut conn = Connection::new();
    let slot = conn.open_channel(100, 100, true, true);
    confirm(&mut conn, slot, 6, 0);
    conn.handle_frame(data_frame(6, 10)).unwrap();

    conn.handle_frame(ChannelFrame { recipient_channel: 6, response: ChannelResponse::Eof })
        .unwrap();
    {
        let d = conn.descriptor(slot).unwrap();
        assert!(d.rx.as_ref().unwrap().is_eof());
        assert!(d.stderr.as_ref().unwrap().is_eof());
        assert_eq!(d.rx.as_ref().unwrap().readable_bytes(), 10);
    }
    // The channel stays registered until Close.
    assert!(conn.ingoing(6).is_some());

    conn.handle_frame(ChannelFrame { recipient_channel: 6, response: ChannelResponse::Close })
        .unwrap();
    assert!(conn.ingoing(6).is_none());
    let d = conn.descriptor(slot).unwrap();
    assert!(d.rx.as_ref().unwrap().is_eof());
    assert_eq!(d.rx.as_ref().unwrap().readable_bytes(), 10);

    // Data after the sinks closed is dropped; a second Close is fatal.
    assert_eq!(
        conn.handle_frame(data_frame(6, 5)),
        Err(Error::InvalidSenderChannel(6))
    );
}

#[test]
fn close_without_eof_still_marks_sinks() {
    let mut conn = Connection::new();
    let slot = conn.open_channel(100, 100, true, false);
    confirm(&mut conn, slot, 6, 0);
    conn.handle_frame(ChannelFrame { recipient_channel: 6, response: ChannelResponse::Close })
        .unwrap();
    assert!(conn.descriptor(slot).unwrap().rx.as_ref().unwrap().is_eof());
}

#[test]
fn request_batch_aggregates_to_one_completion() {
    let mut conn = Connection::new();
    let slot = conn.open_channel(100, 100, false, false);
    confirm(&mut conn, slot, 6, 0);
    conn.issue_requests(slot, 3).unwrap();

    conn.handle_frame(ChannelFrame {
        recipient_channel: 6,
        response: ChannelResponse::RequestSuccess,
    })
    .unwrap();
    conn.handle_frame(ChannelFrame {
        recipient_channel: 6,
        response: ChannelResponse::RequestFailure,
    })
    .unwrap();
    assert_eq!(conn.descriptor(slot).unwrap().completions.len(), 0);
    conn.handle_frame(ChannelFrame {
        recipient_channel: 6,
        response: ChannelResponse::RequestSuccess,
    })
    .unwrap();
    assert_eq!(conn.descriptor(slot).unwrap().completions, vec![Completion::Failed]);

    // The next batch is hydrated fresh and succeeds on its own.
    conn.issue_requests(slot, 2).unwrap();
    conn.handle_frame(ChannelFrame {
        recipient_channel: 6,
        response: ChannelResponse::RequestSuccess,
    })
    .unwrap();
    conn.handle_frame(ChannelFrame {
        recipient_channel: 6,
        response: ChannelResponse::RequestSuccess,
    })
    .unwrap();
    assert_eq!(
        conn.descriptor(slot).unwrap().completions,
        vec![Completion::Failed, Completion::Success]
    );
}

#[test]
fn request_response_with_nothing_pending_is_an_error() {
    let mut conn = Connection::new();
    let slot = conn.open_channel(100, 100, false, false);
    confirm(&mut conn, slot, 6, 0);
    let r = conn.handle_frame(ChannelFrame {
        recipient_channel: 6,
        response: ChannelResponse::RequestSuccess,
    });
    assert_eq!(r, Err(Error::UnexpectedRequestResponse));
}
