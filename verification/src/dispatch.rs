//! The dispatch core: the channel registry and the routing of decoded
//! frames, exclusively owned by the connection's read task.
//!
//! One [`Connection`] holds the arena of shared channel descriptors
//! (keyed by recipient id), the registry of ingoing channel state (keyed
//! by sender id, created on open confirmation and destroyed on close),
//! and the outbound frames the window controller owes the peer.  Every
//! frame is fully decoded before any state mutation begins, so each
//! transition here is atomic from the registry's point of view.

use std::collections::HashMap;

use vstd::prelude::*;

use crate::channel::ChannelData;
use crate::channel::ChannelDataView;
use crate::channel::ChannelIngoingData;
use crate::channel::ChannelState;
use crate::error::Error;
use crate::pending::PendingRequests;
use crate::pending::wf_pending;
use crate::queue::BytesQueue;
use crate::queue::BytesQueueView;

verus! {

broadcast use vstd::std_specs::hash::group_hash_axioms;

/// The whole state the dispatch loop owns.
pub struct Connection {
    /// Shared channel descriptors, keyed by recipient id (arena slot).
    pub arena: HashMap<u32, ChannelData>,
    /// Ingoing channel state, keyed by the sender id the peer assigned.
    pub registry: HashMap<u32, ChannelIngoingData>,
    /// Outbound frames owed to the peer, oldest first, each already
    /// length-prefixed.
    pub outbound: Vec<Vec<u8>>,
    /// The next unused arena slot.
    pub next_slot: u32,
}

/// Mathematical model of a [`Connection`].
#[verifier::ext_equal]
pub struct ConnectionView {
    pub arena: Map<u32, ChannelDataView>,
    pub registry: Map<u32, ChannelIngoingData>,
    pub outbound: Seq<Seq<u8>>,
    pub next_slot: u32,
}

impl View for Connection {
    type V = ConnectionView;

    open spec fn view(&self) -> ConnectionView {
        ConnectionView {
            arena: self.arena@.map_values(|d: ChannelData| d@),
            registry: self.registry@,
            outbound: self.outbound@.map_values(|b: Vec<u8>| b@),
            next_slot: self.next_slot,
        }
    }
}

/// Well-formedness the dispatch loop maintains: every registered
/// channel's tracker is coherent and points into the arena.
pub open spec fn wf_connection(c: ConnectionView) -> bool {
    forall|k: u32|
        #[trigger] c.registry.contains_key(k) ==> wf_pending(c.registry[k].pending_requests)
            && c.arena.contains_key(c.registry[k].arena_slot)
}

impl Connection {
    /// A connection with no channels and nothing owed to the peer.
    pub fn new() -> (r: Connection)
        ensures
            r@.arena == Map::<u32, ChannelDataView>::empty(),
            r@.registry == Map::<u32, ChannelIngoingData>::empty(),
            r@.outbound == Seq::<Seq<u8>>::empty(),
            r@.next_slot == 0,
            wf_connection(r@),
    {
        let r = Connection {
            arena: HashMap::new(),
            registry: HashMap::new(),
            outbound: Vec::new(),
            next_slot: 0,
        };
        proof {
            assert(r@.arena =~= Map::<u32, ChannelDataView>::empty());
            assert(r@.registry =~= Map::<u32, ChannelIngoingData>::empty());
            assert(r@.outbound =~= Seq::<Seq<u8>>::empty());
        }
        r
    }

    /// The write path requests a channel: allocates the next arena slot
    /// and parks a descriptor there in the `Opening` state, with the
    /// advertised receiver budget and quantum, the requested sinks, and
    /// that many live consumers.
    pub fn open_channel(
        &mut self,
        init_receiver_win_size: u32,
        extend_window_size: u32,
        attach_rx: bool,
        attach_stderr: bool,
    ) -> (slot: u32)
        requires
            old(self)@.next_slot < u32::MAX,
        ensures
            slot == old(self)@.next_slot,
            !old(self)@.arena.contains_key(slot) ==> final(self)@.arena =~= old(
                self,
            )@.arena.insert(
                slot,
                ChannelDataView {
                    state: ChannelState::Opening { init_receiver_win_size, extend_window_size },
                    sender_window_size: 0,
                    receivers_count: (if attach_rx {
                        1int
                    } else {
                        0int
                    } + if attach_stderr {
                        1int
                    } else {
                        0int
                    }) as usize,
                    outstanding_requests: 0,
                    completions: Seq::empty(),
                    rx: if attach_rx {
                        Some(BytesQueueView { chunks: Seq::empty(), eof: false })
                    } else {
                        None
                    },
                    stderr: if attach_stderr {
                        Some(BytesQueueView { chunks: Seq::empty(), eof: false })
                    } else {
                        None
                    },
                },
            ),
            final(self)@.registry == old(self)@.registry,
            final(self)@.outbound == old(self)@.outbound,
            final(self)@.next_slot == old(self)@.next_slot + 1,
            wf_connection(old(self)@) ==> wf_connection(final(self)@),
    {
        let slot = self.next_slot;
        let receivers: usize = (if attach_rx {
            1usize
        } else {
            0usize
        }) + (if attach_stderr {
            1usize
        } else {
            0usize
        });
        let data = ChannelData {
            state: ChannelState::Opening { init_receiver_win_size, extend_window_size },
            sender_window_size: 0,
            receivers_count: receivers,
            outstanding_requests: 0,
            completions: Vec::new(),
            rx: if attach_rx {
                Some(BytesQueue::new())
            } else {
                None
            },
            stderr: if attach_stderr {
                Some(BytesQueue::new())
            } else {
                None
            },
        };
        self.arena.insert(slot, data);
        self.next_slot = slot + 1;
        proof {
            if !old(self)@.arena.contains_key(slot) {
                assert(self@.arena =~~= old(self)@.arena.insert(
                    slot,
                    ChannelDataView {
                        state: ChannelState::Opening { init_receiver_win_size, extend_window_size },
                        sender_window_size: 0,
                        receivers_count: (if attach_rx {
                            1int
                        } else {
                            0int
                        } + if attach_stderr {
                            1int
                        } else {
                            0int
                        }) as usize,
                        outstanding_requests: 0,
                        completions: Seq::empty(),
                        rx: if attach_rx {
                            Some(BytesQueueView { chunks: Seq::empty(), eof: false })
                        } else {
                            None
                        },
                        stderr: if attach_stderr {
                            Some(BytesQueueView { chunks: Seq::empty(), eof: false })
                        } else {
                            None
                        },
                    },
                ));
            }
            assert(self@.outbound =~= old(self)@.outbound);
        }
        slot
    }

    /// The write path's bookkeeping: `n` more requests were issued on
    /// this channel, saturating at the counter's top.
    pub fn issue_requests(&mut self, recipient_channel: u32, n: usize) -> (r: Result<(), Error>)
        ensures
            match r {
                Ok(()) => old(self)@.arena.contains_key(recipient_channel) && final(self)@
                    =~= ConnectionView {
                    arena: old(self)@.arena.insert(
                        recipient_channel,
                        ChannelDataView {
                            outstanding_requests: (if old(self)@.arena[recipient_channel].outstanding_requests + n <= usize::MAX {
                                old(self)@.arena[recipient_channel].outstanding_requests + n
                            } else {
                                usize::MAX as int
                            }) as usize,
                            ..old(self)@.arena[recipient_channel]
                        },
                    ),
                    ..old(self)@
                },
                Err(e) => !old(self)@.arena.contains_key(recipient_channel) && e
                    == Error::UnknownRecipientChannel(recipient_channel) && final(self)@ == old(
                    self,
                )@,
            },
            wf_connection(old(self)@) ==> wf_connection(final(self)@),
    {
        match self.arena.remove(&recipient_channel) {
            Some(mut d) => {
                if d.outstanding_requests <= usize::MAX - n {
                    d.outstanding_requests = d.outstanding_requests + n;
                } else {
                    d.outstanding_requests = usize::MAX;
                }
                self.arena.insert(recipient_channel, d);
                proof {
                    assert(self@ =~~= ConnectionView {
                        arena: old(self)@.arena.insert(
                            recipient_channel,
                            ChannelDataView {
                                outstanding_requests: (if old(self)@.arena[recipient_channel].outstanding_requests + n <= usize::MAX {
                                    old(self)@.arena[recipient_channel].outstanding_requests + n
                                } else {
                                    usize::MAX as int
                                }) as usize,
                                ..old(self)@.arena[recipient_channel]
                            },
                        ),
                        ..old(self)@
                    });
                }
                Ok(())
            },
            None => {
                proof {
                    assert(self@ =~~= old(self)@);
                }
                Err(Error::UnknownRecipientChannel(recipient_channel))
            },
        }
    }

    /// Hands every outbound frame accumulated so far to the write path.
    pub fn take_outbound(&mut self) -> (r: Vec<Vec<u8>>)
        ensures
            r@.map_values(|b: Vec<u8>| b@) == old(self)@.outbound,
            final(self)@ == (ConnectionView { outbound: Seq::empty(), ..old(self)@ }),
            wf_connection(old(self)@) ==> wf_connection(final(self)@),
    {
        let mut r: Vec<Vec<u8>> = Vec::new();
        core::mem::swap(&mut r, &mut self.outbound);
        proof {
            assert(self@ =~~= (ConnectionView { outbound: Seq::empty(), ..old(self)@ }));
        }
        r
    }

    /// A copy of the channel descriptor at an arena slot, for the write
    /// path and for consumers to inspect.
    pub fn descriptor(&self, recipient_channel: u32) -> (r: Option<&ChannelData>)
        ensures
            match r {
                Some(d) => self@.arena.contains_key(recipient_channel) && d@ == self@.arena[recipient_channel],
                None => !self@.arena.contains_key(recipient_channel),
            },
    {
        self.arena.get(&recipient_channel)
    }

    /// The ingoing state registered under a sender id, if any.
    pub fn ingoing(&self, sender_channel: u32) -> (r: Option<ChannelIngoingData>)
        ensures
            match r {
                Some(d) => self@.registry.contains_key(sender_channel) && d == self@.registry[sender_channel],
                None => !self@.registry.contains_key(sender_channel),
            },
    {
        match self.registry.get(&sender_channel) {
            Some(d) => Some(*d),
            None => None,
        }
    }
}

/// A sink after a payload chunk: appended while open, dropped after
/// end-of-stream, and silently absent when no consumer listens.
pub open spec fn spec_push_queue(q: Option<BytesQueueView>, bytes: Seq<u8>) -> Option<
    BytesQueueView,
> {
    match q {
        Some(q) => Some(
            if q.eof {
                q
            } else {
                BytesQueueView { chunks: q.chunks.push(bytes), eof: false }
            },
        ),
        None => None,
    }
}

/// A descriptor after payload was routed to its ordinary or stderr sink.
pub open spec fn spec_push_sink(d: ChannelDataView, bytes: Seq<u8>, is_rx: bool) -> ChannelDataView {
    if is_rx {
        ChannelDataView { rx: spec_push_queue(d.rx, bytes), ..d }
    } else {
        ChannelDataView { stderr: spec_push_queue(d.stderr, bytes), ..d }
    }
}

/// The window-adjust acknowledgement frame owed for `slot`.
pub open spec fn spec_adjust_frame(slot: u32, amount: u32) -> crate::codec::ChannelFrameView {
    crate::codec::ChannelFrameView {
        recipient_channel: slot,
        response: crate::codec::ChannelResponseView::BytesAdjust { bytes_to_add: amount },
    }
}

/// What a payload frame does to the connection: push the bytes to the
/// addressed channel's sink, consume that channel's receiver budget,
/// and append the window-adjust acknowledgement the consumption may owe.
pub open spec fn spec_handle_data(c: ConnectionView, rc: u32, bytes: Seq<u8>, is_rx: bool) -> (
    Result<(), Error>,
    ConnectionView,
) {
    if !c.registry.contains_key(rc) {
        (Err(Error::InvalidSenderChannel(rc)), c)
    } else {
        let ing = c.registry[rc];
        let slot = ing.arena_slot;
        let cnt: u32 = if bytes.len() > u32::MAX {
            u32::MAX
        } else {
            bytes.len() as u32
        };
        let receivers: nat = if c.arena.contains_key(slot) {
            c.arena[slot].receivers_count as nat
        } else {
            0nat
        };
        let consumed = crate::window::spec_consume(
            ing.receiver_win_size,
            ing.extend_window_size,
            receivers,
            cnt,
        );
        let arena1 = if c.arena.contains_key(slot) {
            c.arena.insert(slot, spec_push_sink(c.arena[slot], bytes, is_rx))
        } else {
            c.arena
        };
        let registry1 = c.registry.insert(
            rc,
            ChannelIngoingData { receiver_win_size: consumed.0, ..ing },
        );
        let outbound1 = match consumed.1 {
            Some(a) => c.outbound.push(crate::codec::spec_encoded(spec_adjust_frame(slot, a))),
            None => c.outbound,
        };
        (Ok(()), ConnectionView { arena: arena1, registry: registry1, outbound: outbound1, ..c })
    }
}

/// What one request response does to the connection: hydrate or advance
/// the addressed channel's batch, and append the aggregated completion
/// when the batch ends.
pub open spec fn spec_handle_request_response(c: ConnectionView, rc: u32, success: bool) -> (
    Result<(), Error>,
    ConnectionView,
) {
    if !c.registry.contains_key(rc) {
        (Err(Error::InvalidSenderChannel(rc)), c)
    } else {
        let ing = c.registry[rc];
        let slot = ing.arena_slot;
        let outstanding: usize = if c.arena.contains_key(slot) {
            c.arena[slot].outstanding_requests
        } else {
            0usize
        };
        match crate::pending::spec_record(ing.pending_requests, outstanding, success) {
            Err(e) => {
                let registry1 = c.registry.insert(
                    rc,
                    ChannelIngoingData {
                        pending_requests: crate::pending::spec_idle_tracker(),
                        ..ing
                    },
                );
                (Err(e), ConnectionView { registry: registry1, ..c })
            },
            Ok((t1, o1, comp)) => {
                let registry1 = c.registry.insert(
                    rc,
                    ChannelIngoingData { pending_requests: t1, ..ing },
                );
                let arena1 = if c.arena.contains_key(slot) {
                    c.arena.insert(
                        slot,
                        ChannelDataView {
                            outstanding_requests: o1,
                            completions: match comp {
                                Some(x) => c.arena[slot].completions.push(x),
                                None => c.arena[slot].completions,
                            },
                            ..c.arena[slot]
                        },
                    )
                } else {
                    c.arena
                };
                (Ok(()), ConnectionView { registry: registry1, arena: arena1, ..c })
            },
        }
    }
}

impl Connection {
    /// Routes one payload frame: pushes `bytes` to the channel's
    /// ordinary (`is_rx`) or stderr sink if one is listening, then
    /// consumes the receiver budget and, when the budget hits zero with
    /// consumers present, queues the window-adjust acknowledgement and
    /// replenishes the budget to the quantum.
    pub fn handle_incoming_data(
        &mut self,
        recipient_channel: u32,
        bytes: Vec<u8>,
        is_rx: bool,
    ) -> (r: Result<(), Error>)
        ensures
            ({
                let s = spec_handle_data(old(self)@, recipient_channel, bytes@, is_rx);
                r == s.0 && final(self)@ == s.1
            }),
            wf_connection(old(self)@) ==> wf_connection(final(self)@),
    {
        let mut ing = match self.registry.remove(&recipient_channel) {
            Some(d) => d,
            None => {
                proof {
                    assert(self@ =~~= old(self)@);
                }
                return Err(Error::InvalidSenderChannel(recipient_channel));
            },
        };
        let cnt: u32 = if bytes.len() > u32::MAX as usize {
            u32::MAX
        } else {
            bytes.len() as u32
        };
        let ghost bytes_view = bytes@;
        let receivers: usize = match self.arena.remove(&ing.arena_slot) {
            Some(mut d) => {
                let rcount = d.receivers_count;
                if is_rx {
                    match &mut d.rx {
                        Some(q) => {
                            if !q.is_eof() {
                                q.push_bytes(bytes);
                            }
                        },
                        None => {},
                    }
                } else {
                    match &mut d.stderr {
                        Some(q) => {
                            if !q.is_eof() {
                                q.push_bytes(bytes);
                            }
                        },
                        None => {},
                    }
                }
                self.arena.insert(ing.arena_slot, d);
                rcount
            },
            None => 0,
        };
        let adjust = crate::window::consume_receiver_budget(
            &mut ing.receiver_win_size,
            ing.extend_window_size,
            receivers,
            cnt,
        );
        let arena_slot = ing.arena_slot;
        self.registry.insert(recipient_channel, ing);
        if let Some(amount) = adjust {
            let frame = crate::codec::ChannelFrame {
                recipient_channel: arena_slot,
                response: crate::codec::ChannelResponse::BytesAdjust { bytes_to_add: amount },
            };
            proof {
                assert(crate::codec::spec_payload(frame@).len() == 12);
            }
            let encoded = crate::codec::encode(&frame);
            self.outbound.push(encoded);
        }
        proof {
            let s = spec_handle_data(old(self)@, recipient_channel, bytes_view, is_rx);
            assert(self@ =~~= s.1);
        }
        Ok(())
    }

    /// Routes one request response for the addressed channel: the first
    /// response after a quiet period takes the descriptor's
    /// outstanding-request count as the batch; the batch's last
    /// response appends the aggregated completion to the descriptor.  A
    /// response with nothing outstanding is a protocol violation.
    pub fn handle_request_response(&mut self, recipient_channel: u32, success: bool) -> (r: Result<
        (),
        Error,
    >)
        requires
            wf_connection(old(self)@),
        ensures
            ({
                let s = spec_handle_request_response(old(self)@, recipient_channel, success);
                r == s.0 && final(self)@ == s.1
            }),
            wf_connection(final(self)@),
    {
        let mut ing = match self.registry.remove(&recipient_channel) {
            Some(d) => d,
            None => {
                proof {
                    assert(self@ =~~= old(self)@);
                }
                return Err(Error::InvalidSenderChannel(recipient_channel));
            },
        };
        match self.arena.remove(&ing.arena_slot) {
            Some(mut d) => {
                let res = crate::pending::record_response(
                    &mut ing.pending_requests,
                    &mut d.outstanding_requests,
                    success,
                );
                match res {
                    Ok(comp) => {
                        if let Some(x) = comp {
                            d.completions.push(x);
                        }
                        self.arena.insert(ing.arena_slot, d);
                        self.registry.insert(recipient_channel, ing);
                        proof {
                            let s = spec_handle_request_response(
                                old(self)@,
                                recipient_channel,
                                success,
                            );
                            assert(self@ =~~= s.1);
                        }
                        Ok(())
                    },
                    Err(e) => {
                        self.arena.insert(ing.arena_slot, d);
                        self.registry.insert(recipient_channel, ing);
                        proof {
                            let s = spec_handle_request_response(
                                old(self)@,
                                recipient_channel,
                                success,
                            );
                            assert(self@ =~~= s.1);
                        }
                        Err(e)
                    },
                }
            },
            None => {
                let mut zero: usize = 0;
                let res = crate::pending::record_response(
                    &mut ing.pending_requests,
                    &mut zero,
                    success,
                );
                self.registry.insert(recipient_channel, ing);
                proof {
                    let s = spec_handle_request_response(old(self)@, recipient_channel, success);
                    assert(self@ =~~= s.1);
                }
                match res {
                    Ok(_) => Ok(()),
                    Err(e) => Err(e),
                }
            },
        }
    }
}

/// What an open confirmation does: credit the descriptor's sender
/// window with the initial grant, settle its open outcome exactly once,
/// and register the ingoing state under the peer's sender id.  The
/// credit and the settlement stand even when the sender id then turns
/// out to be a duplicate; the existing entry is left untouched.
pub open spec fn spec_open_confirmation(
    c: ConnectionView,
    rc: u32,
    sender_channel: u32,
    init_win_size: u32,
    max_packet_size: u32,
) -> (Result<(), Error>, ConnectionView) {
    if !c.arena.contains_key(rc) {
        (Err(Error::UnknownRecipientChannel(rc)), c)
    } else {
        let d = c.arena[rc];
        let d1 = ChannelDataView {
            sender_window_size: crate::window::spec_credit(d.sender_window_size, init_win_size),
            ..d
        };
        match crate::channel::spec_set_open_res(
            d1.state,
            rc,
            crate::channel::OpenChannelRes::Confirmed { max_packet_size },
        ) {
            Err(e) => (Err(e), ConnectionView { arena: c.arena.insert(rc, d1), ..c }),
            Ok((st2, inner)) => {
                let d2 = ChannelDataView { state: st2, ..d1 };
                let c2 = ConnectionView { arena: c.arena.insert(rc, d2), ..c };
                if c.registry.contains_key(sender_channel) {
                    (Err(Error::DuplicateSenderChannel(sender_channel)), c2)
                } else {
                    (
                        Ok(()),
                        ConnectionView {
                            registry: c2.registry.insert(
                                sender_channel,
                                ChannelIngoingData {
                                    arena_slot: rc,
                                    receiver_win_size: inner.init_receiver_win_size,
                                    extend_window_size: inner.extend_window_size,
                                    pending_requests: crate::pending::spec_idle_tracker(),
                                },
                            ),
                            ..c2
                        },
                    )
                }
            },
        }
    }
}

/// What an open failure does: settle the descriptor to `Failed` exactly
/// once, creating no registry entry.  Not fatal to the connection.
pub open spec fn spec_open_failure(c: ConnectionView, rc: u32, reason: u32) -> (
    Result<(), Error>,
    ConnectionView,
) {
    if !c.arena.contains_key(rc) {
        (Err(Error::UnknownRecipientChannel(rc)), c)
    } else {
        let d = c.arena[rc];
        match crate::channel::spec_set_open_res(
            d.state,
            rc,
            crate::channel::OpenChannelRes::Failed { reason },
        ) {
            Err(e) => (Err(e), c),
            Ok((st2, inner)) => (
                Ok(()),
                ConnectionView {
                    arena: c.arena.insert(rc, ChannelDataView { state: st2, ..d }),
                    ..c
                },
            ),
        }
    }
}

/// What a `BytesAdjust` frame does: credit the addressed channel's
/// sender window, saturating instead of wrapping.
pub open spec fn spec_bytes_adjust(c: ConnectionView, rc: u32, bytes_to_add: u32) -> (
    Result<(), Error>,
    ConnectionView,
) {
    if !c.registry.contains_key(rc) {
        (Err(Error::InvalidSenderChannel(rc)), c)
    } else {
        let slot = c.registry[rc].arena_slot;
        if c.arena.contains_key(slot) {
            let d = c.arena[slot];
            (
                Ok(()),
                ConnectionView {
                    arena: c.arena.insert(
                        slot,
                        ChannelDataView {
                            sender_window_size: crate::window::spec_credit(
                                d.sender_window_size,
                                bytes_to_add,
                            ),
                            ..d
                        },
                    ),
                    ..c
                },
            )
        } else {
            (Ok(()), c)
        }
    }
}

/// What an `Eof` frame does: mark both sinks end-of-stream, leaving the
/// channel registered until `Close`.
pub open spec fn spec_eof(c: ConnectionView, rc: u32) -> (Result<(), Error>, ConnectionView) {
    if !c.registry.contains_key(rc) {
        (Err(Error::InvalidSenderChannel(rc)), c)
    } else {
        let slot = c.registry[rc].arena_slot;
        if c.arena.contains_key(slot) {
            (
                Ok(()),
                ConnectionView {
                    arena: c.arena.insert(
                        slot,
                        crate::channel::spec_mark_eof_data(c.arena[slot]),
                    ),
                    ..c
                },
            )
        } else {
            (Ok(()), c)
        }
    }
}

/// What a `Close` frame does: remove the registry entry and mark both
/// sinks end-of-stream, covering the case where no `Eof` came first.
pub open spec fn spec_close(c: ConnectionView, rc: u32) -> (Result<(), Error>, ConnectionView) {
    if !c.registry.contains_key(rc) {
        (Err(Error::InvalidSenderChannel(rc)), c)
    } else {
        let slot = c.registry[rc].arena_slot;
        let arena1 = if c.arena.contains_key(slot) {
            c.arena.insert(slot, crate::channel::spec_mark_eof_data(c.arena[slot]))
        } else {
            c.arena
        };
        (Ok(()), ConnectionView { registry: c.registry.remove(rc), arena: arena1, ..c })
    }
}

/// The whole dispatch transition: what one decoded channel-scoped frame
/// does to the connection, and the outcome it reports.  Any error but a
/// per-channel open failure is fatal to the connection.
pub open spec fn spec_step(c: ConnectionView, f: crate::codec::ChannelFrameView) -> (
    Result<(), Error>,
    ConnectionView,
) {
    let rc = f.recipient_channel;
    match f.response {
        crate::codec::ChannelResponseView::OpenConfirmation {
            sender_channel,
            init_win_size,
            max_packet_size,
        } => spec_open_confirmation(c, rc, sender_channel, init_win_size, max_packet_size),
        crate::codec::ChannelResponseView::OpenFailure { reason } => spec_open_failure(
            c,
            rc,
            reason,
        ),
        crate::codec::ChannelResponseView::BytesAdjust { bytes_to_add } => spec_bytes_adjust(
            c,
            rc,
            bytes_to_add,
        ),
        crate::codec::ChannelResponseView::Data { bytes } => spec_handle_data(c, rc, bytes, true),
        crate::codec::ChannelResponseView::ExtendedData { data_type: _, data } => spec_handle_data(
            c,
            rc,
            data,
            false,
        ),
        crate::codec::ChannelResponseView::Eof => spec_eof(c, rc),
        crate::codec::ChannelResponseView::Close => spec_close(c, rc),
        crate::codec::ChannelResponseView::RequestSuccess => spec_handle_request_response(
            c,
            rc,
            true,
        ),
        crate::codec::ChannelResponseView::RequestFailure => spec_handle_request_response(
            c,
            rc,
            false,
        ),
    }
}

impl Connection {
    /// One iteration of the dispatch loop after decoding: routes a fully
    /// decoded channel-scoped frame, exactly as [`spec_step`] states.
    pub fn handle_frame(&mut self, frame: crate::codec::ChannelFrame) -> (r: Result<(), Error>)
        requires
            wf_connection(old(self)@),
        ensures
            ({
                let s = spec_step(old(self)@, frame@);
                r == s.0 && final(self)@ == s.1
            }),
            wf_connection(final(self)@),
    {
        let recipient_channel = frame.recipient_channel;
        match frame.response {
            crate::codec::ChannelResponse::OpenConfirmation {
                sender_channel,
                init_win_size,
                max_packet_size,
            } => {
                let mut d = match self.arena.remove(&recipient_channel) {
                    Some(d) => d,
                    None => {
                        proof {
                            assert(self@ =~~= old(self)@);
                        }
                        return Err(Error::UnknownRecipientChannel(recipient_channel));
                    },
                };
                crate::window::apply_sender_credit(&mut d.sender_window_size, init_win_size);
                let res = crate::channel::set_channel_open_res(
                    &mut d.state,
                    recipient_channel,
                    crate::channel::OpenChannelRes::Confirmed { max_packet_size },
                );
                self.arena.insert(recipient_channel, d);
                let inner = match res {
                    Ok(inner) => inner,
                    Err(e) => {
                        proof {
                            let s = spec_step(old(self)@, frame@);
                            assert(self@ =~~= s.1);
                        }
                        return Err(e);
                    },
                };
                if self.registry.contains_key(&sender_channel) {
                    proof {
                        let s = spec_step(old(self)@, frame@);
                        assert(self@ =~~= s.1);
                    }
                    return Err(Error::DuplicateSenderChannel(sender_channel));
                }
                let ingoing = ChannelIngoingData {
                    arena_slot: recipient_channel,
                    receiver_win_size: inner.init_receiver_win_size,
                    extend_window_size: inner.extend_window_size,
                    pending_requests: PendingRequests { pending: None, has_failed: false },
                };
                self.registry.insert(sender_channel, ingoing);
                proof {
                    let s = spec_step(old(self)@, frame@);
                    assert(self@ =~~= s.1);
                }
                Ok(())
            },
            crate::codec::ChannelResponse::OpenFailure { reason } => {
                let mut d = match self.arena.remove(&recipient_channel) {
                    Some(d) => d,
                    None => {
                        proof {
                            assert(self@ =~~= old(self)@);
                        }
                        return Err(Error::UnknownRecipientChannel(recipient_channel));
                    },
                };
                let res = crate::channel::set_channel_open_res(
                    &mut d.state,
                    recipient_channel,
                    crate::channel::OpenChannelRes::Failed { reason },
                );
                self.arena.insert(recipient_channel, d);
                proof {
                    let s = spec_step(old(self)@, frame@);
                    assert(self@ =~~= s.1);
                }
                match res {
                    Ok(_) => Ok(()),
                    Err(e) => Err(e),
                }
            },
            crate::codec::ChannelResponse::BytesAdjust { bytes_to_add } => {
                let ing = match get_ingoing_data(&self.registry, recipient_channel) {
                    Ok(d) => d,
                    Err(e) => {
                        proof {
                            assert(self@ =~~= old(self)@);
                        }
                        return Err(e);
                    },
                };
                match self.arena.remove(&ing.arena_slot) {
                    Some(mut d) => {
                        crate::window::apply_sender_credit(&mut d.sender_window_size, bytes_to_add);
                        self.arena.insert(ing.arena_slot, d);
                    },
                    None => {},
                }
                proof {
                    let s = spec_step(old(self)@, frame@);
                    assert(self@ =~~= s.1);
                }
                Ok(())
            },
            crate::codec::ChannelResponse::Data { bytes } => self.handle_incoming_data(
                recipient_channel,
                bytes,
                true,
            ),
            crate::codec::ChannelResponse::ExtendedData { data_type, data } => {
                match data_type {
                    crate::codec::ExtendedDataType::Stderr => self.handle_incoming_data(
                        recipient_channel,
                        data,
                        false,
                    ),
                }
            },
            crate::codec::ChannelResponse::Eof => {
                let ing = match get_ingoing_data(&self.registry, recipient_channel) {
                    Ok(d) => d,
                    Err(e) => {
                        proof {
                            assert(self@ =~~= old(self)@);
                        }
                        return Err(e);
                    },
                };
                match self.arena.remove(&ing.arena_slot) {
                    Some(mut d) => {
                        crate::channel::mark_eof(&mut d);
                        self.arena.insert(ing.arena_slot, d);
                    },
                    None => {},
                }
                proof {
                    let s = spec_step(old(self)@, frame@);
                    assert(self@ =~~= s.1);
                }
                Ok(())
            },
            crate::codec::ChannelResponse::Close => {
                let ing = match self.registry.remove(&recipient_channel) {
                    Some(d) => d,
                    None => {
                        proof {
                            assert(self@ =~~= old(self)@);
                        }
                        return Err(Error::InvalidSenderChannel(recipient_channel));
                    },
                };
                match self.arena.remove(&ing.arena_slot) {
                    Some(mut d) => {
                        crate::channel::mark_eof(&mut d);
                        self.arena.insert(ing.arena_slot, d);
                    },
                    None => {},
                }
                proof {
                    let s = spec_step(old(self)@, frame@);
                    assert(self@ =~~= s.1);
                }
                Ok(())
            },
            crate::codec::ChannelResponse::RequestSuccess => self.handle_request_response(
                recipient_channel,
                true,
            ),
            crate::codec::ChannelResponse::RequestFailure => self.handle_request_response(
                recipient_channel,
                false,
            ),
        }
    }
}

/// An open confirmation naming an already-registered sender id fails
/// with a duplicate-channel error and leaves the existing registry
/// entry, and the whole registry, untouched; only the descriptor's
/// credit and settlement have happened.
pub proof fn lemma_duplicate_open_preserves_registry(
    c: ConnectionView,
    rc: u32,
    sender_channel: u32,
    init_win_size: u32,
    max_packet_size: u32,
)
    requires
        c.arena.contains_key(rc),
        c.arena[rc].state is Opening,
        c.registry.contains_key(sender_channel),
    ensures
        ({
            let s = spec_open_confirmation(c, rc, sender_channel, init_win_size, max_packet_size);
            s.0 == Err::<(), Error>(Error::DuplicateSenderChannel(sender_channel)) && s.1.registry
                == c.registry
        }),
{
}

/// A channel-addressed frame for a sender id with no registry entry
/// fails with an invalid-channel error and performs no state mutation.
pub proof fn lemma_unregistered_frame_mutates_nothing(
    c: ConnectionView,
    f: crate::codec::ChannelFrameView,
)
    requires
        !c.registry.contains_key(f.recipient_channel),
        !(f.response is OpenConfirmation),
        !(f.response is OpenFailure),
    ensures
        ({
            let s = spec_step(c, f);
            s.0 == Err::<(), Error>(Error::InvalidSenderChannel(f.recipient_channel)) && s.1 == c
        }),
{
}

/// Close idempotence: an `Eof` followed by a `Close` marks the sinks
/// end-of-stream exactly once and removes the registry entry, leaving
/// precisely the state a `Close` alone leaves.
pub proof fn lemma_eof_then_close_is_close(c: ConnectionView, rc: u32)
    requires
        c.registry.contains_key(rc),
    ensures
        ({
            let after_eof = spec_eof(c, rc);
            let both = spec_close(after_eof.1, rc);
            after_eof.0 == Ok::<(), Error>(()) && both.0 == Ok::<(), Error>(()) && both.1
                == spec_close(c, rc).1
        }),
{
    let slot = c.registry[rc].arena_slot;
    let c1 = spec_eof(c, rc).1;
    if c.arena.contains_key(slot) {
        crate::channel::lemma_mark_eof_data_idempotent(c.arena[slot]);
        assert(spec_close(c1, rc).1 =~~= spec_close(c, rc).1);
    } else {
        assert(spec_close(c1, rc).1 =~~= spec_close(c, rc).1);
    }
}

/// Looks a channel up by the sender id an incoming frame addressed; a
/// miss is the protocol violation that aborts the connection.
pub fn get_ingoing_data(registry: &HashMap<u32, ChannelIngoingData>, channel_id: u32) -> (r: Result<
    ChannelIngoingData,
    Error,
>)
    ensures
        match r {
            Ok(d) => registry@.contains_key(channel_id) && d == registry@[channel_id],
            Err(e) => !registry@.contains_key(channel_id) && e == Error::InvalidSenderChannel(
                channel_id,
            ),
        },
{
    match registry.get(&channel_id) {
        Some(d) => Ok(*d),
        None => Err(Error::InvalidSenderChannel(channel_id)),
    }
}

} // verus!
