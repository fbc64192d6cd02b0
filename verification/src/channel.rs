//! Per-channel state: the shared channel descriptor (visible to the
//! write path and to consumers) and the dispatch loop's own ingoing
//! bookkeeping.
//!
//! A channel is addressed by two independent 32-bit ids: the *recipient*
//! id the local side chose when requesting it (the arena slot of the
//! descriptor) and the *sender* id the remote side assigned on
//! confirmation (the key of the dispatch loop's registry).

use vstd::prelude::*;

use crate::error::Error;
use crate::pending::Completion;
use crate::pending::PendingRequests;
use crate::queue::BytesQueue;
use crate::queue::BytesQueueView;
use crate::queue::spec_mark_eof;

verus! {

/// The open outcome of a channel: settled exactly once.
#[derive(Clone, Copy, Debug, PartialEq, Eq)]
pub enum ChannelState {
    /// Awaiting the peer's answer; holds what the open request
    /// advertised: the initial receiver budget and the replenishment
    /// quantum.
    Opening { init_receiver_win_size: u32, extend_window_size: u32 },
    Confirmed { max_packet_size: u32 },
    Failed { reason: u32 },
}

/// The answer that settles a channel's open outcome.
#[derive(Clone, Copy, Debug, PartialEq, Eq)]
pub enum OpenChannelRes {
    Confirmed { max_packet_size: u32 },
    Failed { reason: u32 },
}

/// What the open request advertised, handed back when the channel is
/// confirmed.
#[derive(Clone, Copy, Debug, PartialEq, Eq)]
pub struct OpenChannelRequestedInner {
    pub init_receiver_win_size: u32,
    pub extend_window_size: u32,
}

/// The shared channel descriptor: the state both the write path and the
/// dispatch loop act on.
#[derive(Clone, Debug, PartialEq, Eq)]
pub struct ChannelData {
    pub state: ChannelState,
    /// Byte budget the peer has granted for outbound data.
    pub sender_window_size: u64,
    /// Live consumers still willing to receive payload.
    pub receivers_count: usize,
    /// Requests issued by the write path and not yet batched.
    pub outstanding_requests: usize,
    /// Batch completions reported so far, oldest first.
    pub completions: Vec<Completion>,
    /// Sink for ordinary payload, if a consumer attached one.
    pub rx: Option<BytesQueue>,
    /// Sink for extended (stderr) payload, if a consumer attached one.
    pub stderr: Option<BytesQueue>,
}

/// Mathematical model of a [`ChannelData`].
#[verifier::ext_equal]
pub struct ChannelDataView {
    pub state: ChannelState,
    pub sender_window_size: u64,
    pub receivers_count: usize,
    pub outstanding_requests: usize,
    pub completions: Seq<Completion>,
    pub rx: Option<BytesQueueView>,
    pub stderr: Option<BytesQueueView>,
}

impl View for ChannelData {
    type V = ChannelDataView;

    open spec fn view(&self) -> ChannelDataView {
        ChannelDataView {
            state: self.state,
            sender_window_size: self.sender_window_size,
            receivers_count: self.receivers_count,
            outstanding_requests: self.outstanding_requests,
            completions: self.completions@,
            rx: match self.rx {
                Some(q) => Some(q@),
                None => None,
            },
            stderr: match self.stderr {
                Some(q) => Some(q@),
                None => None,
            },
        }
    }
}

/// The dispatch loop's exclusive per-channel state, keyed by sender id.
#[derive(Clone, Copy, Debug, PartialEq, Eq)]
pub struct ChannelIngoingData {
    /// The recipient id: where this channel's descriptor sits in the
    /// arena.
    pub arena_slot: u32,
    /// Bytes the local side still accepts before it must advertise more
    /// window.
    pub receiver_win_size: u32,
    /// The replenishment quantum advertised at open time.
    pub extend_window_size: u32,
    /// Response bookkeeping of the current request batch.
    pub pending_requests: PendingRequests,
}

/// Settling a channel's open outcome, as a function of its prior state.
pub open spec fn spec_set_open_res(state: ChannelState, recipient_channel: u32, res: OpenChannelRes) -> Result<
    (ChannelState, OpenChannelRequestedInner),
    Error,
> {
    match state {
        ChannelState::Opening { init_receiver_win_size, extend_window_size } => {
            let next = match res {
                OpenChannelRes::Confirmed { max_packet_size } => ChannelState::Confirmed {
                    max_packet_size,
                },
                OpenChannelRes::Failed { reason } => ChannelState::Failed { reason },
            };
            Ok((next, OpenChannelRequestedInner { init_receiver_win_size, extend_window_size }))
        },
        _ => Err(Error::ChannelAlreadyResolved(recipient_channel)),
    }
}

/// Settles the channel's open outcome exactly once: a second attempt
/// fails and changes nothing.  On success hands back what the open
/// request advertised.
pub fn set_channel_open_res(state: &mut ChannelState, recipient_channel: u32, res: OpenChannelRes) -> (r: Result<
    OpenChannelRequestedInner,
    Error,
>)
    ensures
        match r {
            Ok(inner) => spec_set_open_res(*old(state), recipient_channel, res) == Ok::<_, Error>(
                (*final(state), inner),
            ),
            Err(e) => spec_set_open_res(*old(state), recipient_channel, res) == Err::<
                (ChannelState, OpenChannelRequestedInner),
                _,
            >(e) && *final(state) == *old(state),
        },
{
    match *state {
        ChannelState::Opening { init_receiver_win_size, extend_window_size } => {
            *state = match res {
                OpenChannelRes::Confirmed { max_packet_size } => ChannelState::Confirmed {
                    max_packet_size,
                },
                OpenChannelRes::Failed { reason } => ChannelState::Failed { reason },
            };
            Ok(OpenChannelRequestedInner { init_receiver_win_size, extend_window_size })
        },
        _ => Err(Error::ChannelAlreadyResolved(recipient_channel)),
    }
}

/// A descriptor's sinks after end-of-stream: each present sink marked,
/// everything else untouched.
pub open spec fn spec_mark_eof_data(d: ChannelDataView) -> ChannelDataView {
    ChannelDataView {
        rx: match d.rx {
            Some(q) => Some(spec_mark_eof(q)),
            None => None,
        },
        stderr: match d.stderr {
            Some(q) => Some(spec_mark_eof(q)),
            None => None,
        },
        ..d
    }
}

/// Marks both payload sinks end-of-stream.  Idempotent: a sink already
/// marked is left exactly as it is.
pub fn mark_eof(data: &mut ChannelData)
    ensures
        final(data)@ == spec_mark_eof_data(old(data)@),
{
    match &mut data.rx {
        Some(q) => q.mark_eof(),
        None => {},
    }
    match &mut data.stderr {
        Some(q) => q.mark_eof(),
        None => {},
    }
    proof {
        assert(data@ =~= spec_mark_eof_data(old(data)@));
    }
}

/// Marking a descriptor's sinks twice leaves exactly the state one mark
/// produces: an `Eof` frame followed by a `Close` marks each sink
/// end-of-stream once.
pub proof fn lemma_mark_eof_data_idempotent(d: ChannelDataView)
    ensures
        spec_mark_eof_data(spec_mark_eof_data(d)) == spec_mark_eof_data(d),
{
    assert(spec_mark_eof_data(spec_mark_eof_data(d)) =~= spec_mark_eof_data(d));
}

} // verus!
