use vstd::prelude::*;

verus! {

/// Everything that can go wrong inside the multiplexing core.
///
/// Every kind is fatal to the connection except a per-channel open
/// failure, which only settles that channel's descriptor.
#[derive(Clone, Copy, Debug, PartialEq, Eq)]
pub enum Error {
    /// A frame shorter than its fixed header or than its declared lengths.
    MalformedFrame,
    /// A frame whose leading numeric tag this protocol does not define.
    UnknownPacketType(u32),
    /// An extended-data frame whose stream code is not recognised.
    UnknownExtendedDataType(u32),
    /// A connection-scoped payload whose leading tag is not recognised.
    UnexpectedPacketType(u32),
    /// A connection-scoped response arrived where only channel-scoped
    /// frames are served.
    UnexpectedChannelState,
    /// A channel-scoped frame addressed a sender id with no registry entry.
    InvalidSenderChannel(u32),
    /// An open confirmation named a sender id that is already registered.
    DuplicateSenderChannel(u32),
    /// An open confirmation or open failure named a recipient id with no
    /// descriptor in the arena.
    UnknownRecipientChannel(u32),
    /// A second attempt to settle a channel's open outcome.
    ChannelAlreadyResolved(u32),
    /// A request response arrived while no request was outstanding.
    UnexpectedRequestResponse,
    /// A reason string on the wire was not valid UTF-8.
    InvalidReasonString,
}

} // verus!
