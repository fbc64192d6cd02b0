//! Client-side engine for a multiplexed remote-session transport.
//!
//! A single byte stream carries many logical channels, each with its own
//! flow-control windows, payload sinks and request/response bookkeeping.
//! This crate holds the verified core: the frame codec, the window
//! controller, the pending-request tracker, and the channel registry the
//! dispatch loop drives.  I/O stays outside: a caller reads bytes, hands
//! whole frames to [`dispatch::Connection::handle_frame`], and writes
//! out what [`dispatch::Connection::take_outbound`] returns.

pub mod channel;
pub mod codec;
pub mod dispatch;
mod error;
pub mod pending;
pub mod queue;
pub mod response;
pub mod window;

pub use error::Error;
pub use response::Response;
pub use response::ResponseVisitor;
