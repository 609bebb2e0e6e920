//! Per-peer clock filtering, sample scoring and interval selection for an
//! NTPv4 client (RFC 5905, sections 10 and 11, appendix A.5).

pub mod filter;
pub mod packet;
pub mod peer;
pub mod select;
pub mod time;

pub use filter::{FilterTuple, LastMeasurements, TemporaryList};
pub use peer::{Decision, Peer, PeerStatistics};
pub use packet::{NtpAssociationMode, NtpHeader, NtpLeapIndicator, ReferenceId};
pub use time::{NtpDuration, NtpTimestamp};
