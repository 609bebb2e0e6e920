use crate::time::{NtpDuration, NtpTimestamp};
use vstd::prelude::*;

verus! {

/// Leap indicator of an NTP header.
#[derive(Clone, Copy, Debug, PartialEq, Eq, Structural)]
pub enum NtpLeapIndicator {
    NoWarning,
    Positive,
    Negative,
    Unsynchronized,
}

impl NtpLeapIndicator {
    pub open spec fn synchronized(self) -> bool {
        !(self is Unsynchronized)
    }

    pub fn is_synchronized(self) -> (r: bool)
        ensures
            r == self.synchronized(),
    {
        match self {
            NtpLeapIndicator::Unsynchronized => false,
            _ => true,
        }
    }
}

/// Association mode of an NTP header.
#[derive(Clone, Copy, Debug, PartialEq, Eq, Structural)]
pub enum NtpAssociationMode {
    Reserved,
    SymmetricActive,
    SymmetricPassive,
    Client,
    Server,
    Broadcast,
    Control,
    Private,
}

/// A 32-bit reference identifier.
#[derive(Clone, Copy, Debug, PartialEq, Eq, Structural)]
pub struct ReferenceId {
    pub id: u32,
}

impl ReferenceId {
    pub fn from_int(id: u32) -> (r: ReferenceId)
        ensures
            r.id == id,
    {
        ReferenceId { id }
    }
}

/// The fields of a decoded NTP header that the filter reads.
#[derive(Clone, Copy, Debug, PartialEq, Eq, Structural)]
pub struct NtpHeader {
    pub leap: NtpLeapIndicator,
    pub mode: NtpAssociationMode,
    pub stratum: u8,
    pub poll: i8,
    pub precision: i8,
    pub root_delay: NtpDuration,
    pub root_dispersion: NtpDuration,
    pub reference_id: ReferenceId,
    pub reference_timestamp: NtpTimestamp,
    pub origin_timestamp: NtpTimestamp,
    pub receive_timestamp: NtpTimestamp,
    pub transmit_timestamp: NtpTimestamp,
}

impl NtpHeader {
    /// A header with every field zero, an unspecified stratum and no warning.
    pub fn new() -> (r: NtpHeader)
        ensures
            r.leap == NtpLeapIndicator::NoWarning,
            r.mode == NtpAssociationMode::Client,
            r.stratum == 0,
            r.poll == 0,
            r.precision == 0,
            r.root_delay.ticks() == 0,
            r.root_dispersion.ticks() == 0,
            r.reference_id.id == 0,
            r.reference_timestamp.timestamp == 0,
            r.origin_timestamp.timestamp == 0,
            r.receive_timestamp.timestamp == 0,
            r.transmit_timestamp.timestamp == 0,
    {
        NtpHeader {
            leap: NtpLeapIndicator::NoWarning,
            mode: NtpAssociationMode::Client,
            stratum: 0,
            poll: 0,
            precision: 0,
            root_delay: NtpDuration::zero(),
            root_dispersion: NtpDuration::zero(),
            reference_id: ReferenceId { id: 0 },
            reference_timestamp: NtpTimestamp::zero(),
            origin_timestamp: NtpTimestamp::zero(),
            receive_timestamp: NtpTimestamp::zero(),
            transmit_timestamp: NtpTimestamp::zero(),
        }
    }
}

} // verus!
