//! Counters the receive pipeline shares with the telemetry service.
use std::sync::Arc;
use std::sync::atomic::{AtomicBool, AtomicU64};
use vstd::prelude::*;

verus! {

/// Live counters shared between the media pipeline and the telemetry
/// service: whether decoding is active, how many RTP packets arrived, and
/// the fixed facts a sample reports beside them.
pub struct SharedStats {
    /// Decode pipeline active (vs idle daemon).
    pub active: AtomicBool,
    /// Cumulative RTP packets seen at the network source.
    pub packets: AtomicU64,
    listen_port: u16,
    ncpu: u32,
}

impl SharedStats {
    /// The UDP port the media arrives on.
    pub closed spec fn port_of(&self) -> u16 {
        self.listen_port
    }

    /// Logical CPUs of this host.
    pub closed spec fn cpus_of(&self) -> u32 {
        self.ncpu
    }

    /// Fresh counters for a receiver listening on `listen_port` of a host
    /// with `ncpu` logical CPUs (the caller supplies the count, 1 when the
    /// platform cannot tell).
    pub fn new(listen_port: u16, ncpu: u32) -> (r: Arc<Self>)
        ensures
            r.port_of() == listen_port,
            r.cpus_of() == ncpu,
    {
        Arc::new(SharedStats { active: AtomicBool::new(false), packets: AtomicU64::new(0), listen_port, ncpu })
    }

    /// The UDP port the media arrives on.
    pub fn listen_port(&self) -> (r: u16)
        ensures
            r == self.port_of(),
    {
        self.listen_port
    }

    /// Logical CPUs of this host.
    pub fn ncpu(&self) -> (r: u32)
        ensures
            r == self.cpus_of(),
    {
        self.ncpu
    }
}

} // verus!
