//! Sinks: one append-only log per event category. The library decides which
//! sink a record goes to; writing the file is left to the caller.
use crate::router::HeiDPIEventType;
use std::path::PathBuf;
use vstd::prelude::*;

verus! {

#[verifier::external_type_specification]
#[verifier::external_body]
pub struct ExPathBuf(std::path::PathBuf);

/// An append-only log of one category, written at `filepath`.
pub struct Logging {
    pub log_type: String,
    pub filepath: PathBuf,
}

impl Logging {
    pub fn new(log_type: String, filepath: PathBuf) -> (r: Logging)
        ensures
            r.log_type == log_type,
            r.filepath == filepath,
    {
        Logging { log_type, filepath }
    }

    pub fn filepath(&self) -> (r: &PathBuf)
        ensures
            *r == self.filepath,
    {
        &self.filepath
    }

    pub fn log_type(&self) -> (r: &String)
        ensures
            *r == self.log_type,
    {
        &self.log_type
    }
}

/// The four category sinks.
pub struct Sinks {
    pub flow: Logging,
    pub daemon: Logging,
    pub packet: Logging,
    pub error: Logging,
}

pub open spec fn sink_for(sinks: Sinks, t: HeiDPIEventType) -> Logging {
    match t {
        HeiDPIEventType::FLOW => sinks.flow,
        HeiDPIEventType::DAEMON => sinks.daemon,
        HeiDPIEventType::PACKET => sinks.packet,
        HeiDPIEventType::ERROR => sinks.error,
    }
}

impl Sinks {
    pub fn new(flow: Logging, daemon: Logging, packet: Logging, error: Logging) -> (r: Sinks)
        ensures
            r.flow == flow,
            r.daemon == daemon,
            r.packet == packet,
            r.error == error,
    {
        Sinks { flow, daemon, packet, error }
    }

    /// The sink of a category.
    pub fn select(&self, t: HeiDPIEventType) -> (r: &Logging)
        ensures
            *r == sink_for(*self, t),
    {
        match t {
            HeiDPIEventType::FLOW => &self.flow,
            HeiDPIEventType::DAEMON => &self.daemon,
            HeiDPIEventType::PACKET => &self.packet,
            HeiDPIEventType::ERROR => &self.error,
        }
    }
}

} // verus!
