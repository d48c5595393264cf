//! The command line as plain values: `start` with its connection and output
//! settings, or `man`.
use std::path::PathBuf;
use vstd::prelude::*;

verus! {

pub enum Cli {
    Start {
        config_file: Option<PathBuf>,
        /// nDPIsrvd host
        host: String,
        /// nDPIsrvd TCP port
        port: String,
        /// where to write log files
        write: Option<PathBuf>,
        daemon_events: bool,
        packet_events: bool,
        error_events: bool,
        flow_events: bool,
    },
    Man,
}

/// The `host:port` address to connect to.
pub fn connection_address(host: &String, port: &String) -> (r: String)
    ensures
        r@ == host@ + ":"@ + port@,
{
    let mut address = host.clone();
    address.append(":");
    address.append(port.as_str());
    address
}

} // verus!
