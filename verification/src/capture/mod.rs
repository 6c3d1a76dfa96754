//! Turning captured frames into traffic records.

pub mod counters;
pub mod interfaces;
pub mod parser;
pub mod source;

use vstd::prelude::*;

use crate::net::{Direction, IpAddr, LocalSocket};

verus! {

/// One packet's worth of traffic, seen from the local host.
#[derive(Debug)]
pub struct Flow {
    pub direction: Direction,
    /// The remote address.
    pub peer: IpAddr,
    /// The remote port; absent for traffic other than TCP and UDP.
    pub peer_port: Option<u16>,
    pub bytes: u64,
    /// The local socket of TCP and UDP traffic.
    pub local_socket: Option<LocalSocket>,
    /// The second local socket, where source and destination are both local.
    pub peer_local_socket: Option<LocalSocket>,
    /// The host name the connection was opened for, once known.
    pub domain: Option<String>,
}

} // verus!
