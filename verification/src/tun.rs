//! TUN interface configuration and status values.

use crate::ip::Ipv4Address;
use crate::net::LocalBackendConfig;
use crate::text::owned;
use vstd::prelude::*;

verus! {

pub const OVERLAY_CIDR: &'static str = "100.64.0.0/10";

/// What the platform layer needs to bring a TUN interface up.
#[derive(Clone, Debug, PartialEq, Eq)]
pub struct TunConfig {
    pub interface_name: String,
    pub overlay_ip: Ipv4Address,
    pub listen_port: u16,
    pub overlay_cidr: String,
}

impl TunConfig {
    /// The TUN settings of a local backend configuration, on the overlay CIDR.
    pub fn from_local_config(config: &LocalBackendConfig) -> (out: Self)
        ensures
            out.interface_name@ == config.interface_name@,
            out.overlay_ip == config.overlay_ip,
            out.listen_port == config.listen_port,
            out.overlay_cidr@ == OVERLAY_CIDR@,
    {
        TunConfig {
            interface_name: config.interface_name.clone(),
            overlay_ip: config.overlay_ip,
            listen_port: config.listen_port,
            overlay_cidr: owned(OVERLAY_CIDR),
        }
    }
}

/// The state of the TUN interface as the backend reports it.
#[derive(Clone, Debug, PartialEq, Eq)]
pub struct TunStatus {
    pub configured: bool,
    pub interface_name: String,
    pub io_ready: bool,
    pub message: Option<String>,
}

impl TunStatus {
    /// A configured interface, ready for packet I/O.
    pub fn configured(interface_name: &str) -> (out: Self)
        ensures
            out.configured,
            out.io_ready,
            out.interface_name@ == interface_name@,
            out.message is None,
    {
        TunStatus {
            configured: true,
            interface_name: owned(interface_name),
            io_ready: true,
            message: None,
        }
    }

    /// An interface that could not be set up, with the reason.
    pub fn failed(interface_name: &str, message: &str) -> (out: Self)
        ensures
            !out.configured,
            !out.io_ready,
            out.interface_name@ == interface_name@,
            out.message matches Some(m) && m@ == message@,
    {
        TunStatus {
            configured: false,
            interface_name: owned(interface_name),
            io_ready: false,
            message: Some(owned(message)),
        }
    }
}

} // verus!
