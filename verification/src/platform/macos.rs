//! `ifconfig` and `route` commands that configure and remove the utun
//! interface on macOS, addressed by the name the kernel actually assigned.

use super::{command_is, planned, PlannedCommand};
use crate::ip::{format_ipv4, ipv4_text};
use crate::text::{has_prefix, owned, strip_prefix};
use crate::tun::TunConfig;
use vstd::prelude::*;

verus! {

/// The interface name to ask the kernel for: only an explicit `utun...` name.
pub fn requested_utun_name(config: &TunConfig) -> (out: Option<&str>)
    ensures
        has_prefix(config.interface_name@, "utun"@) ==> (out matches Some(n) && n@
            == config.interface_name@),
        !has_prefix(config.interface_name@, "utun"@) ==> out is None,
{
    match strip_prefix(config.interface_name.as_str(), "utun") {
        Some(_) => Some(config.interface_name.as_str()),
        None => None,
    }
}

/// `ifconfig <if> inet <ip> <ip> netmask 255.255.255.255 up`.
pub fn plan_ifconfig_commands(config: &TunConfig, interface_name: &str) -> (out: Vec<PlannedCommand>)
    ensures
        out@.len() == 1,
        command_is(
            out@[0],
            "ifconfig"@,
            seq![
                interface_name@,
                "inet"@,
                ipv4_text(config.overlay_ip.0@),
                ipv4_text(config.overlay_ip.0@),
                "netmask"@,
                "255.255.255.255"@,
                "up"@,
            ],
        ),
{
    let out = vec![
        planned(
            "ifconfig",
            vec![
                owned(interface_name),
                owned("inet"),
                format_ipv4(config.overlay_ip),
                format_ipv4(config.overlay_ip),
                owned("netmask"),
                owned("255.255.255.255"),
                owned("up"),
            ],
        ),
    ];
    proof {
        assert(command_is(
            out@[0],
            "ifconfig"@,
            seq![
                interface_name@,
                "inet"@,
                ipv4_text(config.overlay_ip.0@),
                ipv4_text(config.overlay_ip.0@),
                "netmask"@,
                "255.255.255.255"@,
                "up"@,
            ],
        ));
    }
    out
}

/// `route -n add -net <cidr> -interface <if>`.
pub fn plan_route_commands(config: &TunConfig, interface_name: &str) -> (out: Vec<PlannedCommand>)
    ensures
        out@.len() == 1,
        command_is(
            out@[0],
            "route"@,
            seq!["-n"@, "add"@, "-net"@, config.overlay_cidr@, "-interface"@, interface_name@],
        ),
{
    let out = vec![
        planned(
            "route",
            vec![
                owned("-n"),
                owned("add"),
                owned("-net"),
                config.overlay_cidr.clone(),
                owned("-interface"),
                owned(interface_name),
            ],
        ),
    ];
    proof {
        assert(command_is(
            out@[0],
            "route"@,
            seq!["-n"@, "add"@, "-net"@, config.overlay_cidr@, "-interface"@, interface_name@],
        ));
    }
    out
}

/// `route -n delete -net <cidr> -interface <if>`, `ifconfig <if> down`.
pub fn plan_cleanup_commands(config: &TunConfig, interface_name: &str) -> (out: Vec<PlannedCommand>)
    ensures
        out@.len() == 2,
        command_is(
            out@[0],
            "route"@,
            seq!["-n"@, "delete"@, "-net"@, config.overlay_cidr@, "-interface"@, interface_name@],
        ),
        command_is(out@[1], "ifconfig"@, seq![interface_name@, "down"@]),
{
    let out = vec![
        planned(
            "route",
            vec![
                owned("-n"),
                owned("delete"),
                owned("-net"),
                config.overlay_cidr.clone(),
                owned("-interface"),
                owned(interface_name),
            ],
        ),
        planned("ifconfig", vec![owned(interface_name), owned("down")]),
    ];
    proof {
        assert(command_is(
            out@[0],
            "route"@,
            seq!["-n"@, "delete"@, "-net"@, config.overlay_cidr@, "-interface"@, interface_name@],
        ));
        assert(command_is(out@[1], "ifconfig"@, seq![interface_name@, "down"@]));
    }
    out
}

} // verus!
