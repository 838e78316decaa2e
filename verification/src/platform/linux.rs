//! `ip` commands that configure and remove the interface on Linux.

use super::{command_is, planned, PlannedCommand};
use crate::ip::{format_ipv4, ipv4_text};
use crate::text::{concat2, owned};
use crate::tun::TunConfig;
use vstd::prelude::*;

verus! {

/// `ip addr replace <ip>/32 dev <if>`, `ip link set <if> up`,
/// `ip route replace <cidr> dev <if>`.
pub fn plan_ip_commands(config: &TunConfig) -> (out: Vec<PlannedCommand>)
    ensures
        out@.len() == 3,
        command_is(
            out@[0],
            "ip"@,
            seq![
                "addr"@,
                "replace"@,
                ipv4_text(config.overlay_ip.0@) + "/32"@,
                "dev"@,
                config.interface_name@,
            ],
        ),
        command_is(out@[1], "ip"@, seq!["link"@, "set"@, config.interface_name@, "up"@]),
        command_is(
            out@[2],
            "ip"@,
            seq!["route"@, "replace"@, config.overlay_cidr@, "dev"@, config.interface_name@],
        ),
{
    let address = format_ipv4(config.overlay_ip);
    let first = planned(
        "ip",
        vec![
            owned("addr"),
            owned("replace"),
            concat2(address.as_str(), "/32"),
            owned("dev"),
            config.interface_name.clone(),
        ],
    );
    let second = planned(
        "ip",
        vec![owned("link"), owned("set"), config.interface_name.clone(), owned("up")],
    );
    let third = planned(
        "ip",
        vec![
            owned("route"),
            owned("replace"),
            config.overlay_cidr.clone(),
            owned("dev"),
            config.interface_name.clone(),
        ],
    );
    let out = vec![first, second, third];
    proof {
        assert(command_is(
            out@[0],
            "ip"@,
            seq![
                "addr"@,
                "replace"@,
                ipv4_text(config.overlay_ip.0@) + "/32"@,
                "dev"@,
                config.interface_name@,
            ],
        ));
        assert(command_is(out@[1], "ip"@, seq!["link"@, "set"@, config.interface_name@, "up"@]));
        assert(command_is(
            out@[2],
            "ip"@,
            seq!["route"@, "replace"@, config.overlay_cidr@, "dev"@, config.interface_name@],
        ));
    }
    out
}

/// `ip route del <cidr> dev <if>`, `ip link del <if>`.
pub fn plan_cleanup_commands(config: &TunConfig) -> (out: Vec<PlannedCommand>)
    ensures
        out@.len() == 2,
        command_is(
            out@[0],
            "ip"@,
            seq!["route"@, "del"@, config.overlay_cidr@, "dev"@, config.interface_name@],
        ),
        command_is(out@[1], "ip"@, seq!["link"@, "del"@, config.interface_name@]),
{
    let first = planned(
        "ip",
        vec![
            owned("route"),
            owned("del"),
            config.overlay_cidr.clone(),
            owned("dev"),
            config.interface_name.clone(),
        ],
    );
    let second = planned("ip", vec![owned("link"), owned("del"), config.interface_name.clone()]);
    let out = vec![first, second];
    proof {
        assert(command_is(
            out@[0],
            "ip"@,
            seq!["route"@, "del"@, config.overlay_cidr@, "dev"@, config.interface_name@],
        ));
        assert(command_is(out@[1], "ip"@, seq!["link"@, "del"@, config.interface_name@]));
    }
    out
}

} // verus!
