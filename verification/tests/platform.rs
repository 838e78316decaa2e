use tfscale::ip::{IpAddress, Ipv4Address};
use tfscale::net::{Endpoint, EndpointKind, TransportProtocol};
use tfscale::platform::{command_failure, linux, macos, planned, PlannedCommand};
use tfscale::transport::{endpoint_socket_addr, select_udp_endpoint, sorted_udp_endpoints};
use tfscale::tun::TunConfig;

fn command(program: &str, args: &[&str]) -> PlannedCommand {
    planned(program, args.iter().map(|a| a.to_string()).collect())
}

fn test_config(interface_name: &str) -> TunConfig {
    TunConfig {
        interface_name: interface_name.to_string(),
        overlay_ip: Ipv4Address::new(100, 64, 0, 2),
        listen_port: 51820,
        overlay_cidr: "100.64.0.0/10".to_string(),
    }
}

#[test]
fn plans_linux_ip_commands() {
    let commands = linux::plan_ip_commands(&test_config("tfscale0"));

    assert_eq!(
        commands,
        vec![
            command("ip", &["addr", "replace", "100.64.0.2/32", "dev", "tfscale0"]),
            command("ip", &["link", "set", "tfscale0", "up"]),
            command("ip", &["route", "replace", "100.64.0.0/10", "dev", "tfscale0"]),
        ]
    );
}

#[test]
fn plans_linux_cleanup_commands() {
    let commands = linux::plan_cleanup_commands(&test_config("tfscale0"));

    assert_eq!(
        commands,
        vec![
            command("ip", &["route", "del", "100.64.0.0/10", "dev", "tfscale0"]),
            command("ip", &["link", "del", "tfscale0"]),
        ]
    );
}

#[test]
fn plans_macos_ifconfig_commands_with_actual_utun_name() {
    let commands = macos::plan_ifconfig_commands(&test_config("tfscale0"), "utun4");

    assert_eq!(
        commands,
        vec![command(
            "ifconfig",
            &["utun4", "inet", "100.64.0.2", "100.64.0.2", "netmask", "255.255.255.255", "up"],
        )]
    );
}

#[test]
fn plans_macos_route_commands_with_actual_utun_name() {
    let commands = macos::plan_route_commands(&test_config("tfscale0"), "utun4");

    assert_eq!(
        commands,
        vec![command("route", &["-n", "add", "-net", "100.64.0.0/10", "-interface", "utun4"])]
    );
}

#[test]
fn plans_macos_cleanup_commands_with_actual_utun_name() {
    let commands = macos::plan_cleanup_commands(&test_config("tfscale0"), "utun4");

    assert_eq!(
        commands,
        vec![
            command("route", &["-n", "delete", "-net", "100.64.0.0/10", "-interface", "utun4"]),
            command("ifconfig", &["utun4", "down"]),
        ]
    );
}

#[test]
fn only_explicit_utun_names_are_requested() {
    let logical_config = test_config("tfscale0");
    let explicit_config = test_config("utun12");

    assert_eq!(macos::requested_utun_name(&logical_config), None);
    assert_eq!(macos::requested_utun_name(&explicit_config), Some("utun12"));
}

fn endpoint(kind: EndpointKind, address: [u8; 4], port: u16, protocol: TransportProtocol) -> Endpoint {
    Endpoint { kind, address: IpAddress::V4(Ipv4Address(address)), port, protocol }
}

#[test]
fn selects_lan_udp_endpoint() {
    let endpoint = select_udp_endpoint(&[
        endpoint(EndpointKind::Public, [203, 0, 113, 10], 51820, TransportProtocol::Udp),
        endpoint(EndpointKind::Lan, [192, 168, 1, 30], 51820, TransportProtocol::Udp),
    ])
    .expect("selected endpoint");

    assert_eq!(endpoint.kind, EndpointKind::Lan);
    assert_eq!(endpoint.protocol, TransportProtocol::Udp);
}

#[test]
fn ignores_non_udp_endpoints() {
    let endpoint = select_udp_endpoint(&[endpoint(EndpointKind::Lan, [192, 168, 1, 30], 443, TransportProtocol::Tcp)]);

    assert!(endpoint.is_none());
}

#[test]
fn orders_udp_endpoints_lan_first() {
    let relay = endpoint(EndpointKind::Relay, [0, 0, 0, 0], 0, TransportProtocol::Udp);
    let public = endpoint(EndpointKind::Public, [203, 0, 113, 10], 51820, TransportProtocol::Udp);
    let lan = endpoint(EndpointKind::Lan, [192, 168, 1, 30], 51820, TransportProtocol::Udp);
    let tcp = endpoint(EndpointKind::Lan, [192, 168, 1, 31], 443, TransportProtocol::Tcp);

    assert_eq!(sorted_udp_endpoints(&[relay, public, tcp, lan]), vec![lan, public, relay]);
}

#[test]
fn only_udp_endpoints_have_socket_addresses() {
    let lan = endpoint(EndpointKind::Lan, [192, 168, 1, 30], 51820, TransportProtocol::Udp);
    assert_eq!(endpoint_socket_addr(&lan), Ok((lan.address, 51820)));

    let tcp = endpoint(EndpointKind::Lan, [192, 168, 1, 30], 443, TransportProtocol::Tcp);
    let error = endpoint_socket_addr(&tcp).expect_err("tcp endpoint");
    assert_eq!(error.message(), "backend command failed: endpoint is not UDP transport");
}

#[test]
fn command_failure_names_the_command_and_its_trimmed_error() {
    let failed = command("ip", &["link", "set", "tfscale0", "up"]);

    assert_eq!(
        command_failure(&failed, "  RTNETLINK answers: Operation not permitted\n"),
        "ip link set tfscale0 up failed: RTNETLINK answers: Operation not permitted"
    );
    assert_eq!(command_failure(&failed, " \n\t"), "ip link set tfscale0 up failed");
    assert_eq!(command_failure(&command("ifconfig", &[]), ""), "ifconfig  failed");
}
