use tfscale::ctl::{device_table, failure_message, request_url};
use tfscale::protocol::DeviceSummary;

#[test]
fn joins_control_url_and_path() {
    assert_eq!(request_url("http://127.0.0.1:8080//", "/v1/devices"), "http://127.0.0.1:8080/v1/devices");
    assert_eq!(request_url("http://control", "/v1/auth-keys"), "http://control/v1/auth-keys");
}

#[test]
fn failure_prefers_api_error_then_body() {
    assert_eq!(
        failure_message(404, Some("Not Found"), "{\"error\":\"device not found\"}", Some("device not found")),
        "control plane returned 404 Not Found: device not found"
    );
    assert_eq!(
        failure_message(500, Some("Internal Server Error"), "  boom \n", None),
        "control plane returned 500 Internal Server Error: boom"
    );
    assert_eq!(failure_message(502, None, "   ", None), "control plane returned 502 HTTP error");
}

#[test]
fn prints_device_table() {
    let devices = vec![DeviceSummary {
        id: "dev_a".to_string(),
        hostname: "devbox".to_string(),
        ipv4: "100.64.0.2".to_string(),
        os: "linux".to_string(),
        arch: "x86_64".to_string(),
        backend_type: "tfscale".to_string(),
        last_seen_at: None,
    }];

    let lines = device_table(&devices);

    assert_eq!(lines.len(), 2);
    assert_eq!(
        lines[0],
        format!("{:<28} {:<20} {:<15} {:<10} {:<8} {:<10} LAST_SEEN", "ID", "HOSTNAME", "IPV4", "OS", "ARCH", "BACKEND")
    );
    assert_eq!(
        lines[1],
        format!("{:<28} {:<20} {:<15} {:<10} {:<8} {:<10} -", "dev_a", "devbox", "100.64.0.2", "linux", "x86_64", "tfscale")
    );
}
