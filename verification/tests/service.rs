use tfscale::service::{
    current_platform_plan, ensure_supported, escape_systemd_arg, linux_systemd_plan, platform_label,
    systemctl_bool, systemd_env_value, CommandOutput, ServiceConfig, ServicePlatform, SERVICE_NAME,
    SYSTEMD_ENV_PATH, SYSTEMD_UNIT_PATH,
};

fn test_config() -> ServiceConfig {
    ServiceConfig {
        binary_path: "/usr/local/bin/tfscale-agent".to_string(),
        state_dir: "/var/lib/tfscale".to_string(),
        control_url: "http://control:8080".to_string(),
        login_key: "tfkey_test".to_string(),
        dns_listen: "127.0.0.1:1053".to_string(),
    }
}

#[test]
fn builds_linux_systemd_unit() {
    let config = test_config();
    let plan = linux_systemd_plan(&config);

    assert_eq!(plan.platform, ServicePlatform::LinuxSystemd);
    assert_eq!(plan.unit_path, SYSTEMD_UNIT_PATH);
    assert_eq!(plan.env_path, SYSTEMD_ENV_PATH);
    assert!(plan.unit_content.contains("Description=tf-scale agent"));
    assert!(plan.unit_content.contains("EnvironmentFile=/etc/tfscale/agent.env"));
    assert!(plan.unit_content.contains("--state-dir /var/lib/tfscale"));
    assert!(plan.unit_content.contains("--login-key ${TFSCALE_LOGIN_KEY}"));
    assert!(plan.unit_content.contains("--control-url ${TFSCALE_CONTROL_URL}"));
    assert!(plan.unit_content.contains("--dns-listen 127.0.0.1:1053"));
    assert!(plan.env_content.contains("TFSCALE_LOGIN_KEY=tfkey_test"));
    assert!(plan.env_content.contains("TFSCALE_CONTROL_URL=http://control:8080"));
    assert!(plan.install_commands.iter().any(|command| command == &["systemctl", "enable", SERVICE_NAME]));
}

#[test]
fn quotes_systemd_arguments_with_spaces() {
    assert_eq!(escape_systemd_arg("/opt/tf scale/agent"), "'/opt/tf scale/agent'");
}

#[test]
fn quotes_systemd_env_values_with_spaces() {
    assert_eq!(systemd_env_value("tf key"), "\"tf key\"");
}

#[test]
fn escapes_quotes_inside_quoted_values() {
    assert_eq!(escape_systemd_arg("it's"), "'it'\\''s'");
    assert_eq!(systemd_env_value("a\"b\\c"), "\"a\\\"b\\\\c\"");
    assert_eq!(escape_systemd_arg("plain/path-1.2_x=y:z"), "plain/path-1.2_x=y:z");
}

#[test]
fn env_file_has_both_variables() {
    let plan = linux_systemd_plan(&test_config());

    assert_eq!(plan.env_content, "TFSCALE_LOGIN_KEY=tfkey_test\nTFSCALE_CONTROL_URL=http://control:8080\n");
}

#[test]
fn unsupported_platform_refuses_install() {
    let plan = current_platform_plan("windows", &test_config());

    assert_eq!(plan.platform, ServicePlatform::Unsupported);
    assert_eq!(
        ensure_supported(&plan),
        Err("service install is not supported on this platform yet".to_string())
    );
    assert_eq!(platform_label(&plan.platform), "unsupported");

    let linux = current_platform_plan("linux", &test_config());
    assert!(ensure_supported(&linux).is_ok());
    assert_eq!(platform_label(&linux.platform), "linux-systemd");
}

#[test]
fn reads_systemctl_output() {
    let enabled = CommandOutput { stdout: "enabled\n".to_string(), success: true };
    assert_eq!(systemctl_bool("is-enabled", Some(&enabled)), (Some(true), None));

    let inactive = CommandOutput { stdout: "inactive\n".to_string(), success: false };
    assert_eq!(systemctl_bool("is-active", Some(&inactive)), (Some(false), None));

    let odd = CommandOutput { stdout: "unknown\n".to_string(), success: false };
    assert_eq!(systemctl_bool("is-active", Some(&odd)), (Some(false), None));

    assert_eq!(
        systemctl_bool("is-enabled", None),
        (None, Some("systemctl is-enabled is not available".to_string()))
    );
}
