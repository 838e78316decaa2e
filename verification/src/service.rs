//! The agent's system service: the systemd unit and environment file it is
//! installed with, and how its state is read back.

use crate::text::{
    char_is_ascii_alphanumeric, chars_of, concat2, is_ascii_alphanumeric, owned, push_char,
    push_str, replace_char, replace_chars, string_from_chars, trim, trim_chars,
};
use vstd::prelude::*;

verus! {

pub const SERVICE_NAME: &'static str = "tfscale-agent";

pub const SYSTEMD_UNIT_PATH: &'static str = "/etc/systemd/system/tfscale-agent.service";

pub const SYSTEMD_ENV_PATH: &'static str = "/etc/tfscale/agent.env";

/// What the service runs and with which settings.
#[derive(Clone, Debug, PartialEq, Eq)]
pub struct ServiceConfig {
    pub binary_path: String,
    pub state_dir: String,
    pub control_url: String,
    pub login_key: String,
    /// The DNS listen socket address, as text.
    pub dns_listen: String,
}

#[derive(Clone, Copy, Debug, PartialEq, Eq)]
pub enum ServicePlatform {
    LinuxSystemd,
    Unsupported,
}

/// Files and commands that install and remove the service.
#[derive(Clone, Debug, PartialEq, Eq)]
pub struct ServicePlan {
    pub platform: ServicePlatform,
    pub unit_path: String,
    pub unit_content: String,
    pub env_path: String,
    pub env_content: String,
    pub install_commands: Vec<Vec<String>>,
    pub uninstall_commands: Vec<Vec<String>>,
}

/// What is known of the installed service.
#[derive(Clone, Debug, PartialEq, Eq)]
pub struct ServiceStatus {
    pub platform: String,
    pub unit_path: String,
    pub env_path: String,
    pub installed: bool,
    pub env_installed: bool,
    pub enabled: Option<bool>,
    pub active: Option<bool>,
    pub message: Option<String>,
}

/// Characters that stand unquoted in a unit file or environment file.
pub open spec fn is_plain_char(c: char) -> bool {
    is_ascii_alphanumeric(c) || c == '/' || c == ':' || c == '.' || c == '_' || c == '-' || c == '='
}

pub open spec fn all_plain(s: Seq<char>) -> bool {
    forall|i: int| 0 <= i < s.len() ==> is_plain_char(#[trigger] s[i])
}

fn chars_all_plain(s: &[char]) -> (b: bool)
    ensures
        b == all_plain(s@),
{
    let mut i: usize = 0;
    while i < s.len()
        invariant
            i <= s.len(),
            forall|j: int| 0 <= j < i ==> is_plain_char(#[trigger] s@[j]),
        decreases s.len() - i,
    {
        let c = s[i];
        if !(char_is_ascii_alphanumeric(c) || c == '/' || c == ':' || c == '.' || c == '_' || c
            == '-' || c == '=') {
            return false;
        }
        i = i + 1;
    }
    true
}

/// A unit-file argument: as is when plain, else single-quoted with each `'`
/// written as `'\''`.
pub open spec fn escape_systemd_arg_spec(value: Seq<char>) -> Seq<char> {
    if all_plain(value) {
        value
    } else {
        seq!['\''] + replace_char(value, '\'', "'\\''"@) + seq!['\'']
    }
}

/// An environment-file value: as is when plain, else double-quoted with `\`
/// and `"` escaped by a backslash.
pub open spec fn systemd_env_value_spec(value: Seq<char>) -> Seq<char> {
    if all_plain(value) {
        value
    } else {
        seq!['"'] + replace_char(replace_char(value, '\\', "\\\\"@), '"', "\\\""@) + seq!['"']
    }
}

pub fn escape_systemd_arg(value: &str) -> (out: String)
    ensures
        out@ == escape_systemd_arg_spec(value@),
{
    let cs = chars_of(value);
    if chars_all_plain(cs.as_slice()) {
        return owned(value);
    }
    let replaced = replace_chars(cs.as_slice(), '\'', "'\\''");
    let mut out = String::new();
    push_char(&mut out, '\'');
    let body = string_from_chars(replaced.as_slice());
    push_str(&mut out, body.as_str());
    push_char(&mut out, '\'');
    proof {
        assert(out@ =~= seq!['\''] + replace_char(value@, '\'', "'\\''"@) + seq!['\'']);
    }
    out
}

pub fn systemd_env_value(value: &str) -> (out: String)
    ensures
        out@ == systemd_env_value_spec(value@),
{
    let cs = chars_of(value);
    if chars_all_plain(cs.as_slice()) {
        return owned(value);
    }
    let first = replace_chars(cs.as_slice(), '\\', "\\\\");
    let second = replace_chars(first.as_slice(), '"', "\\\"");
    let mut out = String::new();
    push_char(&mut out, '"');
    let body = string_from_chars(second.as_slice());
    push_str(&mut out, body.as_str());
    push_char(&mut out, '"');
    proof {
        assert(out@ =~= seq!['"'] + replace_char(replace_char(value@, '\\', "\\\\"@), '"', "\\\""@)
            + seq!['"']);
    }
    out
}

/// The systemd unit of the agent.
pub open spec fn unit_text(binary: Seq<char>, state_dir: Seq<char>, dns_listen: Seq<char>, env_path: Seq<char>) -> Seq<char> {
    "[Unit]\nDescription=tf-scale agent\nAfter=network-online.target\nWants=network-online.target\n\n[Service]\nType=simple\nEnvironmentFile="@
        + env_path + "\nExecStart="@ + binary + " --state-dir "@ + state_dir
        + " up --login-key ${TFSCALE_LOGIN_KEY} --control-url ${TFSCALE_CONTROL_URL} --dns-listen "@
        + dns_listen
        + "\nRestart=on-failure\nRestartSec=3\n\n[Install]\nWantedBy=multi-user.target\n"@
}

pub fn linux_systemd_unit(config: &ServiceConfig) -> (out: String)
    ensures
        out@ == unit_text(
            escape_systemd_arg_spec(config.binary_path@),
            escape_systemd_arg_spec(config.state_dir@),
            escape_systemd_arg_spec(config.dns_listen@),
            escape_systemd_arg_spec(SYSTEMD_ENV_PATH@),
        ),
{
    let binary = escape_systemd_arg(config.binary_path.as_str());
    let state_dir = escape_systemd_arg(config.state_dir.as_str());
    let dns_listen = escape_systemd_arg(config.dns_listen.as_str());
    let env_path = escape_systemd_arg(SYSTEMD_ENV_PATH);
    let mut out = owned(
        "[Unit]\nDescription=tf-scale agent\nAfter=network-online.target\nWants=network-online.target\n\n[Service]\nType=simple\nEnvironmentFile=",
    );
    push_str(&mut out, env_path.as_str());
    push_str(&mut out, "\nExecStart=");
    push_str(&mut out, binary.as_str());
    push_str(&mut out, " --state-dir ");
    push_str(&mut out, state_dir.as_str());
    push_str(
        &mut out,
        " up --login-key ${TFSCALE_LOGIN_KEY} --control-url ${TFSCALE_CONTROL_URL} --dns-listen ",
    );
    push_str(&mut out, dns_listen.as_str());
    push_str(&mut out, "\nRestart=on-failure\nRestartSec=3\n\n[Install]\nWantedBy=multi-user.target\n");
    out
}

/// The environment file that carries the login key and control URL.
pub open spec fn env_text(login_key: Seq<char>, control_url: Seq<char>) -> Seq<char> {
    "TFSCALE_LOGIN_KEY="@ + login_key + "\nTFSCALE_CONTROL_URL="@ + control_url + "\n"@
}

pub fn linux_systemd_env(config: &ServiceConfig) -> (out: String)
    ensures
        out@ == env_text(
            systemd_env_value_spec(config.login_key@),
            systemd_env_value_spec(config.control_url@),
        ),
{
    let key = systemd_env_value(config.login_key.as_str());
    let url = systemd_env_value(config.control_url.as_str());
    let mut out = owned("TFSCALE_LOGIN_KEY=");
    push_str(&mut out, key.as_str());
    push_str(&mut out, "\nTFSCALE_CONTROL_URL=");
    push_str(&mut out, url.as_str());
    push_str(&mut out, "\n");
    out
}

/// `c` is a command made of exactly the given words.
pub open spec fn words_are(c: Vec<String>, words: Seq<Seq<char>>) -> bool {
    &&& c@.len() == words.len()
    &&& forall|i: int| 0 <= i < words.len() ==> #[trigger] c@[i]@ == words[i]
}

fn words2(a: &str, b: &str) -> (out: Vec<String>)
    ensures
        words_are(out, seq![a@, b@]),
{
    let out = vec![owned(a), owned(b)];
    proof {
        assert(words_are(out, seq![a@, b@]));
    }
    out
}

fn words3(a: &str, b: &str, c: &str) -> (out: Vec<String>)
    ensures
        words_are(out, seq![a@, b@, c@]),
{
    let out = vec![owned(a), owned(b), owned(c)];
    proof {
        assert(words_are(out, seq![a@, b@, c@]));
    }
    out
}

fn words4(a: &str, b: &str, c: &str, d: &str) -> (out: Vec<String>)
    ensures
        words_are(out, seq![a@, b@, c@, d@]),
{
    let out = vec![owned(a), owned(b), owned(c), owned(d)];
    proof {
        assert(words_are(out, seq![a@, b@, c@, d@]));
    }
    out
}

/// The systemd plan: unit and environment files, `daemon-reload` and
/// `enable` to install, `disable --now` and `daemon-reload` to remove.
pub fn linux_systemd_plan(config: &ServiceConfig) -> (out: ServicePlan)
    ensures
        out.platform == ServicePlatform::LinuxSystemd,
        out.unit_path@ == SYSTEMD_UNIT_PATH@,
        out.env_path@ == SYSTEMD_ENV_PATH@,
        out.unit_content@ == unit_text(
            escape_systemd_arg_spec(config.binary_path@),
            escape_systemd_arg_spec(config.state_dir@),
            escape_systemd_arg_spec(config.dns_listen@),
            escape_systemd_arg_spec(SYSTEMD_ENV_PATH@),
        ),
        out.env_content@ == env_text(
            systemd_env_value_spec(config.login_key@),
            systemd_env_value_spec(config.control_url@),
        ),
        out.install_commands@.len() == 2,
        words_are(out.install_commands@[0], seq!["systemctl"@, "daemon-reload"@]),
        words_are(out.install_commands@[1], seq!["systemctl"@, "enable"@, SERVICE_NAME@]),
        out.uninstall_commands@.len() == 2,
        words_are(out.uninstall_commands@[0], seq!["systemctl"@, "disable"@, "--now"@, SERVICE_NAME@]),
        words_are(out.uninstall_commands@[1], seq!["systemctl"@, "daemon-reload"@]),
{
    ServicePlan {
        platform: ServicePlatform::LinuxSystemd,
        unit_path: owned(SYSTEMD_UNIT_PATH),
        unit_content: linux_systemd_unit(config),
        env_path: owned(SYSTEMD_ENV_PATH),
        env_content: linux_systemd_env(config),
        install_commands: vec![
            words2("systemctl", "daemon-reload"),
            words3("systemctl", "enable", SERVICE_NAME),
        ],
        uninstall_commands: vec![
            words4("systemctl", "disable", "--now", SERVICE_NAME),
            words2("systemctl", "daemon-reload"),
        ],
    }
}

/// The plan on a platform without service support: no content, no commands.
pub fn unsupported_plan(config: &ServiceConfig) -> (out: ServicePlan)
    ensures
        out.platform == ServicePlatform::Unsupported,
        out.unit_path@ == SYSTEMD_UNIT_PATH@,
        out.env_path@ == SYSTEMD_ENV_PATH@,
        out.unit_content@ == Seq::<char>::empty(),
        out.env_content@ == Seq::<char>::empty(),
        out.install_commands@.len() == 0,
        out.uninstall_commands@.len() == 0,
{
    ServicePlan {
        platform: ServicePlatform::Unsupported,
        unit_path: owned(SYSTEMD_UNIT_PATH),
        unit_content: String::new(),
        env_path: owned(SYSTEMD_ENV_PATH),
        env_content: String::new(),
        install_commands: Vec::new(),
        uninstall_commands: Vec::new(),
    }
}

/// The plan for the operating system named `os` (`std::env::consts::OS`):
/// systemd on Linux, unsupported elsewhere.
pub fn current_platform_plan(os: &str, config: &ServiceConfig) -> (out: ServicePlan)
    ensures
        os@ == "linux"@ ==> out.platform == ServicePlatform::LinuxSystemd,
        os@ != "linux"@ ==> out.platform == ServicePlatform::Unsupported,
{
    if crate::text::str_eq(os, "linux") {
        linux_systemd_plan(config)
    } else {
        unsupported_plan(config)
    }
}

pub open spec fn service_platform_label(p: ServicePlatform) -> Seq<char> {
    match p {
        ServicePlatform::LinuxSystemd => "linux-systemd"@,
        ServicePlatform::Unsupported => "unsupported"@,
    }
}

pub fn platform_label(platform: &ServicePlatform) -> (out: &'static str)
    ensures
        out@ == service_platform_label(*platform),
{
    match platform {
        ServicePlatform::LinuxSystemd => "linux-systemd",
        ServicePlatform::Unsupported => "unsupported",
    }
}

/// Installing or removing is refused on an unsupported platform.
pub fn ensure_supported(plan: &ServicePlan) -> (out: Result<(), String>)
    ensures
        plan.platform == ServicePlatform::Unsupported ==> (out matches Err(m) && m@
            == "service install is not supported on this platform yet"@),
        plan.platform != ServicePlatform::Unsupported ==> out is Ok,
{
    match plan.platform {
        ServicePlatform::Unsupported => Err(
            owned("service install is not supported on this platform yet"),
        ),
        ServicePlatform::LinuxSystemd => Ok(()),
    }
}

/// What running `systemctl <command> tfscale-agent` printed: its standard
/// output and whether it exited successfully.
#[derive(Clone, Debug, PartialEq, Eq)]
pub struct CommandOutput {
    pub stdout: String,
    pub success: bool,
}

/// The reading of `systemctl is-enabled` / `is-active` output.
pub open spec fn systemctl_reading(command: Seq<char>, output: Option<(Seq<char>, bool)>) -> (Option<bool>, Option<Seq<char>>) {
    match output {
        None => (None, Some("systemctl "@ + command + " is not available"@)),
        Some((stdout, success)) => {
            let value = trim(stdout);
            if command == "is-enabled"@ && value == "enabled"@ {
                (Some(true), None)
            } else if command == "is-enabled"@ && (value == "disabled"@ || value == "static"@ || value == "indirect"@) {
                (Some(false), None)
            } else if command == "is-active"@ && value == "active"@ {
                (Some(true), None)
            } else if command == "is-active"@ && (value == "inactive"@ || value == "failed"@ || value
                == "activating"@ || value == "deactivating"@) {
                (Some(false), None)
            } else {
                (Some(success), None)
            }
        },
    }
}

/// Reads the output of `systemctl <command>`; `None` when it could not run.
pub fn systemctl_bool(command: &str, output: Option<&CommandOutput>) -> (out: (Option<bool>, Option<String>))
    ensures
        out.0 == systemctl_reading(
            command@,
            match output {
                Some(o) => Some((o.stdout@, o.success)),
                None => None,
            },
        ).0,
        match systemctl_reading(
            command@,
            match output {
                Some(o) => Some((o.stdout@, o.success)),
                None => None,
            },
        ).1 {
            Some(m) => out.1 matches Some(n) && n@ == m,
            None => out.1 is None,
        },
{
    match output {
        None => {
            let msg = crate::text::concat3("systemctl ", command, " is not available");
            (None, Some(msg))
        },
        Some(o) => {
            let trimmed = trim_chars(o.stdout.as_str());
            let value = string_from_chars(trimmed.as_slice());
            let v = value.as_str();
            let enabled_cmd = crate::text::str_eq(command, "is-enabled");
            let active_cmd = crate::text::str_eq(command, "is-active");
            if enabled_cmd && crate::text::str_eq(v, "enabled") {
                (Some(true), None)
            } else if enabled_cmd && (crate::text::str_eq(v, "disabled") || crate::text::str_eq(v, "static")
                || crate::text::str_eq(v, "indirect")) {
                (Some(false), None)
            } else if active_cmd && crate::text::str_eq(v, "active") {
                (Some(true), None)
            } else if active_cmd && (crate::text::str_eq(v, "inactive") || crate::text::str_eq(v, "failed")
                || crate::text::str_eq(v, "activating") || crate::text::str_eq(v, "deactivating")) {
                (Some(false), None)
            } else {
                (Some(o.success), None)
            }
        },
    }
}

/// The service status from what was observed: whether the unit and
/// environment files exist, and the two `systemctl` readings.
pub fn status(
    plan: &ServicePlan,
    installed: bool,
    env_installed: bool,
    enabled: (Option<bool>, Option<String>),
    active: (Option<bool>, Option<String>),
) -> (out: ServiceStatus)
    ensures
        out.platform@ == service_platform_label(plan.platform),
        out.unit_path@ == plan.unit_path@,
        out.env_path@ == plan.env_path@,
        out.installed == installed,
        out.env_installed == env_installed,
        out.enabled == enabled.0,
        out.active == active.0,
        match (enabled.1, active.1) {
            (Some(m), _) => out.message matches Some(n) && n@ == m@,
            (None, Some(m)) => out.message matches Some(n) && n@ == m@,
            (None, None) => out.message matches Some(n) && n@ == (if installed {
                "service unit is installed"@
            } else {
                "service unit is not installed"@
            }),
        },
{
    let message = match enabled.1 {
        Some(m) => m,
        None => match active.1 {
            Some(m) => m,
            None => if installed {
                owned("service unit is installed")
            } else {
                owned("service unit is not installed")
            },
        },
    };
    ServiceStatus {
        platform: owned(platform_label(&plan.platform)),
        unit_path: plan.unit_path.clone(),
        env_path: plan.env_path.clone(),
        installed,
        env_installed,
        enabled: enabled.0,
        active: active.0,
        message: Some(message),
    }
}

} // verus!

verus! {

/// The line of the unit that starts the agent: the binary with the state
/// directory, then the `up` subcommand with the login key and control URL
/// from the environment file and the DNS listen address.
pub open spec fn exec_start_line(binary: Seq<char>, state_dir: Seq<char>, dns_listen: Seq<char>) -> Seq<char> {
    "ExecStart="@ + binary + " --state-dir "@ + state_dir
        + " up --login-key ${TFSCALE_LOGIN_KEY} --control-url ${TFSCALE_CONTROL_URL} --dns-listen "@ + dns_listen
}

/// The unit runs the agent's `up` subcommand: it holds, as a line of its
/// own, `ExecStart=` with the binary and `--state-dir` and the state
/// directory, followed right away by ` up --login-key `, the control URL
/// and the DNS listen address.
pub proof fn lemma_unit_runs_up(
    binary: Seq<char>,
    state_dir: Seq<char>,
    dns_listen: Seq<char>,
    env_path: Seq<char>,
)
    ensures
        exists|k: int|
            0 < k && k + exec_start_line(binary, state_dir, dns_listen).len() < unit_text(
                binary,
                state_dir,
                dns_listen,
                env_path,
            ).len() && unit_text(binary, state_dir, dns_listen, env_path)[k - 1] == '\n' && unit_text(
                binary,
                state_dir,
                dns_listen,
                env_path,
            )[k + exec_start_line(binary, state_dir, dns_listen).len()] == '\n' && #[trigger] unit_text(
                binary,
                state_dir,
                dns_listen,
                env_path,
            ).subrange(k, k + exec_start_line(binary, state_dir, dns_listen).len()) == exec_start_line(
                binary,
                state_dir,
                dns_listen,
            ),
{
    reveal_strlit("\nExecStart=");
    reveal_strlit("ExecStart=");
    reveal_strlit("\nRestart=on-failure\nRestartSec=3\n\n[Install]\nWantedBy=multi-user.target\n");
    let head = "[Unit]\nDescription=tf-scale agent\nAfter=network-online.target\nWants=network-online.target\n\n[Service]\nType=simple\nEnvironmentFile="@
        + env_path;
    let line = exec_start_line(binary, state_dir, dns_listen);
    let tail = "\nRestart=on-failure\nRestartSec=3\n\n[Install]\nWantedBy=multi-user.target\n"@;
    let text = unit_text(binary, state_dir, dns_listen, env_path);
    assert(text =~= head + seq!['\n'] + line + tail);
    let k: int = head.len() as int + 1;
    assert(text.subrange(k, k + line.len() as int) =~= line);
    assert(text[k - 1] == '\n');
    assert(text[k + line.len() as int] == tail[0]);
}

} // verus!
