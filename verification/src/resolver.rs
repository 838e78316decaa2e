//! System resolver integration: the files that route the mesh suffix to the
//! local MagicDNS listener, per platform.

use crate::text::{concat2, format_decimal, decimal_text, owned, push_str, str_eq};
use vstd::prelude::*;

verus! {

pub const DEFAULT_SUFFIX: &'static str = "mesh";

pub const LINUX_RESOLVED_CONF: &'static str = "/etc/systemd/resolved.conf.d/tfscale-magicdns.conf";

pub const MACOS_RESOLVER_DIR: &'static str = "/etc/resolver";

/// The suffix to route and the nameserver to route it to.
#[derive(Clone, Debug, PartialEq, Eq)]
pub struct ResolverConfig {
    pub suffix: String,
    pub nameserver: String,
    pub port: u16,
}

impl ResolverConfig {
    /// `mesh` routed to `127.0.0.1:1053`.
    pub fn default_config() -> (out: Self)
        ensures
            out.suffix@ == "mesh"@,
            out.nameserver@ == "127.0.0.1"@,
            out.port == 1053,
    {
        ResolverConfig { suffix: owned(DEFAULT_SUFFIX), nameserver: owned("127.0.0.1"), port: 1053 }
    }
}

#[derive(Clone, Copy, Debug, PartialEq, Eq)]
pub enum ResolverPlatform {
    LinuxSystemdResolved,
    MacosResolver,
}

/// The file to write and the commands that make the resolver read it.
#[derive(Clone, Debug, PartialEq, Eq)]
pub struct ResolverPlan {
    pub platform: ResolverPlatform,
    pub config_path: String,
    pub install_content: String,
    pub reload_commands: Vec<Vec<String>>,
    pub uninstall_paths: Vec<String>,
}

/// What is known of the installed resolver configuration.
#[derive(Clone, Debug, PartialEq, Eq)]
pub struct ResolverStatus {
    pub platform: String,
    pub config_path: String,
    pub installed: bool,
    pub content_matches: bool,
    pub message: Option<String>,
}

/// A systemd-resolved drop-in routing `~suffix` to the nameserver.
pub open spec fn resolved_conf_text(suffix: Seq<char>, nameserver: Seq<char>, port: u16) -> Seq<char> {
    "[Resolve]\nDNS="@ + nameserver + seq![':'] + decimal_text(port as nat) + "\nDomains=~"@ + suffix
        + "\n"@
}

/// The systemd-resolved plan for a suffix, nameserver and port.
pub open spec fn linux_plan_is(suffix: Seq<char>, nameserver: Seq<char>, port: u16, out: ResolverPlan) -> bool {
    &&& out.platform == ResolverPlatform::LinuxSystemdResolved
    &&& out.config_path@ == LINUX_RESOLVED_CONF@
    &&& out.install_content@ == resolved_conf_text(suffix, nameserver, port)
    &&& out.reload_commands@.len() == 1
    &&& out.reload_commands@[0]@.len() == 3
    &&& out.reload_commands@[0]@[0]@ == "systemctl"@
    &&& out.reload_commands@[0]@[1]@ == "reload"@
    &&& out.reload_commands@[0]@[2]@ == "systemd-resolved"@
    &&& out.uninstall_paths@.len() == 1
    &&& out.uninstall_paths@[0]@ == LINUX_RESOLVED_CONF@
}

pub fn linux_systemd_resolved_plan(config: &ResolverConfig) -> (out: ResolverPlan)
    ensures
        linux_plan_is(config.suffix@, config.nameserver@, config.port, out),
{
    let mut content = owned("[Resolve]\nDNS=");
    push_str(&mut content, config.nameserver.as_str());
    crate::text::push_char(&mut content, ':');
    let port = format_decimal(config.port as u64);
    push_str(&mut content, port.as_str());
    push_str(&mut content, "\nDomains=~");
    push_str(&mut content, config.suffix.as_str());
    push_str(&mut content, "\n");
    proof {
        assert(content@ =~= resolved_conf_text(config.suffix@, config.nameserver@, config.port));
    }
    ResolverPlan {
        platform: ResolverPlatform::LinuxSystemdResolved,
        config_path: owned(LINUX_RESOLVED_CONF),
        install_content: content,
        reload_commands: vec![vec![owned("systemctl"), owned("reload"), owned("systemd-resolved")]],
        uninstall_paths: vec![owned(LINUX_RESOLVED_CONF)],
    }
}

/// An `/etc/resolver/<suffix>` file naming the nameserver and port.
pub open spec fn macos_resolver_text(nameserver: Seq<char>, port: u16) -> Seq<char> {
    "nameserver "@ + nameserver + "\nport "@ + decimal_text(port as nat) + "\n"@
}

/// The `/etc/resolver` plan for a suffix, nameserver and port.
pub open spec fn macos_plan_is(suffix: Seq<char>, nameserver: Seq<char>, port: u16, out: ResolverPlan) -> bool {
    &&& out.platform == ResolverPlatform::MacosResolver
    &&& out.config_path@ == MACOS_RESOLVER_DIR@ + seq!['/'] + suffix
    &&& out.install_content@ == macos_resolver_text(nameserver, port)
    &&& out.reload_commands@.len() == 0
    &&& out.uninstall_paths@.len() == 1
    &&& out.uninstall_paths@[0]@ == out.config_path@
}

pub fn macos_resolver_plan(config: &ResolverConfig) -> (out: ResolverPlan)
    ensures
        macos_plan_is(config.suffix@, config.nameserver@, config.port, out),
{
    let mut path = owned(MACOS_RESOLVER_DIR);
    crate::text::push_char(&mut path, '/');
    push_str(&mut path, config.suffix.as_str());
    let mut content = owned("nameserver ");
    push_str(&mut content, config.nameserver.as_str());
    push_str(&mut content, "\nport ");
    let port = format_decimal(config.port as u64);
    push_str(&mut content, port.as_str());
    push_str(&mut content, "\n");
    let second = path.clone();
    proof {
        assert(path@ =~= MACOS_RESOLVER_DIR@ + seq!['/'] + config.suffix@);
        assert(content@ =~= macos_resolver_text(config.nameserver@, config.port));
    }
    ResolverPlan {
        platform: ResolverPlatform::MacosResolver,
        config_path: path,
        install_content: content,
        reload_commands: Vec::new(),
        uninstall_paths: vec![second],
    }
}

/// The plan for the operating system named `os`: an `/etc/resolver` file on
/// macOS, a systemd-resolved drop-in elsewhere.
pub open spec fn platform_plan_is(
    os: Seq<char>,
    suffix: Seq<char>,
    nameserver: Seq<char>,
    port: u16,
    out: ResolverPlan,
) -> bool {
    if os == "macos"@ {
        macos_plan_is(suffix, nameserver, port, out)
    } else {
        linux_plan_is(suffix, nameserver, port, out)
    }
}

/// The plan for the operating system named `os` (`std::env::consts::OS`).
pub fn current_platform_plan(os: &str, config: &ResolverConfig) -> (out: ResolverPlan)
    ensures
        platform_plan_is(os@, config.suffix@, config.nameserver@, config.port, out),
{
    if str_eq(os, "macos") {
        macos_resolver_plan(config)
    } else {
        linux_systemd_resolved_plan(config)
    }
}

pub open spec fn resolver_platform_label(p: ResolverPlatform) -> Seq<char> {
    match p {
        ResolverPlatform::LinuxSystemdResolved => "linux-systemd-resolved"@,
        ResolverPlatform::MacosResolver => "macos-resolver"@,
    }
}

pub fn platform_label(platform: &ResolverPlatform) -> (out: &'static str)
    ensures
        out@ == resolver_platform_label(*platform),
{
    match platform {
        ResolverPlatform::LinuxSystemdResolved => "linux-systemd-resolved",
        ResolverPlatform::MacosResolver => "macos-resolver",
    }
}

/// The outcome of reading the planned config file.
#[derive(Clone, Debug, PartialEq, Eq)]
pub enum ConfigRead {
    Content(String),
    NotFound,
    Failed(String),
}

/// The resolver status from reading the planned config file.
pub fn status(plan: &ResolverPlan, read: &ConfigRead) -> (out: ResolverStatus)
    ensures
        out.platform@ == resolver_platform_label(plan.platform),
        out.config_path@ == plan.config_path@,
        match read {
            ConfigRead::Content(c) => out.installed && out.content_matches == (c@
                == plan.install_content@) && (out.message matches Some(m) && m@ == (if c@
                == plan.install_content@ {
                "resolver config is installed"@
            } else {
                "resolver config exists but does not match tf-scale plan"@
            })),
            ConfigRead::NotFound => !out.installed && !out.content_matches && (out.message matches Some(
                m,
            ) && m@ == "resolver config is not installed"@),
            ConfigRead::Failed(e) => !out.installed && !out.content_matches && (out.message matches Some(
                m,
            ) && m@ == "failed to read resolver config: "@ + e@),
        },
{
    let platform = owned(platform_label(&plan.platform));
    let config_path = plan.config_path.clone();
    match read {
        ConfigRead::Content(c) => {
            let matches = str_eq(c.as_str(), plan.install_content.as_str());
            ResolverStatus {
                platform,
                config_path,
                installed: true,
                content_matches: matches,
                message: Some(
                    if matches {
                        owned("resolver config is installed")
                    } else {
                        owned("resolver config exists but does not match tf-scale plan")
                    },
                ),
            }
        },
        ConfigRead::NotFound => ResolverStatus {
            platform,
            config_path,
            installed: false,
            content_matches: false,
            message: Some(owned("resolver config is not installed")),
        },
        ConfigRead::Failed(e) => ResolverStatus {
            platform,
            config_path,
            installed: false,
            content_matches: false,
            message: Some(concat2("failed to read resolver config: ", e.as_str())),
        },
    }
}

} // verus!
