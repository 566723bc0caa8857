//! Configuration: what each monitor watches and how, and where events go.
//!
//! A configuration comes either from a file, with command-line overrides for
//! the sink settings, or from the command line alone, which sets up at most
//! one monitor. Reading and decoding the file happen before `from_args`.
use vstd::prelude::*;
use crate::text::{owned, str_eq};

verus! {

#[derive(Clone)]
pub struct SentryConfig {
    pub dsn: String,
    pub environment: String,
    pub release: String,
}

#[derive(Clone)]
pub struct MonitorConfig {
    pub name: String,
    pub monitor_type: String,
    pub path: String,
    pub args: String,
    pub pattern: String,
    pub format: String,
    pub exclude_pattern: String,
    pub rate_limit_burst: Option<u32>,
    pub rate_limit_window: Option<String>,
}

#[derive(Clone)]
pub struct FileConfig {
    pub sentry: SentryConfig,
    pub monitors: Vec<MonitorConfig>,
}

/// The command-line arguments.
pub struct Args {
    /// Path to a configuration file.
    pub config: Option<String>,
    pub dsn: Option<String>,
    pub dmesg: bool,
    pub file: Option<String>,
    pub journalctl: Option<String>,
    pub command: Option<String>,
    pub syslog: Option<String>,
    pub format: Option<String>,
    pub pattern: String,
    pub exclude: Option<String>,
    pub environment: String,
    pub release: Option<String>,
    pub verbose: bool,
    pub oneshot: bool,
    pub status: bool,
    pub update: bool,
}

#[derive(Clone)]
pub struct Config {
    pub sentry: SentryConfig,
    pub monitors: Vec<MonitorConfig>,
    pub verbose: bool,
    pub oneshot: bool,
    pub status: bool,
    pub update: bool,
    /// Port of the metrics endpoint; 0 serves none.
    pub metrics_port: u16,
}

/// Why a configuration was refused.
pub enum ConfigError {
    /// No sink credential was given.
    MissingDsn,
    /// No monitor was configured.
    NoMonitors,
}

pub struct SentryConfigView {
    pub dsn: Seq<char>,
    pub environment: Seq<char>,
    pub release: Seq<char>,
}

pub struct MonitorConfigView {
    pub name: Seq<char>,
    pub monitor_type: Seq<char>,
    pub path: Seq<char>,
    pub args: Seq<char>,
    pub pattern: Seq<char>,
    pub format: Seq<char>,
    pub exclude_pattern: Seq<char>,
    pub rate_limit_burst: Option<u32>,
    pub rate_limit_window: Option<Seq<char>>,
}

pub struct ConfigView {
    pub sentry: SentryConfigView,
    pub monitors: Seq<MonitorConfigView>,
    pub verbose: bool,
    pub oneshot: bool,
    pub status: bool,
    pub update: bool,
    pub metrics_port: u16,
}

pub open spec fn opt_view(o: Option<String>) -> Option<Seq<char>> {
    match o {
        Some(s) => Some(s@),
        None => None,
    }
}

/// The text of an optional string, empty where there is none.
pub open spec fn or_empty(o: Option<String>) -> Seq<char> {
    match o {
        Some(s) => s@,
        None => Seq::empty(),
    }
}

impl View for SentryConfig {
    type V = SentryConfigView;

    open spec fn view(&self) -> SentryConfigView {
        SentryConfigView { dsn: self.dsn@, environment: self.environment@, release: self.release@ }
    }
}

impl View for MonitorConfig {
    type V = MonitorConfigView;

    open spec fn view(&self) -> MonitorConfigView {
        MonitorConfigView {
            name: self.name@,
            monitor_type: self.monitor_type@,
            path: self.path@,
            args: self.args@,
            pattern: self.pattern@,
            format: self.format@,
            exclude_pattern: self.exclude_pattern@,
            rate_limit_burst: self.rate_limit_burst,
            rate_limit_window: opt_view(self.rate_limit_window),
        }
    }
}

pub open spec fn monitor_views(v: Seq<MonitorConfig>) -> Seq<MonitorConfigView> {
    v.map_values(|m: MonitorConfig| m@)
}

impl View for Config {
    type V = ConfigView;

    open spec fn view(&self) -> ConfigView {
        ConfigView {
            sentry: self.sentry@,
            monitors: monitor_views(self.monitors@),
            verbose: self.verbose,
            oneshot: self.oneshot,
            status: self.status,
            update: self.update,
            metrics_port: self.metrics_port,
        }
    }
}

/// The environment reported when none is configured.
pub fn default_environment() -> (r: String)
    ensures
        r@ == "production"@,
{
    owned("production")
}

/// The pattern a monitor matches when none is configured.
pub fn default_pattern() -> (r: String)
    ensures
        r@ == "Error"@,
{
    owned("Error")
}

/// A monitor set up from the command line.
pub open spec fn cli_entry(
    name: Seq<char>,
    path: Seq<char>,
    args: Seq<char>,
    pattern: Seq<char>,
    format: Seq<char>,
    exclude: Seq<char>,
) -> MonitorConfigView {
    MonitorConfigView {
        name,
        monitor_type: name,
        path,
        args,
        pattern,
        format,
        exclude_pattern: exclude,
        rate_limit_burst: None,
        rate_limit_window: None,
    }
}

/// The monitor that the command line asks for, by precedence: kernel log,
/// file, journal, command, syslog listener.
pub open spec fn cli_monitor(a: Args) -> Option<MonitorConfigView> {
    let fmt = or_empty(a.format);
    let ex = or_empty(a.exclude);
    let e = Seq::<char>::empty();
    if a.dmesg {
        Some(
            cli_entry(
                "dmesg"@,
                e,
                e,
                a.pattern@,
                if fmt.len() == 0 {
                    "dmesg"@
                } else {
                    fmt
                },
                ex,
            ),
        )
    } else if a.file is Some {
        Some(cli_entry("file"@, or_empty(a.file), e, a.pattern@, fmt, ex))
    } else if a.journalctl is Some {
        Some(cli_entry("journalctl"@, e, or_empty(a.journalctl), a.pattern@, fmt, ex))
    } else if a.command is Some {
        Some(cli_entry("command"@, e, or_empty(a.command), a.pattern@, fmt, ex))
    } else if a.syslog is Some {
        Some(cli_entry("syslog"@, or_empty(a.syslog), e, a.pattern@, fmt, ex))
    } else {
        None
    }
}

/// The configuration that the arguments and the decoded file, if any, put
/// together. With a file, its sink settings yield to a DSN, a release, or an
/// environment other than the default given on the command line.
pub open spec fn assembled(a: Args, file: Option<FileConfig>) -> ConfigView {
    match file {
        Some(fc) => ConfigView {
            sentry: SentryConfigView {
                dsn: match a.dsn {
                    Some(d) => d@,
                    None => fc.sentry.dsn@,
                },
                environment: if a.environment@ != "production"@ {
                    a.environment@
                } else {
                    fc.sentry.environment@
                },
                release: match a.release {
                    Some(r) => r@,
                    None => fc.sentry.release@,
                },
            },
            monitors: monitor_views(fc.monitors@),
            verbose: a.verbose,
            oneshot: a.oneshot,
            status: a.status,
            update: a.update,
            metrics_port: 0,
        },
        None => ConfigView {
            sentry: SentryConfigView {
                dsn: or_empty(a.dsn),
                environment: a.environment@,
                release: or_empty(a.release),
            },
            monitors: match cli_monitor(a) {
                Some(m) => seq![m],
                None => Seq::empty(),
            },
            verbose: a.verbose,
            oneshot: a.oneshot,
            status: a.status,
            update: a.update,
            metrics_port: 0,
        },
    }
}

fn text_or_empty(o: Option<String>) -> (r: String)
    ensures
        r@ == or_empty(o),
{
    match o {
        Some(s) => s,
        None => String::new(),
    }
}

fn cli_config(
    name: &str,
    path: String,
    args: String,
    pattern: String,
    format: String,
    exclude: String,
) -> (r: MonitorConfig)
    ensures
        r@ == cli_entry(name@, path@, args@, pattern@, format@, exclude@),
{
    MonitorConfig {
        name: owned(name),
        monitor_type: owned(name),
        path,
        args,
        pattern,
        format,
        exclude_pattern: exclude,
        rate_limit_burst: None,
        rate_limit_window: None,
    }
}

impl Config {
    /// Puts the configuration together from the arguments and, where a
    /// configuration file was given, its decoded contents. A status or update
    /// request needs nothing more; otherwise a DSN and at least one monitor
    /// are required.
    pub fn from_args(args: Args, file: Option<FileConfig>) -> (r: Result<Config, ConfigError>)
        ensures
            ({
                let c = assembled(args, file);
                &&& r is Ok <==> (c.status || c.update || (c.sentry.dsn.len() > 0
                    && c.monitors.len() > 0))
                &&& r matches Ok(cfg) ==> cfg@ == c
                &&& r matches Err(e) ==> e == if c.sentry.dsn.len() == 0 {
                    ConfigError::MissingDsn
                } else {
                    ConfigError::NoMonitors
                }
            }),
    {
        let ghost spec_args = args;
        let ghost spec_file = file;
        let is_default_env = str_eq(args.environment.as_str(), "production");
        let config = match file {
            Some(fc) => {
                let dsn = match args.dsn {
                    Some(d) => d,
                    None => fc.sentry.dsn,
                };
                let environment = if !is_default_env {
                    args.environment
                } else {
                    fc.sentry.environment
                };
                let release = match args.release {
                    Some(r) => r,
                    None => fc.sentry.release,
                };
                Config {
                    sentry: SentryConfig { dsn, environment, release },
                    monitors: fc.monitors,
                    verbose: args.verbose,
                    oneshot: args.oneshot,
                    status: args.status,
                    update: args.update,
                    metrics_port: 0,
                }
            },
            None => {
                let mut monitors: Vec<MonitorConfig> = Vec::new();
                let format_arg = text_or_empty(args.format);
                let exclude = text_or_empty(args.exclude);
                if args.dmesg {
                    let format = if format_arg.as_str().is_empty() {
                        owned("dmesg")
                    } else {
                        format_arg
                    };
                    monitors.push(
                        cli_config("dmesg", String::new(), String::new(), args.pattern, format, exclude),
                    );
                } else if args.file.is_some() {
                    monitors.push(
                        cli_config(
                            "file",
                            text_or_empty(args.file),
                            String::new(),
                            args.pattern,
                            format_arg,
                            exclude,
                        ),
                    );
                } else if args.journalctl.is_some() {
                    monitors.push(
                        cli_config(
                            "journalctl",
                            String::new(),
                            text_or_empty(args.journalctl),
                            args.pattern,
                            format_arg,
                            exclude,
                        ),
                    );
                } else if args.command.is_some() {
                    monitors.push(
                        cli_config(
                            "command",
                            String::new(),
                            text_or_empty(args.command),
                            args.pattern,
                            format_arg,
                            exclude,
                        ),
                    );
                } else if args.syslog.is_some() {
                    monitors.push(
                        cli_config(
                            "syslog",
                            text_or_empty(args.syslog),
                            String::new(),
                            args.pattern,
                            format_arg,
                            exclude,
                        ),
                    );
                }
                proof {
                    reveal_strlit("dmesg");
                    reveal_strlit("file");
                    reveal_strlit("journalctl");
                    reveal_strlit("command");
                    reveal_strlit("syslog");
                    match cli_monitor(spec_args) {
                        Some(m) => assert(monitor_views(monitors@) =~= seq![m]),
                        None => assert(monitor_views(monitors@) =~= Seq::empty()),
                    }
                }
                Config {
                    sentry: SentryConfig {
                        dsn: text_or_empty(args.dsn),
                        environment: args.environment,
                        release: text_or_empty(args.release),
                    },
                    monitors,
                    verbose: args.verbose,
                    oneshot: args.oneshot,
                    status: args.status,
                    update: args.update,
                    metrics_port: 0,
                }
            },
        };
        assert(config@ == assembled(spec_args, spec_file));
        if config.status || config.update {
            return Ok(config);
        }
        if config.sentry.dsn.as_str().is_empty() {
            return Err(ConfigError::MissingDsn);
        }
        if config.monitors.len() == 0 {
            return Err(ConfigError::NoMonitors);
        }
        Ok(config)
    }
}

/// The detector format a monitor asks for: its own format, else `custom`
/// where it names a pattern, else `dmesg` for a kernel-log monitor, else
/// `custom`.
pub open spec fn detector_format_of(m: MonitorConfigView) -> Seq<char> {
    if m.format.len() > 0 {
        m.format
    } else if m.pattern.len() > 0 {
        "custom"@
    } else if m.monitor_type == "dmesg"@ {
        "dmesg"@
    } else {
        "custom"@
    }
}

pub fn determine_detector_format(mon_cfg: &MonitorConfig) -> (r: String)
    ensures
        r@ == detector_format_of(mon_cfg@),
{
    if !mon_cfg.format.as_str().is_empty() {
        return mon_cfg.format.clone();
    }
    if !mon_cfg.pattern.as_str().is_empty() {
        return owned("custom");
    }
    if str_eq(mon_cfg.monitor_type.as_str(), "dmesg") {
        return owned("dmesg");
    }
    owned("custom")
}

} // verus!
