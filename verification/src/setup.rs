//! Preparing a host for the daemon. Everything may be done again without
//! harm.
use crate::text;
use crate::text::{joined, same};
use vstd::prelude::*;

verus! {

pub const UDEV_RULE: &'static str = "# meridian-relay — Apple mobile device USB access
SUBSYSTEM==\"usb\", ATTR{idVendor}==\"05ac\", MODE=\"0666\", TAG+=\"uaccess\"
";

pub const UDEV_RULE_PATH: &'static str = "/etc/udev/rules.d/80-meridian-relay.rules";

pub const SYSTEMD_UNIT_PATH: &'static str = "/etc/systemd/system/meridian-relay.service";

/// The unit of the service: it is ready once the daemon says so, and it is
/// confined to what the daemon needs.
pub const SYSTEMD_UNIT: &'static str = "[Unit]
Description=Meridian Relay (iOS USB mux)
After=systemd-udevd.service

[Service]
Type=notify
ExecStart=/usr/local/bin/meridian-relay daemon
Restart=on-failure
RestartSec=2
NoNewPrivileges=yes
ProtectSystem=strict
ProtectHome=yes
PrivateTmp=yes
ReadWritePaths=/var/run /var/lib/lockdown
RestrictAddressFamilies=AF_UNIX AF_INET AF_INET6 AF_NETLINK

[Install]
WantedBy=multi-user.target
";

/// What is done about the rule for the bus.
#[derive(Debug, Clone, Copy, PartialEq, Eq, Structural)]
pub enum RuleStep {
    Keep,
    Update,
    Install,
}

/// Decides what is done about the rule, given whether its file is there and
/// what it holds where it could be read.
pub fn rule_step(present: bool, content: &Option<String>) -> (step: RuleStep)
    ensures
        step == if !present {
            RuleStep::Install
        } else if text::opt_view(*content) == Some(UDEV_RULE@) {
            RuleStep::Keep
        } else {
            RuleStep::Update
        },
{
    if !present {
        return RuleStep::Install;
    }
    match content {
        Some(s) => if same(s.as_str(), UDEV_RULE) {
            RuleStep::Keep
        } else {
            RuleStep::Update
        },
        None => RuleStep::Update,
    }
}

/// The line about the rule.
pub open spec fn rule_line(step: RuleStep) -> Seq<char> {
    match step {
        RuleStep::Keep => "udev rule already present: "@ + UDEV_RULE_PATH@,
        RuleStep::Update => "updated udev rule: "@ + UDEV_RULE_PATH@,
        RuleStep::Install => "installed udev rule: "@ + UDEV_RULE_PATH@,
    }
}

/// The line about the reloading of the rules.
pub open spec fn reload_line(reloaded: bool, triggered: bool) -> Seq<char> {
    "udev reload/trigger: "@ + if reloaded && triggered {
        "ok"@
    } else {
        "run `udevadm control --reload-rules && udevadm trigger` manually"@
    }
}

/// The line about the service.
pub open spec fn service_line(install_service: bool) -> Seq<char> {
    if install_service {
        "systemd unit installed + enabled: "@ + SYSTEMD_UNIT_PATH@
    } else {
        "skipped service install (--skip-service)"@
    }
}

/// Sums up how a Linux host was prepared, in lines for a reader.
pub fn provision(step: RuleStep, reloaded: bool, triggered: bool, install_service: bool) -> (log:
    Vec<String>)
    ensures
        text::text_views(log@) == seq![
            rule_line(step),
            reload_line(reloaded, triggered),
            service_line(install_service),
        ],
{
    let mut log: Vec<String> = Vec::new();
    log.push(
        match step {
            RuleStep::Keep => joined("udev rule already present: ", UDEV_RULE_PATH),
            RuleStep::Update => joined("updated udev rule: ", UDEV_RULE_PATH),
            RuleStep::Install => joined("installed udev rule: ", UDEV_RULE_PATH),
        },
    );
    log.push(
        if reloaded && triggered {
            joined("udev reload/trigger: ", "ok")
        } else {
            joined(
                "udev reload/trigger: ",
                "run `udevadm control --reload-rules && udevadm trigger` manually",
            )
        },
    );
    log.push(
        if install_service {
            joined("systemd unit installed + enabled: ", SYSTEMD_UNIT_PATH)
        } else {
            "skipped service install (--skip-service)".to_owned()
        },
    );
    assert(text::text_views(log@) =~= seq![
        rule_line(step),
        reload_line(reloaded, triggered),
        service_line(install_service),
    ]);
    log
}

/// The line about the service on Windows, given the program that it runs
/// where it was installed.
pub open spec fn windows_service_line(program: Option<Seq<char>>) -> Seq<char> {
    match program {
        Some(p) => "service installed (auto-start): "@ + p,
        None => "skipped service install (--skip-service)"@,
    }
}

/// Adds the line about the service to the lines about the driver on Windows.
pub fn provision_windows(driver: Vec<String>, program: &Option<String>) -> (log: Vec<String>)
    ensures
        text::text_views(log@) == text::text_views(driver@).push(
            windows_service_line(text::opt_view(*program)),
        ),
{
    let ghost was = text::text_views(driver@);
    let mut log = driver;
    let line = match program {
        Some(p) => joined("service installed (auto-start): ", p.as_str()),
        None => "skipped service install (--skip-service)".to_owned(),
    };
    let ghost last = line@;
    log.push(line);
    assert(text::text_views(log@) =~= was.push(last));
    log
}

/// What is said of each step.
pub proof fn what_the_lines_say(p: Seq<char>)
    ensures
        rule_line(RuleStep::Keep) == "udev rule already present: "@
            + "/etc/udev/rules.d/80-meridian-relay.rules"@,
        rule_line(RuleStep::Update) == "updated udev rule: "@
            + "/etc/udev/rules.d/80-meridian-relay.rules"@,
        rule_line(RuleStep::Install) == "installed udev rule: "@
            + "/etc/udev/rules.d/80-meridian-relay.rules"@,
        reload_line(true, true) == "udev reload/trigger: "@ + "ok"@,
        forall|a: bool, b: bool|
            !(a && b) ==> #[trigger] reload_line(a, b) == "udev reload/trigger: "@
                + "run `udevadm control --reload-rules && udevadm trigger` manually"@,
        service_line(true) == "systemd unit installed + enabled: "@
            + "/etc/systemd/system/meridian-relay.service"@,
        service_line(false) == "skipped service install (--skip-service)"@,
        windows_service_line(Some(p)) == "service installed (auto-start): "@ + p,
        windows_service_line(None) == "skipped service install (--skip-service)"@,
{
}

} // verus!
