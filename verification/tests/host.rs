//! Preparing hosts: the driver package, the rule for the bus, the service.
use meridian_relay::driver;
use meridian_relay::driver::{
    embedded_inf_path, inf_dir, must_deploy, rebind_present_devices, stage_driver, ToolReport,
    EMBEDDED_INF,
};
use meridian_relay::service::{launch_arguments, on_control, Control, ControlStep, SERVICE_NAME};
use meridian_relay::setup::{
    provision, provision_windows, rule_step, RuleStep, SYSTEMD_UNIT, UDEV_RULE,
};

#[test]
fn inf_is_well_formed() {
    assert!(EMBEDDED_INF.contains("[Version]"));
    assert!(EMBEDDED_INF.contains(r"USB\Class_FF&SubClass_FE&Prot_02"));
    assert!(EMBEDDED_INF.contains("winusb.inf"));
}

#[test]
fn udev_rule_matches_apple_vid() {
    assert!(UDEV_RULE.contains("05ac"));
    assert!(UDEV_RULE.contains("uaccess"));
}

#[test]
fn the_package_is_written_once() {
    assert_eq!(inf_dir("C:\\ProgramData"), "C:\\ProgramData\\Meridian\\drivers");
    assert_eq!(
        embedded_inf_path("C:\\ProgramData"),
        "C:\\ProgramData\\Meridian\\drivers\\meridian-relay-winusb.inf"
    );
    assert!(must_deploy(&None));
    assert!(must_deploy(&Some("old".into())));
    assert!(!must_deploy(&Some(EMBEDDED_INF.into())));
}

fn report(success: bool, code: Option<i32>, stdout: &str, stderr: &str) -> ToolReport {
    ToolReport { success, code, stdout: stdout.into(), stderr: stderr.into() }
}

#[test]
fn staging_is_judged_by_the_report() {
    assert!(stage_driver(Ok(report(true, Some(0), "", ""))).is_ok());
    assert!(stage_driver(Ok(report(false, Some(1), "it already exists here", ""))).is_ok());
    assert!(stage_driver(Ok(report(false, Some(1), "was installed", ""))).is_ok());
    assert_eq!(
        stage_driver(Ok(report(false, Some(-5), " out \n", " err "))).unwrap_err(),
        "pnputil /add-driver failed (code Some(-5)): out err"
    );
    assert_eq!(
        stage_driver(Ok(report(false, None, "", ""))).unwrap_err(),
        "pnputil /add-driver failed (code None):  "
    );
    assert_eq!(stage_driver(Err("gone".into())).unwrap_err(), "failed to run pnputil: gone");
}

#[test]
fn rebinding_without_devices_is_fine() {
    assert_eq!(rebind_present_devices(true, 0), Ok(1));
    assert_eq!(rebind_present_devices(false, 0x103), Ok(0));
    assert_eq!(rebind_present_devices(false, 0x10B), Ok(0));
    assert_eq!(rebind_present_devices(false, 0xE000020B), Ok(0));
    assert_eq!(rebind_present_devices(false, 5), Err(5));
}

#[test]
fn driver_log() {
    let log = driver::provision(Ok("C:\\x.inf".into()), Ok(()), Ok(1)).unwrap();
    assert_eq!(log[0], "INF deployed: C:\\x.inf");
    assert_eq!(log[1], "driver staged in driver store (future devices will bind automatically)");
    assert_eq!(log[2], "rebound currently-attached device(s) to WinUSB");
    let log = driver::provision(Ok("p".into()), Ok(()), Ok(0)).unwrap();
    assert_eq!(log[2], "no Apple device currently attached (nothing to rebind)");
    let log = driver::provision(Ok("p".into()), Ok(()), Err("denied".into())).unwrap();
    assert_eq!(log[2], "note: rebind of present devices reported: denied");
    assert_eq!(
        driver::provision(Err("full".into()), Ok(()), Ok(0)).unwrap_err(),
        "failed to deploy INF: full"
    );
    assert_eq!(driver::provision(Ok("p".into()), Err("bad".into()), Ok(0)).unwrap_err(), "bad");
    let all = provision_windows(log, &Some("C:\\m.exe".into()));
    assert_eq!(all.last().unwrap(), "service installed (auto-start): C:\\m.exe");
    assert_eq!(
        provision_windows(Vec::new(), &None),
        vec!["skipped service install (--skip-service)"]
    );
}

#[test]
fn the_rule_is_installed_updated_or_kept() {
    assert_eq!(rule_step(false, &None), RuleStep::Install);
    assert_eq!(rule_step(true, &None), RuleStep::Update);
    assert_eq!(rule_step(true, &Some("old".into())), RuleStep::Update);
    assert_eq!(rule_step(true, &Some(UDEV_RULE.into())), RuleStep::Keep);
    let log = provision(RuleStep::Keep, true, true, true);
    assert_eq!(log, vec![
        "udev rule already present: /etc/udev/rules.d/80-meridian-relay.rules",
        "udev reload/trigger: ok",
        "systemd unit installed + enabled: /etc/systemd/system/meridian-relay.service",
    ]);
    let log = provision(RuleStep::Update, true, false, false);
    assert_eq!(log[0], "updated udev rule: /etc/udev/rules.d/80-meridian-relay.rules");
    assert_eq!(
        log[1],
        "udev reload/trigger: run `udevadm control --reload-rules && udevadm trigger` manually"
    );
    assert_eq!(log[2], "skipped service install (--skip-service)");
    assert!(provision(RuleStep::Install, true, true, true)[0].starts_with("installed udev rule"));
    assert!(SYSTEMD_UNIT.contains("Type=notify"));
}

#[test]
fn the_service_stops_when_told() {
    assert_eq!(SERVICE_NAME, "meridian-relay");
    assert_eq!(on_control(Control::Stop), ControlStep::Stop);
    assert_eq!(on_control(Control::Shutdown), ControlStep::Stop);
    assert_eq!(on_control(Control::Interrogate), ControlStep::Acknowledge);
    assert_eq!(on_control(Control::Other), ControlStep::Decline);
    assert_eq!(launch_arguments(), vec!["daemon", "--service-run"]);
}
