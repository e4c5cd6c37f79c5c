//! Binding devices to WinUSB on Windows: the driver package, where it goes,
//! and what the tools that install it report.
use crate::platform::windows;
use crate::platform::windows::join;
use crate::text;
use crate::text::{contains, joined, push_decimal, same, trim};
use vstd::prelude::*;

verus! {

/// The package that binds the mux interface of a device to WinUSB. The
/// interface is matched by its class, so that it covers all models.
pub const EMBEDDED_INF: &'static str = "; Binds the mux interface of Apple mobile devices to WinUSB.

[Version]
Signature   = \"$Windows NT$\"
Class       = USBDevice
ClassGuid   = {88BAE032-5A81-49f0-BC3D-A4FF138216D6}
Provider    = %ManufacturerName%
CatalogFile = meridian-relay-winusb.cat
DriverVer   = 01/01/2025,1.0.0.0
PnpLockdown = 1

[Manufacturer]
%ManufacturerName% = Standard,NTamd64,NTarm64

[Standard.NTamd64]
%DeviceName% = USB_Install,USB\\Class_FF&SubClass_FE&Prot_02

[Standard.NTarm64]
%DeviceName% = USB_Install,USB\\Class_FF&SubClass_FE&Prot_02

[USB_Install]
Include = winusb.inf
Needs   = WINUSB.NT

[USB_Install.Services]
Include = winusb.inf
Needs   = WINUSB.NT.Services

[USB_Install.HW]
AddReg = Dev_AddReg

[Dev_AddReg]
HKR,,DeviceInterfaceGUIDs,0x10000,\"{7C2B6A3E-5E0B-4C57-9D0E-2E6F0C6C1B11}\"

[Strings]
ManufacturerName = \"Meridian\"
DeviceName       = \"Apple Mobile Device (Meridian WinUSB)\"
";

pub const INF_NAME: &'static str = "meridian-relay-winusb.inf";

/// What the mux interface of a device is matched by.
pub const APPLE_MUX_HWID: &'static str = "USB\\Class_FF&SubClass_FE&Prot_02";

/// The directory of the package, below the directory of program data.
pub open spec fn package_dir(program_data: Seq<char>) -> Seq<char> {
    windows::below(windows::below(program_data, "Meridian"@), "drivers"@)
}

/// The directory of the package.
pub fn inf_dir(program_data: &str) -> (s: String)
    ensures
        s@ == package_dir(program_data@),
{
    join(join(program_data, "Meridian").as_str(), "drivers")
}

/// The file of the package.
pub fn embedded_inf_path(program_data: &str) -> (s: String)
    ensures
        s@ == windows::below(package_dir(program_data@), INF_NAME@),
{
    join(inf_dir(program_data).as_str(), INF_NAME)
}

/// Whether the package must be written, given what the file holds, where it
/// could be read.
pub fn must_deploy(existing: &Option<String>) -> (b: bool)
    ensures
        b == (text::opt_view(*existing) != Some(EMBEDDED_INF@)),
{
    match existing {
        Some(s) => !same(s.as_str(), EMBEDDED_INF),
        None => true,
    }
}

/// What a tool that was run reported.
#[derive(Debug)]
pub struct ToolReport {
    pub success: bool,
    /// The code with which it ended, where there is one.
    pub code: Option<i32>,
    pub stdout: String,
    pub stderr: String,
}

/// A number with its sign.
pub open spec fn signed_decimal(n: int) -> Seq<char> {
    if n < 0 {
        "-"@ + text::decimal((-n) as nat)
    } else {
        text::decimal(n as nat)
    }
}

/// The code with which a tool ended, as it is shown.
pub open spec fn shown_code(code: Option<i32>) -> Seq<char> {
    match code {
        Some(n) => "Some("@ + signed_decimal(n as int) + ")"@,
        None => "None"@,
    }
}

fn push_code(out: &mut String, code: Option<i32>)
    ensures
        final(out)@ == old(out)@ + shown_code(code),
{
    let ghost start = out@;
    match code {
        Some(n) => {
            out.append("Some(");
            if n < 0 {
                out.append("-");
                push_decimal(out, (-(n as i64)) as u64);
            } else {
                push_decimal(out, n as u64);
            }
            out.append(")");
            assert(out@ =~= start + shown_code(code));
        },
        None => {
            out.append("None");
        },
    }
}

/// Whether the package is in the driver store after the tool has run: also
/// when it was there before.
pub open spec fn is_staged(r: ToolReport) -> bool {
    r.success || text::contains_text(r.stdout@, "already exists"@) || text::contains_text(
        r.stdout@,
        "was installed"@,
    )
}

/// The message for a package that could not be put into the store.
pub open spec fn staging_text(r: ToolReport) -> Seq<char> {
    "pnputil /add-driver failed (code "@ + shown_code(r.code) + "): "@ + text::trimmed(r.stdout@)
        + " "@ + text::trimmed(r.stderr@)
}

/// Decides whether the package was put into the driver store. From then on
/// devices that are attached bind by themselves.
pub fn stage_driver(run: Result<ToolReport, String>) -> (r: Result<(), String>)
    ensures
        match run {
            Ok(report) => match r {
                Ok(_) => is_staged(report),
                Err(m) => !is_staged(report) && m@ == staging_text(report),
            },
            Err(e) => r matches Err(m) && m@ == "failed to run pnputil: "@ + e@,
        },
{
    let report = match run {
        Ok(r) => r,
        Err(e) => return Err(joined("failed to run pnputil: ", e.as_str())),
    };
    if report.success || contains(report.stdout.as_str(), "already exists") || contains(
        report.stdout.as_str(),
        "was installed",
    ) {
        return Ok(());
    }
    let mut m = "pnputil /add-driver failed (code ".to_owned();
    push_code(&mut m, report.code);
    m.append("): ");
    m.append(trim(report.stdout.as_str()).as_str());
    m.append(" ");
    m.append(trim(report.stderr.as_str()).as_str());
    Err(m)
}

/// Whether an error while devices are bound anew means no more than that none
/// is attached.
pub open spec fn is_benign(code: u32) -> bool {
    code == 0x103 || code == 0x10B || code == 0xE000_020B
}

/// Decides how many devices were bound anew, given whether that succeeded
/// and the number of the error if not.
pub fn rebind_present_devices(succeeded: bool, error: u32) -> (r: Result<u32, u32>)
    ensures
        r == if succeeded {
            Ok::<u32, u32>(1)
        } else if is_benign(error) {
            Ok::<u32, u32>(0)
        } else {
            Err::<u32, u32>(error)
        },
{
    if succeeded {
        Ok(1)
    } else if error == 0x103 || error == 0x10B || error == 0xE000_020B {
        Ok(0)
    } else {
        Err(error)
    }
}

/// The line about devices that are attached.
pub open spec fn rebind_line(rebound: Result<u32, Seq<char>>) -> Seq<char> {
    match rebound {
        Ok(n) => if n > 0 {
            "rebound currently-attached device(s) to WinUSB"@
        } else {
            "no Apple device currently attached (nothing to rebind)"@
        },
        Err(m) => "note: rebind of present devices reported: "@ + m,
    }
}

/// Sums up how the driver was provisioned, in lines for a reader: where the
/// package was put, that it is in the store, and what became of the devices
/// that are attached.
pub fn provision(
    deployed: Result<String, String>,
    staged: Result<(), String>,
    rebound: Result<u32, String>,
) -> (r: Result<Vec<String>, String>)
    ensures
        match (deployed, staged) {
            (Err(e), _) => r matches Err(m) && m@ == "failed to deploy INF: "@ + e@,
            (Ok(_), Err(e)) => r matches Err(m) && m@ == e@,
            (Ok(path), Ok(_)) => r matches Ok(lines) && text::text_views(lines@) == seq![
                "INF deployed: "@ + path@,
                "driver staged in driver store (future devices will bind automatically)"@,
                rebind_line(
                    match rebound {
                        Ok(n) => Ok(n),
                        Err(m) => Err(m@),
                    },
                ),
            ],
        },
{
    let path = match deployed {
        Ok(p) => p,
        Err(e) => return Err(joined("failed to deploy INF: ", e.as_str())),
    };
    if let Err(e) = staged {
        return Err(e);
    }
    let mut log: Vec<String> = Vec::new();
    log.push(joined("INF deployed: ", path.as_str()));
    log.push(
        "driver staged in driver store (future devices will bind automatically)".to_owned(),
    );
    let line = match rebound {
        Ok(n) => if n > 0 {
            "rebound currently-attached device(s) to WinUSB".to_owned()
        } else {
            "no Apple device currently attached (nothing to rebind)".to_owned()
        },
        Err(m) => joined("note: rebind of present devices reported: ", m.as_str()),
    };
    log.push(line);
    assert(text::text_views(log@) =~= seq![
        "INF deployed: "@ + path@,
        "driver staged in driver store (future devices will bind automatically)"@,
        rebind_line(
            match rebound {
                Ok(n) => Ok(n),
                Err(m) => Err(m@),
            },
        ),
    ]);
    Ok(log)
}

/// The package lies below the directory of program data.
pub proof fn package_lies_below_program_data()
    ensures
        windows::below(package_dir("C:\\ProgramData"@), "meridian-relay-winusb.inf"@)
            == "C:\\ProgramData"@ + "\\"@ + "Meridian"@ + "\\"@ + "drivers"@ + "\\"@
            + "meridian-relay-winusb.inf"@,
        INF_NAME@ == "meridian-relay-winusb.inf"@,
        APPLE_MUX_HWID@ == "USB\\Class_FF&SubClass_FE&Prot_02"@,
{
    reveal_strlit("C:\\ProgramData");
    reveal_strlit("\\");
    reveal_strlit("Meridian");
    reveal_strlit("drivers");
}

/// The package is in the store if the tool says that it succeeded, or that it
/// was there or was installed; otherwise it is not.
pub proof fn staging_goes_by_the_report(r: ToolReport)
    ensures
        r.success ==> is_staged(r),
        text::contains_text(r.stdout@, "already exists"@) ==> is_staged(r),
        text::contains_text(r.stdout@, "was installed"@) ==> is_staged(r),
        !r.success && r.stdout@.len() == 0 ==> !is_staged(r),
        r.code matches Some(n) ==> (n >= 0 ==> staging_text(r)
            == "pnputil /add-driver failed (code "@ + ("Some("@ + text::decimal(n as nat) + ")"@)
            + "): "@ + text::trimmed(r.stdout@) + " "@ + text::trimmed(r.stderr@)),
        r.code matches Some(n) ==> (n < 0 ==> staging_text(r)
            == "pnputil /add-driver failed (code "@ + ("Some("@ + ("-"@ + text::decimal(
            (-n) as nat,
        )) + ")"@) + "): "@ + text::trimmed(r.stdout@) + " "@ + text::trimmed(r.stderr@)),
        r.code is None ==> staging_text(r) == "pnputil /add-driver failed (code "@ + "None"@
            + "): "@ + text::trimmed(r.stdout@) + " "@ + text::trimmed(r.stderr@),
{
    reveal_strlit("already exists");
    reveal_strlit("was installed");
}

/// That no device is attached is no failure; anything else is.
pub proof fn absent_devices_are_no_failure(code: u32, n: u32, m: Seq<char>)
    ensures
        is_benign(0x103) && is_benign(0x10B) && is_benign(0xE000_020B),
        code != 0x103 && code != 0x10B && code != 0xE000_020B ==> !is_benign(code),
        n > 0 ==> rebind_line(Ok(n)) == "rebound currently-attached device(s) to WinUSB"@,
        rebind_line(Ok(0)) == "no Apple device currently attached (nothing to rebind)"@,
        rebind_line(Err(m)) == "note: rebind of present devices reported: "@ + m,
{
}

} // verus!
