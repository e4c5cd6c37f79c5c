//! Files of pair records.
use meridian_relay::daemon::pair_records::{
    candidate_files, delete_pair_record, existing_buid, has_pair_record, locate_record, new_buid,
    read_pair_record, save_pair_record,
};

const RAW: &str = "00008110000C694914F3801E";
const DASHED: &str = "00008110-000C694914F3801E";

#[test]
fn test_pair_record_exact_delete() {
    // Of "ABCDEF1234567890.plist" and "ABCDEF1234567890ABCD.plist" only the first goes.
    assert_eq!(
        delete_pair_record("ABCDEF1234567890", true, true, true),
        Some("ABCDEF1234567890.plist".into())
    );
    assert_eq!(delete_pair_record("ABCDEF1234567890", true, false, false), None);
    assert_eq!(delete_pair_record("ABCDEF1234567890", false, true, true), None);
    assert_eq!(
        delete_pair_record(RAW, true, false, true),
        Some(format!("{DASHED}.plist"))
    );
}

#[test]
fn test_pair_record_save_safeguard() {
    let result = save_pair_record("../../../etc/evil");
    assert!(result.is_err());
    assert_eq!(result.unwrap_err(), "invalid UDID for path");
}

#[test]
fn test_pair_record_read_not_found() {
    let result = read_pair_record("NONEXISTENT12345678901", true, false, false, &[]);
    assert!(result.is_err());
    assert_eq!(result.unwrap_err(), "pair record not found for NONEXISTENT12345678901");
    assert_eq!(
        read_pair_record("A", false, true, true, &[]).unwrap_err(),
        "lockdown directory not found"
    );
}

#[test]
fn pair_record_crud_roundtrip() {
    let file = save_pair_record(DASHED).unwrap();
    assert_eq!(file, format!("{DASHED}.plist"));
    let (first, second) = candidate_files(DASHED);
    assert_eq!((first.as_str(), second.as_str()), (file.as_str(), file.as_str()));
    assert_eq!(read_pair_record(DASHED, true, true, true, &[]).unwrap(), file);
    assert!(has_pair_record(DASHED, true, true, true, &[]));
    assert_eq!(delete_pair_record(DASHED, true, true, true), Some(file));
    assert!(read_pair_record(DASHED, true, false, false, &[]).is_err());
    assert!(!has_pair_record(DASHED, true, false, false, &[]));
    assert!(!has_pair_record(DASHED, false, true, true, &[]));
}

#[test]
fn records_are_found_under_either_spelling() {
    let (first, second) = candidate_files(RAW);
    assert_eq!(first, format!("{RAW}.plist"));
    assert_eq!(second, format!("{DASHED}.plist"));
    assert_eq!(locate_record(RAW, false, true, &[]), Some(second));
    let names = ["buid".to_string(), format!("{DASHED}.plist.plist"), format!("{RAW}.plist")];
    assert_eq!(locate_record(RAW, false, false, &names), Some(names[1].clone()));
    assert_eq!(locate_record("ABC", false, false, &names), None);
    assert_eq!(locate_record(RAW, false, false, &[RAW.to_string()]), None);
}

#[test]
fn the_identifier_of_the_host_is_kept() {
    let made = new_buid(0x1234, 0xABCDEF);
    assert_eq!(made, "00000000000012340000000000abcdef");
    assert_eq!(existing_buid(Some(&made)), Some(made.clone()));
    assert_eq!(existing_buid(Some(" \n")), None);
    assert_eq!(existing_buid(None), None);
    assert_eq!(existing_buid(Some(" x\n")), Some("x".into()));
}
