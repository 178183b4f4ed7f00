use bluetooth_applet::RfkillEntry;
use bluetooth_applet::RfkillError;
use bluetooth_applet::resolve_adapter_index;
use bluetooth_applet::rfkill_event_bytes;

fn entry(kind: &str, name: &str, index: &str) -> RfkillEntry {
    RfkillEntry {
        kind: kind.as_bytes().to_vec(),
        name: name.as_bytes().to_vec(),
        index: index.as_bytes().to_vec(),
    }
}

#[test]
fn enable_record_for_index_three_exact_bytes() {
    let bytes = rfkill_event_bytes(3, true);
    assert_eq!(bytes, vec![0x03, 0x00, 0x00, 0x00, 0x02, 0x02, 0x00, 0x00]);
}

#[test]
fn disable_record_sets_soft_block() {
    let bytes = rfkill_event_bytes(3, false);
    assert_eq!(bytes, vec![0x03, 0x00, 0x00, 0x00, 0x02, 0x02, 0x01, 0x00]);
}

#[test]
fn record_index_is_little_endian() {
    let bytes = rfkill_event_bytes(0x0102_0304, true);
    assert_eq!(&bytes[0..4], &[0x04, 0x03, 0x02, 0x01]);
    assert_eq!(bytes.len(), 8);
}

#[test]
fn resolve_picks_first_matching_entry() {
    let entries = vec![
        entry("wlan\n", "phy0\n", "0\n"),
        entry("bluetooth\n", "other\n", "1\n"),
        entry("bluetooth\n", "hci0\n", "2\n"),
        entry("bluetooth\n", "hci0\n", "9\n"),
    ];
    let name = b"hci0".to_vec();
    assert_eq!(resolve_adapter_index(&entries, &name), Ok(2));
}

#[test]
fn resolve_trims_whitespace_everywhere() {
    let entries = vec![entry("  bluetooth\t\n", " hci0 \n", " 7 \n")];
    let name = b"hci0".to_vec();
    assert_eq!(resolve_adapter_index(&entries, &name), Ok(7));
}

#[test]
fn resolve_without_match_reports_no_adapter() {
    let entries = vec![entry("wlan\n", "hci0\n", "1\n"), entry("bluetooth\n", "hci1\n", "2\n")];
    let name = b"hci0".to_vec();
    assert_eq!(resolve_adapter_index(&entries, &name), Err(RfkillError::NoMatchingAdapter));
    let none: Vec<RfkillEntry> = Vec::new();
    assert_eq!(resolve_adapter_index(&none, &name), Err(RfkillError::NoMatchingAdapter));
}

#[test]
fn resolve_with_unparsable_index_reports_bad_index() {
    let name = b"hci0".to_vec();
    let entries = vec![entry("bluetooth\n", "hci0\n", "x7\n")];
    assert_eq!(resolve_adapter_index(&entries, &name), Err(RfkillError::BadIndex));
    let empty_index = vec![entry("bluetooth\n", "hci0\n", "\n")];
    assert_eq!(resolve_adapter_index(&empty_index, &name), Err(RfkillError::BadIndex));
    let overflow = vec![entry("bluetooth\n", "hci0\n", "4294967296\n")];
    assert_eq!(resolve_adapter_index(&overflow, &name), Err(RfkillError::BadIndex));
}

#[test]
fn resolve_accepts_u32_boundary() {
    let name = b"hci0".to_vec();
    let max = vec![entry("bluetooth\n", "hci0\n", "4294967295\n")];
    assert_eq!(resolve_adapter_index(&max, &name), Ok(u32::MAX));
    let zeros = vec![entry("bluetooth\n", "hci0\n", "0007\n")];
    assert_eq!(resolve_adapter_index(&zeros, &name), Ok(7));
}
