use rust_ami::master::{
    fit_bytes, parse_master, write_master, MasterEntry, MasterIndex, MASTER_ENTRY_SIZE,
};

fn entry(name: &str, fill: u8) -> MasterEntry {
    MasterEntry { symbol: name.to_string(), rest: vec![fill; 664] }
}

fn index() -> MasterIndex {
    MasterIndex {
        header: vec![1, 2, 3, 4, 5, 6, 7, 8],
        entries: vec![entry("AAPL", 1), entry("^GSPC", 2), entry("été", 3)],
    }
}

fn names(m: &MasterIndex) -> Vec<String> {
    m.entries.iter().map(|e| e.symbol.clone()).collect()
}

#[test]
fn missing_or_tiny_master_is_empty() {
    let m = parse_master(&[]);
    assert!(m.entries.is_empty());
    assert_eq!(m.header, vec![0u8; 8]);
    let m = parse_master(&[7u8; 11]);
    assert!(m.entries.is_empty());
}

#[test]
fn master_layout() {
    let bytes = write_master(&index());
    assert_eq!(bytes.len(), 12 + 3 * MASTER_ENTRY_SIZE);
    assert_eq!(&bytes[..8], &[1, 2, 3, 4, 5, 6, 7, 8]);
    assert_eq!(&bytes[8..12], &3u32.to_le_bytes());
    assert_eq!(&bytes[12..16], b"AAPL");
    assert!(bytes[16..12 + 508].iter().all(|&b| b == 0));
    assert!(bytes[12 + 508..12 + 1172].iter().all(|&b| b == 1));
}

#[test]
fn master_round_trip() {
    let m = index();
    let back = parse_master(&write_master(&m));
    assert_eq!(back.header, m.header);
    assert_eq!(names(&back), vec!["AAPL", "^GSPC", "été"]);
    assert_eq!(back.entries[2].rest, vec![3u8; 664]);
}

#[test]
fn write_twice_is_identical() {
    let m = index();
    let first = write_master(&m);
    let second = write_master(&m);
    assert_eq!(first, second);
    let again = write_master(&parse_master(&first));
    assert_eq!(again, first);
}

#[test]
fn declared_count_limits_entries() {
    let mut bytes = write_master(&index());
    bytes[8..12].copy_from_slice(&2u32.to_le_bytes());
    assert_eq!(names(&parse_master(&bytes)), vec!["AAPL", "^GSPC"]);
}

#[test]
fn truncated_entry_is_dropped() {
    let bytes = write_master(&index());
    let cut = &bytes[..bytes.len() - 1];
    assert_eq!(names(&parse_master(cut)), vec!["AAPL", "^GSPC"]);
}

#[test]
fn name_without_terminator_uses_whole_field() {
    let long = "x".repeat(492);
    let m = MasterIndex { header: vec![0; 8], entries: vec![entry(&long, 0)] };
    assert_eq!(names(&parse_master(&write_master(&m))), vec![long]);
}

#[test]
fn invalid_utf8_name_is_replaced() {
    let mut bytes = write_master(&index());
    bytes[12] = 0xFF;
    assert_eq!(names(&parse_master(&bytes))[0], "\u{FFFD}APL");
}

#[test]
fn fit_cuts_and_pads() {
    assert_eq!(fit_bytes(&[1, 2, 3], 2), vec![1, 2]);
    assert_eq!(fit_bytes(&[1, 2, 3], 5), vec![1, 2, 3, 0, 0]);
    assert_eq!(fit_bytes(&[], 0), Vec::<u8>::new());
}
