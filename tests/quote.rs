use rust_ami::quote::{
    append_bytes, decode_quote, encode_records, parse_symbol_entries, parse_symbol_file,
    quote_to_bytes, SYMBOL_ENTRY_SIZE, SYMBOL_HEADER_SIZE,
};
use rust_ami::{AmiError, Quote};

fn quote(year: u16, month: u8, day: u8, close: f32) -> Quote {
    Quote {
        day,
        month,
        year,
        hour: 10,
        minute: 20,
        second: 30,
        milli_sec: 400,
        micro_sec: 500,
        reserved: 3,
        future: 1,
        close: close.to_bits(),
        open: (close - 1.0).to_bits(),
        high: (close + 2.0).to_bits(),
        low: (close - 3.0).to_bits(),
        volume: 1000.0f32.to_bits(),
        aux1: 1.5f32.to_bits(),
        aux2: 2.5f32.to_bits(),
        terminator: 0,
    }
}

#[test]
fn record_round_trip() {
    let q = quote(2020, 6, 15, 101.25);
    let bytes = quote_to_bytes(&q);
    assert_eq!(bytes.len(), 40);
    assert_eq!(decode_quote(&bytes), Ok(q));
}

#[test]
fn record_puts_close_before_open() {
    let q = quote(2020, 1, 2, 50.0);
    let bytes = quote_to_bytes(&q);
    assert_eq!(&bytes[8..12], &50.0f32.to_le_bytes());
    assert_eq!(&bytes[12..16], &49.0f32.to_le_bytes());
    assert_eq!(&bytes[16..20], &52.0f32.to_le_bytes());
    assert_eq!(&bytes[20..24], &47.0f32.to_le_bytes());
    assert_eq!(&bytes[24..28], &1000.0f32.to_le_bytes());
    assert_eq!(&bytes[28..32], &1.5f32.to_le_bytes());
    assert_eq!(&bytes[32..36], &2.5f32.to_le_bytes());
    assert_eq!(&bytes[36..40], &[0, 0, 0, 0]);
}

#[test]
fn short_record_is_format_error() {
    assert_eq!(decode_quote(&[0u8; 39]), Err(AmiError::FormatError));
    assert!(decode_quote(&[0u8; 40]).is_ok());
}

#[test]
fn trailing_fragment_is_dropped() {
    let qs = vec![quote(2020, 1, 1, 10.0), quote(2020, 1, 2, 11.0)];
    let mut bytes = encode_records(&qs);
    assert_eq!(bytes.len(), 2 * SYMBOL_ENTRY_SIZE);
    bytes.extend_from_slice(&[1, 2, 3]);
    assert_eq!(parse_symbol_entries(&bytes), qs);
    assert_eq!(parse_symbol_entries(&[]), vec![]);
}

#[test]
fn short_symbol_file_is_format_error() {
    let r = parse_symbol_file(&vec![0u8; SYMBOL_HEADER_SIZE - 1]);
    assert_eq!(r.unwrap_err(), AmiError::FormatError);
}

#[test]
fn symbol_file_keeps_header() {
    let mut file: Vec<u8> = (0..SYMBOL_HEADER_SIZE).map(|i| (i % 251) as u8).collect();
    let qs = vec![quote(2019, 12, 31, 7.0)];
    file.extend_from_slice(&encode_records(&qs));
    let f = parse_symbol_file(&file).unwrap();
    assert_eq!(f.header, file[..SYMBOL_HEADER_SIZE].to_vec());
    assert_eq!(f.records, qs);
}

#[test]
fn append_to_fresh_file_reads_back() {
    let qs = vec![quote(2020, 1, 1, 1.0), quote(2020, 1, 2, 2.0), quote(2020, 1, 3, 3.0)];
    let file = append_bytes(0, &qs);
    assert_eq!(file.len(), SYMBOL_HEADER_SIZE + 3 * SYMBOL_ENTRY_SIZE);
    assert!(file[..SYMBOL_HEADER_SIZE].iter().all(|&b| b == 0));
    let f = parse_symbol_file(&file).unwrap();
    assert_eq!(f.records, qs);
}

#[test]
fn append_to_existing_file_adds_records_only() {
    let first = vec![quote(2020, 1, 1, 1.0)];
    let mut file = append_bytes(0, &first);
    let second = vec![quote(2020, 1, 2, 2.0)];
    let more = append_bytes(file.len(), &second);
    assert_eq!(more.len(), SYMBOL_ENTRY_SIZE);
    file.extend_from_slice(&more);
    let f = parse_symbol_file(&file).unwrap();
    assert_eq!(f.records, vec![first[0], second[0]]);
}

#[test]
fn append_to_short_file_completes_header() {
    let mut file = vec![9u8; 100];
    let qs = vec![quote(2021, 3, 4, 5.0)];
    let more = append_bytes(file.len(), &qs);
    assert_eq!(more.len(), SYMBOL_HEADER_SIZE - 100 + SYMBOL_ENTRY_SIZE);
    file.extend_from_slice(&more);
    assert_eq!(parse_symbol_file(&file).unwrap().records, qs);
}

#[test]
fn daily_quote_zeroes_time_fields() {
    let q = Quote::daily(2020, 1, 2, 1, 2, 3, 4, 5);
    assert_eq!((q.year, q.month, q.day), (2020, 1, 2));
    assert_eq!((q.open, q.high, q.low, q.close, q.volume), (1, 2, 3, 4, 5));
    assert_eq!((q.hour, q.minute, q.second, q.milli_sec, q.micro_sec), (0, 0, 0, 0, 0));
    assert_eq!((q.reserved, q.future, q.aux1, q.aux2, q.terminator), (0, 0, 0, 0, 0));
}
