use rust_ami::csv::{parse_csv, parse_date, CsvRow};
use rust_ami::text::{parse_decimal, split_bytes, split_lines};
use rust_ami::Quote;

fn price(text: &[u8]) -> u32 {
    std::str::from_utf8(text).unwrap().parse::<f32>().unwrap_or(0.0).to_bits()
}

fn to_quote(r: &CsvRow) -> Quote {
    Quote::daily(
        r.year,
        r.month,
        r.day,
        price(&r.open),
        price(&r.high),
        price(&r.low),
        price(&r.close),
        price(&r.volume),
    )
}

#[test]
fn csv_row_maps_to_daily_record() {
    let text = b"Date,Open,High,Low,Close,Volume\n2020-01-02,100.0,105.0,99.0,102.0,1000\n";
    let rows = parse_csv(text);
    assert_eq!(rows.len(), 1);
    let q = to_quote(&rows[0]);
    assert_eq!((q.year, q.month, q.day), (2020, 1, 2));
    assert_eq!(f32::from_bits(q.open), 100.0);
    assert_eq!(f32::from_bits(q.high), 105.0);
    assert_eq!(f32::from_bits(q.low), 99.0);
    assert_eq!(f32::from_bits(q.close), 102.0);
    assert_eq!(f32::from_bits(q.volume), 1000.0);
    assert_eq!((q.hour, q.minute, q.second, q.milli_sec, q.micro_sec), (0, 0, 0, 0, 0));
    assert_eq!((q.aux1, q.aux2, q.terminator, q.reserved, q.future), (0, 0, 0, 0, 0));
}

#[test]
fn csv_skips_header_and_malformed_rows() {
    let text = b"2000-01-01,1,1,1,1,1\n\
2020-01-02,1,2,3,4,5\n\
2020-01-03,1,2,3,4\n\
2020/01/04,1,2,3,4,5\n\
2020-xx-05,1,2,3,4,5\n\
2020-01-06,6,7,8,9,10";
    let rows = parse_csv(text);
    let days: Vec<u8> = rows.iter().map(|r| r.day).collect();
    assert_eq!(days, vec![2, 6]);
    assert_eq!(rows[1].volume, b"10".to_vec());
}

#[test]
fn csv_volume_after_extra_column() {
    let text = b"h\n2020-01-02,1,2,3,4,99.5,777\n";
    let rows = parse_csv(text);
    assert_eq!(rows[0].close, b"4".to_vec());
    assert_eq!(rows[0].volume, b"777".to_vec());
}

#[test]
fn csv_handles_crlf_and_empty_input() {
    let rows = parse_csv(b"h\r\n2021-12-31,1,2,3,4,5\r\n");
    assert_eq!(rows.len(), 1);
    assert_eq!(rows[0].volume, b"5".to_vec());
    assert!(parse_csv(b"").is_empty());
    assert!(parse_csv(b"only a header\n").is_empty());
}

#[test]
fn dates_parse_strictly() {
    assert_eq!(parse_date("2020-01-02"), Some((2020, 1, 2)));
    assert_eq!(parse_date("+2020-+1-02"), Some((2020, 1, 2)));
    assert_eq!(parse_date("2020-01"), None);
    assert_eq!(parse_date("2020-01-02-03"), None);
    assert_eq!(parse_date("2020-256-01"), None);
    assert_eq!(parse_date("65536-01-01"), None);
    assert_eq!(parse_date("2020--1-01"), None);
    assert_eq!(parse_date(""), None);
}

#[test]
fn decimals_read_like_std() {
    for s in ["0", "7", "+42", "65535", "65536", "", "+", "-1", "1a", " 1", "0001"] {
        let expected = s.parse::<u16>().ok().map(|v| v as u32);
        assert_eq!(parse_decimal(s.as_bytes(), 65535), expected, "{}", s);
    }
    assert_eq!(parse_decimal(b"4294967295", u32::MAX), Some(u32::MAX));
    assert_eq!(parse_decimal(b"4294967296", u32::MAX), None);
}

#[test]
fn splitting_bytes_and_lines() {
    assert_eq!(split_bytes(b"a,,b", b','), vec![b"a".to_vec(), vec![], b"b".to_vec()]);
    assert_eq!(split_bytes(b"", b','), vec![Vec::<u8>::new()]);
    for text in ["", "a", "a\n", "a\n\nb", "\n", "a\r\nb\r", "x\r\r\ny\n"] {
        let expected: Vec<Vec<u8>> = text.lines().map(|l| l.as_bytes().to_vec()).collect();
        assert_eq!(split_lines(text.as_bytes()), expected, "{:?}", text);
    }
}
