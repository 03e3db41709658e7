use rust_ami::bitparser::{encode_date, pack_date, read_u32_le, unpack_date, write_u32_le};
use rust_ami::{date_to_bin, read_date, reverse_bits, Date};

fn sample_date() -> Date {
    Date {
        year: 2021,
        month: 7,
        day: 15,
        hour: 13,
        minute: 45,
        second: 30,
        milli_sec: 999,
        micro_sec: 512,
        reserved: 5,
        is_future: 1,
    }
}

#[test]
fn reverse_bits_swaps_ends() {
    assert_eq!(reverse_bits(0b0000_0001), 0b1000_0000);
    assert_eq!(reverse_bits(0b1011_0000), 0b0000_1101);
    assert_eq!(reverse_bits(0xFF), 0xFF);
    assert_eq!(reverse_bits(0), 0);
    for b in 0..=255u8 {
        assert_eq!(reverse_bits(b), b.reverse_bits());
    }
}

#[test]
fn packed_word_layout() {
    let d = Date {
        year: 1,
        month: 1,
        day: 1,
        hour: 1,
        minute: 1,
        second: 1,
        milli_sec: 1,
        micro_sec: 1,
        reserved: 1,
        is_future: 1,
    };
    let expected: u64 = (1 << 52)
        | (1 << 48)
        | (1 << 43)
        | (1 << 38)
        | (1 << 32)
        | (1 << 26)
        | (1 << 16)
        | (1 << 6)
        | (1 << 1)
        | 1;
    assert_eq!(pack_date(&d), expected);
    assert_eq!(unpack_date(expected), d);
}

#[test]
fn timestamp_round_trip() {
    let d = sample_date();
    let bytes = encode_date(&d);
    assert_eq!(bytes.len(), 8);
    assert_eq!(read_date(&bytes), Some(d));
    let max = Date {
        year: 4095,
        month: 15,
        day: 31,
        hour: 31,
        minute: 63,
        second: 63,
        milli_sec: 1023,
        micro_sec: 1023,
        reserved: 7,
        is_future: 1,
    };
    assert_eq!(read_date(&encode_date(&max)), Some(max));
    // bits 4 and 5 of the word belong to no field
    assert_eq!(encode_date(&max), vec![0xCF, 0xFF, 0xFF, 0xFF, 0xFF, 0xFF, 0xFF, 0xFF]);
}

#[test]
fn read_date_of_known_bytes() {
    let word: u64 = (2020u64 << 52) | (1 << 48) | (2 << 43);
    let d = read_date(&word.to_le_bytes()).unwrap();
    assert_eq!((d.year, d.month, d.day), (2020, 1, 2));
    assert_eq!((d.hour, d.minute, d.second), (0, 0, 0));
    assert_eq!((d.milli_sec, d.micro_sec, d.reserved, d.is_future), (0, 0, 0, 0));
}

#[test]
fn read_date_needs_eight_bytes() {
    assert_eq!(read_date(&[0u8; 7]), None);
    assert_eq!(read_date(&[]), None);
    let mut long = vec![0u8; 12];
    long[6] = 0x10;
    assert_eq!(read_date(&long).unwrap().year, 1);
}

#[test]
fn date_to_bin_leaves_flags_clear() {
    let bytes = date_to_bin(2, 1, 2020, 9, 30, 15, 7, 250);
    let d = read_date(&bytes).unwrap();
    assert_eq!(d.year, 2020);
    assert_eq!(d.month, 1);
    assert_eq!(d.day, 2);
    assert_eq!(d.hour, 9);
    assert_eq!(d.minute, 30);
    assert_eq!(d.second, 15);
    assert_eq!(d.micro_sec, 7);
    assert_eq!(d.milli_sec, 250);
    assert_eq!(d.reserved, 0);
    assert_eq!(d.is_future, 0);
}

#[test]
fn out_of_range_field_spills_into_neighbour() {
    let mut d = Date::default();
    d.month = 16;
    let back = read_date(&encode_date(&d)).unwrap();
    assert_eq!(back.month, 0);
    assert_eq!(back.year, 1);
}

#[test]
fn float_bits_little_endian() {
    let bits = 102.5f32.to_bits();
    let bytes = write_u32_le(bits);
    assert_eq!(bytes, 102.5f32.to_le_bytes());
    assert_eq!(read_u32_le(&bytes), Some(bits));
    assert_eq!(f32::from_bits(read_u32_le(&bytes).unwrap()), 102.5);
    assert_eq!(read_u32_le(&bytes[..3]), None);
}
