use async_in_embedded::bcd::{from_bcd, to_bcd};
use async_in_embedded::blocking_clock::{write_frame, RTC_ADDR, START_REGISTER};
use async_in_embedded::calendar::DateTime;
use async_in_embedded::clock_serde::{deserialize, serialize};

fn dt(y: i32, mo: u32, d: u32, h: u32, mi: u32, s: u32) -> DateTime {
    DateTime::from_ymd_hms(y, mo, d, h, mi, s).unwrap()
}

#[test]
fn bcd_known_values() {
    assert_eq!(to_bcd(0), 0x00);
    assert_eq!(to_bcd(9), 0x09);
    assert_eq!(to_bcd(10), 0x10);
    assert_eq!(to_bcd(45), 0x45);
    assert_eq!(to_bcd(99), 0x99);
    assert_eq!(from_bcd(0x00), 0);
    assert_eq!(from_bcd(0x59), 59);
    assert_eq!(from_bcd(0x99), 99);
    // not valid BCD: each nibble is still weighted 10 and 1
    assert_eq!(from_bcd(0xFF), 165);
    assert_eq!(from_bcd(0x1A), 20);
}

#[test]
fn bcd_encoding_drops_what_does_not_fit() {
    // tens of 160 is 16, which does not fit in a nibble
    assert_eq!(to_bcd(160), 0x00);
    assert_eq!(to_bcd(255), 0x95);
}

#[test]
fn bcd_roundtrip_below_160() {
    for v in 0u8..160 {
        assert_eq!(from_bcd(to_bcd(v)), v);
    }
    assert_ne!(from_bcd(to_bcd(160)), 160);
}

#[test]
fn bcd_roundtrip_of_valid_bytes() {
    for hi in 0u8..10 {
        for lo in 0u8..10 {
            let b = (hi << 4) | lo;
            assert_eq!(to_bcd(from_bcd(b)), b);
        }
    }
}

#[test]
fn calendar_dates_follow_chrono() {
    assert!(DateTime::from_ymd_hms(2024, 2, 29, 0, 0, 0).is_some());
    assert!(DateTime::from_ymd_hms(2023, 2, 29, 0, 0, 0).is_none());
    assert!(DateTime::from_ymd_hms(2100, 2, 29, 0, 0, 0).is_none());
    assert!(DateTime::from_ymd_hms(2000, 2, 29, 0, 0, 0).is_some());
    assert!(DateTime::from_ymd_hms(2024, 4, 31, 0, 0, 0).is_none());
    assert!(DateTime::from_ymd_hms(2024, 12, 31, 23, 59, 59).is_some());
    assert!(DateTime::from_ymd_hms(2024, 13, 1, 0, 0, 0).is_none());
    assert!(DateTime::from_ymd_hms(2024, 0, 1, 0, 0, 0).is_none());
    assert!(DateTime::from_ymd_hms(2024, 1, 0, 0, 0, 0).is_none());
    assert!(DateTime::from_ymd_hms(262142, 12, 31, 0, 0, 0).is_some());
    assert!(DateTime::from_ymd_hms(262143, 1, 1, 0, 0, 0).is_none());
    assert!(DateTime::from_ymd_hms(-262143, 1, 1, 0, 0, 0).is_some());
    assert!(DateTime::from_ymd_hms(-262144, 12, 31, 0, 0, 0).is_none());
    assert!(DateTime::from_ymd_hms(2024, 1, 1, 24, 0, 0).is_none());
    assert!(DateTime::from_ymd_hms(2024, 1, 1, 0, 60, 0).is_none());
    assert!(DateTime::from_ymd_hms(2024, 1, 1, 0, 0, 60).is_none());
}

#[test]
fn calendar_getters() {
    let t = dt(2031, 7, 14, 9, 5, 33);
    assert_eq!(t.year(), 2031);
    assert_eq!(t.month(), 7);
    assert_eq!(t.day(), 14);
    assert_eq!(t.hour(), 9);
    assert_eq!(t.minute(), 5);
    assert_eq!(t.second(), 33);
}

#[test]
fn deserialize_register_image() {
    let regs = [0x45, 0x30, 0x12, 0x03, 0x29, 0x02, 0x24];
    assert_eq!(deserialize(&regs), Some(dt(2024, 2, 29, 12, 30, 45)));
}

#[test]
fn deserialize_ignores_flag_bits_and_weekday() {
    // clock-halt bit in seconds, mode bits in hours, any day of the week
    let regs = [0xC5, 0x30, 0xD2, 0x07, 0x29, 0x02, 0x24];
    assert_eq!(deserialize(&regs), Some(dt(2024, 2, 29, 12, 30, 45)));
}

#[test]
fn deserialize_rejects_missing_dates_and_times() {
    assert_eq!(deserialize(&[0x00, 0x00, 0x00, 0x00, 0x29, 0x02, 0x23]), None);
    assert_eq!(deserialize(&[0x00, 0x00, 0x00, 0x00, 0x01, 0x13, 0x23]), None);
    assert_eq!(deserialize(&[0x00, 0x00, 0x24, 0x00, 0x01, 0x01, 0x23]), None);
    assert_eq!(deserialize(&[0x60, 0x00, 0x00, 0x00, 0x01, 0x01, 0x23]), None);
    assert_eq!(deserialize(&[0x00, 0x60, 0x00, 0x00, 0x01, 0x01, 0x23]), None);
    assert_eq!(deserialize(&[0x00, 0x00, 0x00, 0x00, 0x00, 0x01, 0x23]), None);
}

#[test]
fn deserialize_reads_invalid_bcd_nibbles_as_weighted() {
    // year register 0xFF reads as 165
    assert_eq!(
        deserialize(&[0x00, 0x00, 0x00, 0x00, 0x01, 0x01, 0xFF]),
        Some(dt(2165, 1, 1, 0, 0, 0))
    );
}

#[test]
fn serialize_register_image() {
    let mut buf = [0xAA; 7];
    serialize(&dt(2024, 2, 29, 12, 30, 45), &mut buf);
    assert_eq!(buf, [0xC5, 0x30, 0x12, 0x00, 0x29, 0x02, 0x24]);
}

#[test]
fn serialize_wraps_years_outside_the_century() {
    let mut buf = [0; 7];
    serialize(&dt(1999, 1, 1, 0, 0, 0), &mut buf);
    // 1999 - 2000 = -1 wraps to 255, whose BCD byte keeps only 0x95
    assert_eq!(buf[6], 0x95);
    assert_eq!(deserialize(&buf), Some(dt(2095, 1, 1, 0, 0, 0)));
}

#[test]
fn write_then_read_gives_the_same_moment() {
    let samples = [
        dt(2000, 1, 1, 0, 0, 0),
        dt(2024, 2, 29, 23, 59, 59),
        dt(2099, 12, 31, 12, 0, 1),
        dt(2159, 6, 15, 7, 8, 9),
    ];
    for t in samples.iter() {
        let mut buf = [0; 7];
        serialize(t, &mut buf);
        assert_eq!(deserialize(&buf), Some(*t));
    }
}

#[test]
fn read_then_write_reproduces_the_image() {
    let regs = [0x17, 0x42, 0x08, 0x05, 0x31, 0x12, 0x37];
    let t = deserialize(&regs).unwrap();
    let mut buf = [0; 7];
    serialize(&t, &mut buf);
    assert_eq!(buf, [0x97, 0x42, 0x08, 0x00, 0x31, 0x12, 0x37]);
}

#[test]
fn write_frame_prefixes_the_register_number() {
    assert_eq!(RTC_ADDR, 0x68);
    assert_eq!(START_REGISTER, 0x00);
    let frame = write_frame(&dt(2024, 2, 29, 12, 30, 45));
    assert_eq!(frame, [0x00, 0xC5, 0x30, 0x12, 0x00, 0x29, 0x02, 0x24]);
}
