//! The seven time-keeping registers of the real-time clock, in BCD:
//! seconds (bit 7 is the clock-halt flag), minutes, hours (24-hour mode, bits
//! 6 and 7 are mode flags), day of the week, day of the month, month, and the
//! year within the century starting at 2000.
use vstd::prelude::*;
use crate::bcd::{
    bcd_byte, bcd_value, from_bcd, is_bcd, lemma_bcd_byte_digits, lemma_bcd_byte_then_value,
    lemma_bcd_value_digits, lemma_bcd_value_then_byte, to_bcd,
};
use crate::calendar::{DateTime, DateTimeView};

verus! {

/// The date and time that the register image `regs` spells out, whether or
/// not it exists: the flag bits of the seconds and hours registers are
/// dropped and the day-of-the-week register is not read.
pub open spec fn register_fields(regs: Seq<u8>) -> DateTimeView {
    DateTimeView {
        year: 2000 + bcd_value(regs[6] as int),
        month: bcd_value(regs[5] as int),
        day: bcd_value(regs[4] as int),
        hour: bcd_value((regs[2] % 64) as int),
        minute: bcd_value(regs[1] as int),
        second: bcd_value((regs[0] % 128) as int),
    }
}

/// The date and time held in the register image `regs`, or `None` where the
/// registers name a date or a time of day that does not exist.
pub open spec fn decode_registers(regs: Seq<u8>) -> Option<DateTimeView> {
    let t = register_fields(regs);
    if t.is_valid() {
        Some(t)
    } else {
        None
    }
}

/// The register image written for `t`: each field in BCD, the clock-halt bit
/// of the seconds register set, the day of the week zero, and the year as
/// its distance from 2000 taken modulo 256.
pub open spec fn encode_registers(t: DateTimeView) -> Seq<u8> {
    seq![
        (bcd_byte(t.second) + 0x80) as u8,
        bcd_byte(t.minute) as u8,
        bcd_byte(t.hour) as u8,
        0u8,
        bcd_byte(t.day) as u8,
        bcd_byte(t.month) as u8,
        bcd_byte((t.year - 2000) % 256) as u8,
    ]
}

/// Reads the date and time out of the seven clock registers; `None` where
/// they name a date or a time of day that does not exist.
pub fn deserialize(binary: &[u8; 7]) -> (r: Option<DateTime>)
    ensures
        r is Some <==> decode_registers(binary@) is Some,
        r matches Some(t) ==> decode_registers(binary@) == Some(t@),
{
    let b0 = binary[0];
    let b2 = binary[2];
    let seconds_digits: u8 = b0 & 0x7F;
    let hours_digits: u8 = b2 & 0x3F;
    assert(seconds_digits == b0 % 128 && hours_digits == b2 % 64) by (bit_vector)
        requires
            seconds_digits == b0 & 0x7F,
            hours_digits == b2 & 0x3F,
    ;
    let year: i32 = (from_bcd(binary[6]) as i32) + 2000;
    let month: u32 = from_bcd(binary[5]) as u32;
    let day: u32 = from_bcd(binary[4]) as u32;
    let hour: u32 = from_bcd(hours_digits) as u32;
    let minute: u32 = from_bcd(binary[1]) as u32;
    let second: u32 = from_bcd(seconds_digits) as u32;
    DateTime::from_ymd_hms(year, month, day, hour, minute, second)
}

/// Writes `datetime` into the seven clock registers.
pub fn serialize(datetime: &DateTime, buffer: &mut [u8; 7])
    ensures
        final(buffer)@ == encode_registers(datetime@),
{
    let second = datetime.second();
    let minute = datetime.minute();
    let hour = datetime.hour();
    let day = datetime.day();
    let month = datetime.month();
    let year = datetime.year();

    let s: u8 = to_bcd(second as u8);
    assert(s == bcd_byte(second as int) && s < 0x60) by {
        lemma_bcd_byte_then_value(second as int);
    }
    let s_flagged: u8 = s | 0x80;
    assert(s_flagged == s + 0x80) by (bit_vector)
        requires
            s < 0x60,
            s_flagged == s | 0x80,
    ;
    buffer[0] = s_flagged;

    buffer[1] = to_bcd(minute as u8);

    let h: u8 = to_bcd(hour as u8);
    assert(h == bcd_byte(hour as int) && h < 0x40) by {
        lemma_bcd_byte_then_value(hour as int);
    }
    let h_masked: u8 = h & 0x3F;
    assert(h_masked == h) by (bit_vector)
        requires
            h < 0x40,
            h_masked == h & 0x3F,
    ;
    buffer[2] = h_masked;
    buffer[3] = 0;
    buffer[4] = to_bcd(day as u8);
    buffer[5] = to_bcd(month as u8);

    let offset: i32 = year - 2000;
    let wrapped: u8 = offset as u8;
    assert(wrapped == offset % 256) by (bit_vector)
        requires
            wrapped == offset as u8,
    ;
    buffer[6] = to_bcd(wrapped);
    assert(buffer@ =~= encode_registers(datetime@));
}

proof fn lemma_plain_register(v: int)
    requires
        0 <= v < 160,
    ensures
        bcd_value((bcd_byte(v) as u8) as int) == v,
{
    lemma_bcd_byte_then_value(v);
}

proof fn lemma_seconds_register(v: int)
    requires
        0 <= v < 60,
    ensures
        bcd_value((((bcd_byte(v) + 0x80) as u8) % 128) as int) == v,
{
    lemma_bcd_byte_then_value(v);
    let s = bcd_byte(v);
    assert(0 <= s < 0x60);
    let b = (s + 0x80) as u8;
    assert(b as int == s + 0x80);
    assert((b % 128) as int == s);
}

proof fn lemma_hours_register(v: int)
    requires
        0 <= v < 24,
    ensures
        bcd_value((((bcd_byte(v)) as u8) % 64) as int) == v,
{
    lemma_bcd_byte_then_value(v);
    let h = bcd_byte(v);
    assert(0 <= h < 0x40);
    let b = h as u8;
    assert(b as int == h);
    assert((b % 64) as int == h);
}

#[verifier::spinoff_prover]
proof fn lemma_fields_of_encoding(t: DateTimeView)
    requires
        0 <= t.second < 60,
        0 <= t.minute < 60,
        0 <= t.hour < 24,
        1 <= t.day <= 31,
        1 <= t.month <= 12,
        2000 <= t.year < 2160,
    ensures
        register_fields(encode_registers(t)) == t,
{
    let regs = encode_registers(t);
    lemma_seconds_register(t.second);
    lemma_hours_register(t.hour);
    lemma_plain_register(t.minute);
    lemma_plain_register(t.day);
    lemma_plain_register(t.month);
    assert((t.year - 2000) % 256 == t.year - 2000);
    lemma_plain_register(t.year - 2000);
    assert(regs[0] == (bcd_byte(t.second) + 0x80) as u8);
    assert(regs[1] == bcd_byte(t.minute) as u8);
    assert(regs[2] == bcd_byte(t.hour) as u8);
    assert(regs[4] == bcd_byte(t.day) as u8);
    assert(regs[5] == bcd_byte(t.month) as u8);
    assert(regs[6] == bcd_byte(t.year - 2000) as u8);
    let f = register_fields(regs);
    assert(f.second == t.second);
    assert(f.hour == t.hour);
    assert(f.minute == t.minute);
    assert(f.day == t.day);
    assert(f.month == t.month);
    assert(f.year == t.year);
}

/// Writing a date and time whose year lies in 2000 to 2159 into the
/// registers and reading them back gives the same date and time.
pub proof fn lemma_write_then_read(t: DateTimeView)
    requires
        t.is_valid(),
        2000 <= t.year < 2160,
    ensures
        decode_registers(encode_registers(t)) == Some(t),
{
    assert(1 <= t.day <= 31);
    lemma_fields_of_encoding(t);
}

/// Reading a register image whose fields are all valid BCD and writing the
/// date and time back reproduces the image, but for the clock-halt bit (set),
/// the mode bits of the hours register (cleared) and the day of the week
/// (zero).
pub proof fn lemma_read_then_write(regs: Seq<u8>)
    requires
        regs.len() == 7,
        decode_registers(regs) is Some,
        is_bcd((regs[0] % 128) as int),
        is_bcd(regs[1] as int),
        is_bcd((regs[2] % 64) as int),
        is_bcd(regs[4] as int),
        is_bcd(regs[5] as int),
        is_bcd(regs[6] as int),
    ensures
        encode_registers(decode_registers(regs)->0) == seq![
            ((regs[0] % 128) as int + 0x80) as u8,
            regs[1],
            (regs[2] % 64) as u8,
            0u8,
            regs[4],
            regs[5],
            regs[6],
        ],
{
    let t = register_fields(regs);
    assert(decode_registers(regs)->0 == t);
    let v0 = (regs[0] % 128) as int;
    let v2 = (regs[2] % 64) as int;
    lemma_bcd_value_then_byte(v0);
    lemma_bcd_value_then_byte(regs[1] as int);
    lemma_bcd_value_then_byte(v2);
    lemma_bcd_value_then_byte(regs[4] as int);
    lemma_bcd_value_then_byte(regs[5] as int);
    lemma_bcd_value_then_byte(regs[6] as int);
    assert(t.second == bcd_value(v0));
    assert(bcd_byte(t.second) == v0);
    assert(bcd_byte(t.hour) == v2);
    assert(bcd_byte(t.minute) == regs[1]);
    assert(bcd_byte(t.day) == regs[4]);
    assert(bcd_byte(t.month) == regs[5]);
    assert((t.year - 2000) % 256 == bcd_value(regs[6] as int));
    assert(bcd_byte((t.year - 2000) % 256) == regs[6]);
    let e = encode_registers(t);
    assert(e[0] == (v0 + 0x80) as u8);
    assert(e =~= seq![
        ((regs[0] % 128) as int + 0x80) as u8,
        regs[1],
        (regs[2] % 64) as u8,
        0u8,
        regs[4],
        regs[5],
        regs[6],
    ]);
}

/// The register map of a write: register 0 holds the seconds' tens and units
/// in its two nibbles with bit 7 set, register 1 the minutes, register 2 the
/// hours (bits 6 and 7 clear), register 3 (day of the week) zero, register 4
/// the day of the month, register 5 the month, and register 6 the year's
/// distance from 2000 taken modulo 256 (its tens modulo 16 in the high nibble).
pub proof fn lemma_register_map(t: DateTimeView)
    requires
        t.is_valid(),
    ensures
        encode_registers(t).len() == 7,
        encode_registers(t)[0] >= 0x80,
        (encode_registers(t)[0] - 0x80) / 16 == t.second / 10,
        (encode_registers(t)[0] - 0x80) % 16 == t.second % 10,
        encode_registers(t)[1] / 16 == t.minute / 10,
        encode_registers(t)[1] % 16 == t.minute % 10,
        encode_registers(t)[2] < 0x40,
        encode_registers(t)[2] / 16 == t.hour / 10,
        encode_registers(t)[2] % 16 == t.hour % 10,
        encode_registers(t)[3] == 0,
        encode_registers(t)[4] / 16 == t.day / 10,
        encode_registers(t)[4] % 16 == t.day % 10,
        encode_registers(t)[5] / 16 == t.month / 10,
        encode_registers(t)[5] % 16 == t.month % 10,
        encode_registers(t)[6] / 16 == ((t.year - 2000) % 256) / 10 % 16,
        encode_registers(t)[6] % 16 == ((t.year - 2000) % 256) % 10,
{
    let r = encode_registers(t);
    lemma_bcd_byte_digits(t.second);
    lemma_bcd_byte_digits(t.minute);
    lemma_bcd_byte_digits(t.hour);
    lemma_bcd_byte_digits(t.day);
    lemma_bcd_byte_digits(t.month);
    lemma_bcd_byte_digits((t.year - 2000) % 256);
    lemma_bcd_byte_then_value(t.second);
    lemma_bcd_byte_then_value(t.hour);
    assert(bcd_byte(t.second) < 0x60);
    assert(bcd_byte(t.hour) < 0x30);
    assert(r[0] as int == bcd_byte(t.second) + 0x80);
    assert(r[1] as int == bcd_byte(t.minute));
    assert(r[2] as int == bcd_byte(t.hour));
    assert(r[4] as int == bcd_byte(t.day));
    assert(r[5] as int == bcd_byte(t.month));
    assert(r[6] as int == bcd_byte((t.year - 2000) % 256));
}

/// The register map of a read: each field is its register read as two
/// decimal digits, high nibble times ten plus low nibble, with bit 7 of the
/// seconds register and bits 6 and 7 of the hours register ignored and the
/// year counted from 2000; the read succeeds exactly when these fields make
/// a date and time that exists.
pub proof fn lemma_register_fields(regs: Seq<u8>)
    requires
        regs.len() == 7,
    ensures
        ({
            let s = (regs[0] % 128) as int;
            let h = (regs[2] % 64) as int;
            let t = DateTimeView {
                year: 2000 + 10 * (regs[6] / 16) + regs[6] % 16,
                month: 10 * (regs[5] / 16) + regs[5] % 16,
                day: 10 * (regs[4] / 16) + regs[4] % 16,
                hour: 10 * (h / 16) + h % 16,
                minute: 10 * (regs[1] / 16) + regs[1] % 16,
                second: 10 * (s / 16) + s % 16,
            };
            decode_registers(regs) == if t.is_valid() {
                Some(t)
            } else {
                None
            }
        }),
{
    lemma_bcd_value_digits((regs[0] % 128) as int);
    lemma_bcd_value_digits(regs[1] as int);
    lemma_bcd_value_digits((regs[2] % 64) as int);
    lemma_bcd_value_digits(regs[4] as int);
    lemma_bcd_value_digits(regs[5] as int);
    lemma_bcd_value_digits(regs[6] as int);
}

} // verus!
