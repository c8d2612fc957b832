//! Reading build-time settings given as optional text.
use vstd::prelude::*;
use vstd::string::StringSliceAdditionalSpecFns;
use crate::statistics::decimal;

verus! {

/// The ASCII bytes of the word `true`.
pub open spec fn true_bytes() -> Seq<u8> {
    seq![0x74u8, 0x72u8, 0x75u8, 0x65u8]
}

/// `b` is an ASCII decimal digit.
pub open spec fn is_digit(b: u8) -> bool {
    0x30 <= b <= 0x39
}

/// The number that the decimal digits `s` spell, most significant first.
pub open spec fn digits_value(s: Seq<u8>) -> int
    decreases s.len(),
{
    if s.len() == 0 {
        0
    } else {
        digits_value(s.drop_last()) * 10 + (s.last() - 0x30)
    }
}

/// The digits of a number written with an optional leading `+`.
pub open spec fn unsigned_digits(s: Seq<u8>) -> Seq<u8> {
    if s.len() > 0 && s[0] == 0x2b {
        s.drop_first()
    } else {
        s
    }
}

/// The `u32` that the text `s` spells as an optional `+` followed by one or
/// more decimal digits, or `None` where `s` has another form or names a
/// number above `u32::MAX` (the text form that `str::parse::<u32>` accepts).
pub open spec fn decimal_u32(s: Seq<u8>) -> Option<u32> {
    let d = unsigned_digits(s);
    if d.len() > 0 && (forall|i: int| 0 <= i < d.len() ==> is_digit(#[trigger] d[i])) && digits_value(
        d,
    ) <= u32::MAX {
        Some(digits_value(d) as u32)
    } else {
        None
    }
}

/// `true` exactly when the setting is given and is the text `true`.
pub fn parse_bool(input: Option<&str>) -> (r: bool)
    ensures
        r == (input matches Some(s) && s.spec_bytes() == true_bytes()),
{
    match input {
        Some(inp) => {
            let bytes = inp.as_bytes();
            let r = bytes.len() == 4 && bytes[0] == 0x74 && bytes[1] == 0x72 && bytes[2] == 0x75
                && bytes[3] == 0x65;
            assert(r ==> bytes@ =~= true_bytes());
            r
        },
        None => false,
    }
}

proof fn lemma_digits_value_grows(s: Seq<u8>, i: int)
    requires
        0 <= i <= s.len(),
        forall|k: int| 0 <= k < s.len() ==> is_digit(#[trigger] s[k]),
    ensures
        digits_value(s.take(i)) <= digits_value(s),
        0 <= digits_value(s.take(i)),
    decreases s.len() - i,
{
    if i == s.len() {
        assert(s.take(i) =~= s);
        lemma_digits_value_nonneg(s);
    } else {
        lemma_digits_value_grows(s, i + 1);
        assert(s.take(i + 1).drop_last() =~= s.take(i));
        lemma_digits_value_nonneg(s.take(i));
    }
}

proof fn lemma_digits_value_nonneg(s: Seq<u8>)
    requires
        forall|k: int| 0 <= k < s.len() ==> is_digit(#[trigger] s[k]),
    ensures
        0 <= digits_value(s),
    decreases s.len(),
{
    if s.len() > 0 {
        lemma_digits_value_nonneg(s.drop_last());
    }
}

/// The number that the setting spells (see `decimal_u32`), or 0 where it is
/// not given or is not such a number.
pub fn parse_u32(input: Option<&str>) -> (r: u32)
    ensures
        r == match input {
            Some(s) => match decimal_u32(s.spec_bytes()) {
                Some(v) => v,
                None => 0u32,
            },
            None => 0u32,
        },
{
    let s = match input {
        Some(s) => s,
        None => return 0,
    };
    let bytes = s.as_bytes();
    let ghost text = s.spec_bytes();
    let start: usize = if bytes.len() > 0 && bytes[0] == 0x2b {
        1
    } else {
        0
    };
    let ghost d = unsigned_digits(text);
    assert(d =~= bytes@.skip(start as int));
    if start >= bytes.len() {
        return 0;
    }
    let mut i: usize = start;
    while i < bytes.len()
        invariant
            start <= i <= bytes.len(),
            bytes@ == text,
            d == text.skip(start as int),
            d == unsigned_digits(text),
            text == s.spec_bytes(),
            input == Some(s),
            forall|k: int| start <= k < i ==> is_digit(#[trigger] bytes@[k]),
        decreases bytes.len() - i,
    {
        if bytes[i] < 0x30 || bytes[i] > 0x39 {
            assert(d[i - start] == bytes@[i as int]);
            assert(!is_digit(d[i - start]));
            return 0;
        }
        i = i + 1;
    }
    assert(forall|k: int| 0 <= k < d.len() ==> is_digit(#[trigger] d[k])) by {
        assert forall|k: int| 0 <= k < d.len() implies is_digit(#[trigger] d[k]) by {
            assert(d[k] == bytes@[k + start]);
        }
    }
    let mut value: u64 = 0;
    let mut j: usize = start;
    while j < bytes.len()
        invariant
            start <= j <= bytes.len(),
            bytes@ == text,
            d == text.skip(start as int),
            d == unsigned_digits(text),
            text == s.spec_bytes(),
            input == Some(s),
            forall|k: int| 0 <= k < d.len() ==> is_digit(#[trigger] d[k]),
            value == digits_value(d.take(j - start)),
            value <= u32::MAX,
        decreases bytes.len() - j,
    {
        assert(d.take(j - start + 1).drop_last() =~= d.take(j - start));
        assert(d.take(j - start + 1).last() == bytes@[j as int]);
        value = value * 10 + (bytes[j] - 0x30) as u64;
        j = j + 1;
        assert(value == digits_value(d.take(j - start)));
        if value > 0xFFFF_FFFF {
            proof {
                lemma_digits_value_grows(d, j - start);
            }
            return 0;
        }
    }
    assert(d.take(d.len() as int) =~= d);
    value as u32
}

/// `a` is the text of the number `n` as written without sign or leading
/// zeros: one or more decimal digits that read as `n`, the first not `0`
/// unless it is the only one.
pub open spec fn is_number_text(a: Seq<u8>, n: int) -> bool {
    &&& a.len() >= 1
    &&& forall|i: int| 0 <= i < a.len() ==> is_digit(#[trigger] a[i])
    &&& digits_value(a) == n
    &&& (a.len() == 1 || a[0] != 0x30)
}

/// Printing a number in decimal gives the text of the number: its digits
/// read back as the number and there is no leading zero.
pub proof fn lemma_decimal_is_number_text(n: nat)
    ensures
        is_number_text(decimal(n), n as int),
    decreases n,
{
    let d = decimal(n);
    if n >= 10 {
        lemma_decimal_is_number_text(n / 10);
        let p = decimal(n / 10);
        assert(d == p.push((0x30 + n % 10) as u8));
        assert(d.drop_last() =~= p);
        assert(d.last() == (0x30 + n % 10) as u8);
        assert(digits_value(p) == n / 10);
        assert(digits_value(d) == digits_value(p) * 10 + (d.last() - 0x30));
        assert(digits_value(d) == n);
        assert(d[0] == p[0]);
        if p.len() == 1 {
            assert(p.drop_last() =~= Seq::<u8>::empty());
            assert(p.last() == p[0]);
            assert(digits_value(p) == digits_value(p.drop_last()) * 10 + (p.last() - 0x30));
            assert(digits_value(p) == p[0] - 0x30);
            assert(p[0] != 0x30);
        }
        assert forall|i: int| 0 <= i < d.len() implies is_digit(#[trigger] d[i]) by {
            if i < p.len() {
                assert(d[i] == p[i]);
            }
        }
    } else {
        assert(d == seq![(0x30 + n) as u8]);
        assert(d.drop_last() =~= Seq::<u8>::empty());
        assert(digits_value(d) == digits_value(d.drop_last()) * 10 + (d.last() - 0x30));
    }
}

proof fn lemma_leading_zero(d: Seq<u8>)
    ensures
        digits_value(seq![0x30u8] + d) == digits_value(d),
    decreases d.len(),
{
    let z = seq![0x30u8] + d;
    if d.len() > 0 {
        lemma_leading_zero(d.drop_last());
        assert(z.drop_last() =~= seq![0x30u8] + d.drop_last());
        assert(z.last() == d.last());
        assert(digits_value(z) == digits_value(z.drop_last()) * 10 + (z.last() - 0x30));
    } else {
        assert(z.drop_last() =~= Seq::<u8>::empty());
        assert(z.last() == 0x30u8);
        assert(digits_value(z) == digits_value(z.drop_last()) * 10 + (z.last() - 0x30));
        assert(d =~= Seq::<u8>::empty());
    }
}

/// Parsing the decimal text of any number gives the number where it fits in
/// `u32` and nothing where it does not; a leading `+` or a leading zero does
/// not change the result.
pub proof fn lemma_parse_reads_decimal(n: nat)
    ensures
        n <= u32::MAX ==> decimal_u32(decimal(n)) == Some(n as u32),
        n > u32::MAX ==> decimal_u32(decimal(n)) is None,
        decimal_u32(seq![0x2bu8] + decimal(n)) == decimal_u32(decimal(n)),
        decimal_u32(seq![0x30u8] + decimal(n)) == decimal_u32(decimal(n)),
{
    lemma_decimal_is_number_text(n);
    let d = decimal(n);
    assert(unsigned_digits(d) == d);
    assert(unsigned_digits(seq![0x2bu8] + d) =~= d);
    let z = seq![0x30u8] + d;
    lemma_leading_zero(d);
    assert(unsigned_digits(z) == z);
    assert forall|i: int| 0 <= i < z.len() implies is_digit(#[trigger] z[i]) by {
        if i > 0 {
            assert(z[i] == d[i - 1]);
        }
    }
}

/// Text that is empty, or that holds a byte other than a decimal digit
/// anywhere but a leading `+`, is not a number.
pub proof fn lemma_parse_rejects_non_digits(s: Seq<u8>, i: int)
    requires
        0 <= i < s.len(),
        !is_digit(s[i]),
        i > 0 || s[i] != 0x2b,
    ensures
        decimal_u32(s) is None,
        decimal_u32(Seq::empty()) is None,
{
    let d = unsigned_digits(s);
    if s[0] == 0x2b {
        assert(i > 0);
        assert(d[i - 1] == s[i]);
    } else {
        assert(d[i] == s[i]);
    }
}

} // verus!
