//! Decimal numbers: writing them, padded or not, and reading them back.
use vstd::prelude::*;

use crate::text::{bytes_of, string_of};
use vstd::utf8::encode_utf8;

verus! {

/// The character of a decimal digit.
pub open spec fn digit_char(d: nat) -> char {
    (48 + d) as char
}

/// A number in decimal, without leading zeros.
pub open spec fn decimal_text(n: nat) -> Seq<char>
    decreases n,
{
    if n < 10 {
        seq![digit_char(n)]
    } else {
        decimal_text(n / 10).push(digit_char(n % 10))
    }
}

/// A number in decimal with a minus sign before a negative one.
pub open spec fn signed_text(n: int) -> Seq<char> {
    if n < 0 {
        seq!['-'] + decimal_text((-n) as nat)
    } else {
        decimal_text(n as nat)
    }
}

/// The last `width` decimal digits of a number, with zeros before them where the
/// number is shorter.
pub open spec fn padded_bytes(n: nat, width: nat) -> Seq<u8>
    decreases width,
{
    if width == 0 {
        Seq::empty()
    } else {
        padded_bytes(n / 10, (width - 1) as nat).push((48 + n % 10) as u8)
    }
}

/// Ten to the power of `width`.
pub open spec fn ten_to(width: nat) -> nat
    decreases width,
{
    if width == 0 {
        1
    } else {
        10 * ten_to((width - 1) as nat)
    }
}

/// Whether every byte is an ASCII decimal digit.
pub open spec fn all_digits(s: Seq<u8>) -> bool {
    forall|i: int| 0 <= i < s.len() ==> 48 <= #[trigger] s[i] <= 57
}

/// The number that a row of decimal digits stands for.
pub open spec fn digits_value(s: Seq<u8>) -> nat
    decreases s.len(),
{
    if s.len() == 0 {
        0
    } else {
        digits_value(s.drop_last()) * 10 + (s.last() - 48) as nat
    }
}

/// `s` without a leading plus sign.
pub open spec fn without_plus(s: Seq<u8>) -> Seq<u8> {
    if s.len() > 0 && s[0] == 43 {
        s.skip(1)
    } else {
        s
    }
}

/// The unsigned number that `s` writes: an optional plus sign and at least one
/// digit, with a value of at most `max`.
pub open spec fn unsigned_value(s: Seq<u8>, max: nat) -> Option<nat> {
    let digits = without_plus(s);
    if digits.len() > 0 && all_digits(digits) && digits_value(digits) <= max {
        Some(digits_value(digits))
    } else {
        None
    }
}

/// The signed 64 bit number that `s` writes: as an unsigned one, or a minus sign
/// and at least one digit.
pub open spec fn signed_value(s: Seq<u8>) -> Option<int> {
    if s.len() > 0 && s[0] == 45 {
        let digits = s.skip(1);
        if digits.len() > 0 && all_digits(digits) && digits_value(digits) <= 0x8000_0000_0000_0000 {
            Some(-(digits_value(digits) as int))
        } else {
            None
        }
    } else {
        match unsigned_value(s, 0x7fff_ffff_ffff_ffff) {
            Some(n) => Some(n as int),
            None => None,
        }
    }
}

/// More digits make no smaller number.
proof fn lemma_prefix_value(s: Seq<u8>, k: int)
    requires
        0 <= k <= s.len(),
        all_digits(s),
    ensures
        digits_value(s.take(k)) <= digits_value(s),
    decreases s.len() - k,
{
    if k < s.len() {
        lemma_prefix_value(s, k + 1);
        assert(s.take(k + 1).drop_last() =~= s.take(k));
    } else {
        assert(s.take(k) =~= s);
    }
}

/// The value of a row of digits where it is at most `max`, else `None`.
fn read_digits(s: &[u8], from: usize, max: u64) -> (r: Option<u64>)
    requires
        from <= s@.len(),
    ensures
        ({
            let digits = s@.skip(from as int);
            match r {
                Some(n) => all_digits(digits) && digits.len() > 0 && digits_value(digits) == n && n
                    <= max,
                None => !(all_digits(digits) && digits.len() > 0 && digits_value(digits) <= max),
            }
        }),
{
    let ghost digits = s@.skip(from as int);
    if from == s.len() {
        return None;
    }
    let mut value: u64 = 0;
    let mut i: usize = from;
    assert(digits.take(0) =~= Seq::empty());
    while i < s.len()
        invariant
            from <= i <= s@.len(),
            digits == s@.skip(from as int),
            value <= max,
            value == digits_value(digits.take(i - from)),
            all_digits(digits.take(i - from)),
        decreases s@.len() - i,
    {
        let b: u8 = s[i];
        let ghost k = i - from;
        assert(digits[k] == b);
        if b < 48 || b > 57 {
            return None;
        }
        let wide: u128 = value as u128 * 10 + (b - 48) as u128;
        proof {
            assert(digits.take(k + 1).drop_last() =~= digits.take(k));
            assert(digits.take(k + 1).last() == b);
            assert forall|j: int| 0 <= j < k + 1 implies 48 <= #[trigger] digits.take(
                k + 1,
            )[j] <= 57 by {
                if j < k {
                    assert(digits.take(k)[j] == digits[j]);
                }
            }
        }
        if wide > max as u128 {
            proof {
                if all_digits(digits) {
                    lemma_prefix_value(digits, k + 1);
                }
            }
            return None;
        }
        value = wide as u64;
        i += 1;
    }
    assert(digits.take(i - from) =~= digits);
    Some(value)
}

/// The unsigned number that the bytes write, where it is at most `max`.
pub fn parse_unsigned(s: &[u8], max: u64) -> (r: Option<u64>)
    ensures
        match r {
            Some(n) => unsigned_value(s@, max as nat) == Some(n as nat),
            None => unsigned_value(s@, max as nat) is None,
        },
{
    let from: usize = if s.len() > 0 && s[0] == 43 {
        1
    } else {
        0
    };
    assert(s@.skip(from as int) =~= without_plus(s@));
    read_digits(s, from, max)
}

/// The signed number that the bytes write.
pub fn parse_signed(s: &[u8]) -> (r: Option<i64>)
    ensures
        match r {
            Some(n) => signed_value(s@) == Some(n as int),
            None => signed_value(s@) is None,
        },
{
    if s.len() > 0 && s[0] == 45 {
        match read_digits(s, 1, 0x8000_0000_0000_0000) {
            Some(n) => if n == 0x8000_0000_0000_0000 {
                Some(i64::MIN)
            } else {
                Some(-(n as i64))
            },
            None => None,
        }
    } else {
        match parse_unsigned(s, 0x7fff_ffff_ffff_ffff) {
            Some(n) => Some(n as i64),
            None => None,
        }
    }
}

/// The decimal digits of a number.
pub fn decimal_chars(n: u64) -> (r: Vec<char>)
    ensures
        r@ == decimal_text(n as nat),
    decreases n,
{
    let mut out: Vec<char> = if n < 10 {
        Vec::new()
    } else {
        decimal_chars(n / 10)
    };
    let d: u8 = (n % 10) as u8;
    out.push((48 + d) as char);
    assert(n < 10 ==> out@ =~= decimal_text(n as nat));
    out
}

/// A number in decimal.
pub fn decimal(n: u64) -> (r: String)
    ensures
        r@ == decimal_text(n as nat),
{
    let out = decimal_chars(n);
    string_of(out.as_slice())
}

/// A signed number in decimal.
pub fn signed_decimal(n: i64) -> (r: String)
    ensures
        r@ == signed_text(n as int),
{
    if n < 0 {
        let magnitude: u64 = if n == i64::MIN {
            0x8000_0000_0000_0000
        } else {
            (-n) as u64
        };
        let digits = decimal_chars(magnitude);
        let mut out: Vec<char> = vec!['-'];
        assert(out@ =~= seq!['-']);
        crate::text::push_chars(&mut out, digits.as_slice());
        string_of(out.as_slice())
    } else {
        decimal(n as u64)
    }
}

/// The last `width` decimal digits of a number, padded with zeros.
pub fn padded(n: u64, width: usize) -> (r: Vec<u8>)
    ensures
        r@ == padded_bytes(n as nat, width as nat),
    decreases width,
{
    if width == 0 {
        Vec::new()
    } else {
        let mut out = padded(n / 10, width - 1);
        let d: u8 = (n % 10) as u8;
        out.push(48 + d);
        out
    }
}

/// A number written with enough digits reads back as itself.
pub proof fn padded_reads_back(n: nat, width: nat)
    requires
        n < ten_to(width),
    ensures
        padded_bytes(n, width).len() == width,
        all_digits(padded_bytes(n, width)),
        digits_value(padded_bytes(n, width)) == n,
    decreases width,
{
    if width > 0 {
        padded_reads_back(n / 10, (width - 1) as nat);
        let s = padded_bytes(n, width);
        let front = padded_bytes(n / 10, (width - 1) as nat);
        assert(s.drop_last() =~= front);
        assert forall|i: int| 0 <= i < s.len() implies 48 <= #[trigger] s[i] <= 57 by {
            if i < front.len() {
                assert(s[i] == front[i]);
            }
        }
    }
}

/// A number of at most 64 bits written with twenty digits reads back as itself.
pub proof fn padded_u64_reads_back(n: u64)
    ensures
        padded_bytes(n as nat, 20).len() == 20,
        unsigned_value(padded_bytes(n as nat, 20), u64::MAX as nat) == Some(n as nat),
{
    reveal_with_fuel(ten_to, 21);
    assert(ten_to(20) == 100_000_000_000_000_000_000nat);
    padded_reads_back(n as nat, 20);
    assert(padded_bytes(n as nat, 20)[0] != 43);
}

/// The bytes of a decimal number are its digits.
proof fn lemma_decimal_bytes(n: nat)
    ensures
        decimal_text(n).len() > 0,
        encode_utf8(decimal_text(n)).len() == decimal_text(n).len(),
        all_digits(encode_utf8(decimal_text(n))),
        digits_value(encode_utf8(decimal_text(n))) == n,
    decreases n,
{
    let t = decimal_text(n);
    lemma_digits_are_ascii(n);
    vstd::utf8::is_ascii_chars_encode_utf8(t);
    let b = encode_utf8(t);
    if n >= 10 {
        let u = decimal_text(n / 10);
        lemma_decimal_bytes(n / 10);
        lemma_digits_are_ascii(n / 10);
        vstd::utf8::is_ascii_chars_encode_utf8(u);
        assert(b.drop_last() =~= encode_utf8(u));
        assert(b.last() == (48 + n % 10) as u8);
        assert forall|i: int| 0 <= i < b.len() implies 48 <= #[trigger] b[i] <= 57 by {
            if i < u.len() {
                assert(b[i] == encode_utf8(u)[i]);
            }
        }
    } else {
        assert(b =~= seq![(48 + n) as u8]);
        assert(b.drop_last() =~= Seq::empty());
        assert(digits_value(b.drop_last()) == 0);
        assert(b.last() == (48 + n) as u8);
    }
}

proof fn lemma_digits_are_ascii(n: nat)
    ensures
        vstd::utf8::is_ascii_chars(decimal_text(n)),
    decreases n,
{
    if n >= 10 {
        lemma_digits_are_ascii(n / 10);
        let t = decimal_text(n);
        assert forall|i: int| 0 <= i < t.len() implies '\0' <= #[trigger] t[i] <= '\u{7f}' by {
            if i < t.len() - 1 {
                assert(t[i] == decimal_text(n / 10)[i]);
            }
        }
    }
}

/// A number written in decimal reads back as itself.
pub proof fn decimal_reads_back(n: u64)
    ensures
        unsigned_value(encode_utf8(decimal_text(n as nat)), u64::MAX as nat) == Some(n as nat),
{
    lemma_decimal_bytes(n as nat);
    assert(encode_utf8(decimal_text(n as nat))[0] != 43);
}

pub(crate) proof fn lemma_digits_are_digits(n: nat)
    ensures
        decimal_text(n).len() > 0,
        forall|i: int| 0 <= i < decimal_text(n).len() ==> '0' <= #[trigger] decimal_text(n)[i] <= '9',
    decreases n,
{
    if n >= 10 {
        lemma_digits_are_digits(n / 10);
        let t = decimal_text(n);
        assert forall|i: int| 0 <= i < t.len() implies '0' <= #[trigger] t[i] <= '9' by {
            if i < t.len() - 1 {
                assert(t[i] == decimal_text(n / 10)[i]);
            }
        }
    }
}

/// A signed number written in decimal reads back as itself, and is made of digits behind a
/// minus sign at most.
pub proof fn signed_reads_back(n: i64)
    ensures
        signed_value(encode_utf8(signed_text(n as int))) == Some(n as int),
        signed_text(n as int).len() > 0,
        forall|i: int|
            0 <= i < signed_text(n as int).len() ==> (#[trigger] signed_text(n as int)[i]) == '-'
                || '0' <= signed_text(n as int)[i] <= '9',
{
    if n < 0 {
        let m = (-(n as int)) as nat;
        let t = decimal_text(m);
        let whole = signed_text(n as int);
        lemma_digits_are_digits(m);
        lemma_decimal_bytes(m);
        lemma_digits_are_ascii(m);
        assert(whole =~= seq!['-'] + t);
        assert forall|i: int| 0 <= i < whole.len() implies '\0' <= #[trigger] whole[i]
            <= '\u{7f}' by {
            if i > 0 {
                assert(whole[i] == t[i - 1]);
            }
        }
        vstd::utf8::is_ascii_chars_encode_utf8(whole);
        vstd::utf8::is_ascii_chars_encode_utf8(t);
        let b = encode_utf8(whole);
        assert(b.skip(1) =~= encode_utf8(t));
        assert(b[0] == 45);
        assert forall|i: int| 0 <= i < whole.len() implies (#[trigger] whole[i]) == '-' || '0'
            <= whole[i] <= '9' by {
            if i > 0 {
                assert(whole[i] == t[i - 1]);
            }
        }
    } else {
        lemma_digits_are_digits(n as nat);
        lemma_decimal_bytes(n as nat);
        let b = encode_utf8(decimal_text(n as nat));
        assert(b[0] != 43 && b[0] != 45);
    }
}

/// The unsigned number that a text writes, where it is at most `max`.
pub fn parse_unsigned_text(s: &str, max: u64) -> (r: Option<u64>)
    ensures
        match r {
            Some(n) => unsigned_value(encode_utf8(s@), max as nat) == Some(n as nat),
            None => unsigned_value(encode_utf8(s@), max as nat) is None,
        },
{
    let b = bytes_of(s);
    parse_unsigned(b.as_slice(), max)
}

/// The signed number that a text writes.
pub fn parse_signed_text(s: &str) -> (r: Option<i64>)
    ensures
        match r {
            Some(n) => signed_value(encode_utf8(s@)) == Some(n as int),
            None => signed_value(encode_utf8(s@)) is None,
        },
{
    let b = bytes_of(s);
    parse_signed(b.as_slice())
}

} // verus!
