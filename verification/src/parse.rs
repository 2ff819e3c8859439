//! Decimal integers and booleans read from text, as `str::parse` reads them.

use vstd::prelude::*;

verus! {

/// Why a text is not an integer of the wanted type (as `IntErrorKind` tells).
#[derive(PartialEq, Eq, Structural, Debug, Clone, Copy)]
pub enum IntErrorKind {
    /// The text is empty.
    Empty,
    /// The text holds a character that is not a digit where one is needed.
    InvalidDigit,
    /// The number is too large for the type.
    PosOverflow,
    /// The number is too small for the type.
    NegOverflow,
}

/// The value of a decimal digit character.
pub open spec fn digit_value(c: char) -> int {
    (c as u32) - ('0' as u32)
}

/// A digit of base `radix` (at most ten).
pub open spec fn is_digit(c: char, radix: int) -> bool {
    '0' <= c && (c as u32) < ('0' as u32) + radix
}

/// Reads the digits `ds` after the value `acc` already read, one digit at a
/// time, adding (`neg` false) or subtracting digits, and failing at the
/// first character that is not a digit or the first value out of `min..=max`.
pub open spec fn read_digits(ds: Seq<char>, acc: int, neg: bool, min: int, max: int, radix: int) -> Result<
    int,
    IntErrorKind,
>
    decreases ds.len(),
{
    if ds.len() == 0 {
        Ok(acc)
    } else if !is_digit(ds[0], radix) {
        Err(IntErrorKind::InvalidDigit)
    } else {
        let next = if neg {
            acc * radix - digit_value(ds[0])
        } else {
            acc * radix + digit_value(ds[0])
        };
        if next > max {
            Err(IntErrorKind::PosOverflow)
        } else if next < min {
            Err(IntErrorKind::NegOverflow)
        } else {
            read_digits(ds.drop_first(), next, neg, min, max, radix)
        }
    }
}

/// The integer in `s` written in base `radix`, for a type with values
/// `min..=max` (signed when `min < 0`): an optional `+` (or `-` for a signed
/// type) and then digits, as `from_str_radix` reads it.
pub open spec fn parse_int_radix(s: Seq<char>, min: int, max: int, radix: int) -> Result<
    int,
    IntErrorKind,
> {
    if s.len() == 0 {
        Err(IntErrorKind::Empty)
    } else if (s[0] == '+' || s[0] == '-') && s.len() == 1 {
        Err(IntErrorKind::InvalidDigit)
    } else if s[0] == '+' {
        read_digits(s.drop_first(), 0, false, min, max, radix)
    } else if s[0] == '-' && min < 0 {
        read_digits(s.drop_first(), 0, true, min, max, radix)
    } else {
        read_digits(s, 0, false, min, max, radix)
    }
}

/// The decimal integer in `s`, as `str::parse` reads it.
pub open spec fn parse_int(s: Seq<char>, min: int, max: int) -> Result<int, IntErrorKind> {
    parse_int_radix(s, min, max, 10)
}

proof fn lemma_read_digits_step(ds: Seq<char>, i: int, acc: int, neg: bool, min: int, max: int, radix: int)
    requires
        0 <= i < ds.len(),
    ensures
        read_digits(ds.subrange(i, ds.len() as int), acc, neg, min, max, radix) == (if !is_digit(ds[i], radix) {
            Err(IntErrorKind::InvalidDigit)
        } else {
            let next = if neg {
                acc * radix - digit_value(ds[i])
            } else {
                acc * radix + digit_value(ds[i])
            };
            if next > max {
                Err(IntErrorKind::PosOverflow)
            } else if next < min {
                Err(IntErrorKind::NegOverflow)
            } else {
                read_digits(ds.subrange(i + 1, ds.len() as int), next, neg, min, max, radix)
            }
        }),
{
    let r = ds.subrange(i, ds.len() as int);
    assert(r[0] == ds[i]);
    assert(r.drop_first() =~= ds.subrange(i + 1, ds.len() as int));
}

/// Reads an integer in base `radix` of a type with values `min..=max` from `s`.
pub fn parse_integer(s: &str, min: i128, max: i128, radix: u32) -> (res: Result<i128, IntErrorKind>)
    requires
        -0x1_0000_0000_0000_0000 <= min <= 0 < max <= 0x1_0000_0000_0000_0000,
        2 <= radix <= 10,
    ensures
        match res {
            Ok(v) => parse_int_radix(s@, min as int, max as int, radix as int) == Ok::<int, IntErrorKind>(v as int),
            Err(e) => parse_int_radix(s@, min as int, max as int, radix as int) == Err::<int, IntErrorKind>(e),
        },
        res matches Ok(v) ==> min <= v <= max,
{
    let n = s.unicode_len();
    if n == 0 {
        return Err(IntErrorKind::Empty);
    }
    let first = s.get_char(0);
    if (first == '+' || first == '-') && n == 1 {
        return Err(IntErrorKind::InvalidDigit);
    }
    let mut neg = false;
    let mut i: usize = 0;
    if first == '+' {
        i = 1;
    } else if first == '-' && min < 0 {
        neg = true;
        i = 1;
    }
    let ghost ds = s@.subrange(i as int, s@.len() as int);
    proof {
        assert(s@.drop_first() =~= s@.subrange(1, s@.len() as int));
        assert(s@ =~= s@.subrange(0, s@.len() as int));
    }
    let mut acc: i128 = 0;
    while i < n
        invariant
            n == s@.len(),
            0 <= i <= n,
            min <= acc <= max,
            -0x1_0000_0000_0000_0000 <= min <= 0 < max <= 0x1_0000_0000_0000_0000,
            2 <= radix <= 10,
            parse_int_radix(s@, min as int, max as int, radix as int) == read_digits(
                s@.subrange(i as int, s@.len() as int),
                acc as int,
                neg,
                min as int,
                max as int,
                radix as int,
            ),
        decreases n - i,
    {
        let c = s.get_char(i);
        proof {
            lemma_read_digits_step(s@, i as int, acc as int, neg, min as int, max as int, radix as int);
        }
        if !('0' <= c && (c as u32) < ('0' as u32) + radix) {
            return Err(IntErrorKind::InvalidDigit);
        }
        let d = (c as u32 - '0' as u32) as i128;
        assert(-0xA_0000_0000_0000_0000 <= acc * (radix as int) <= 0xA_0000_0000_0000_0000)
            by (nonlinear_arith)
            requires
                -0x1_0000_0000_0000_0000 <= acc <= 0x1_0000_0000_0000_0000,
                2 <= radix <= 10,
        ;
        let next = if neg {
            acc * (radix as i128) - d
        } else {
            acc * (radix as i128) + d
        };
        if next > max {
            return Err(IntErrorKind::PosOverflow);
        }
        if next < min {
            return Err(IntErrorKind::NegOverflow);
        }
        acc = next;
        i = i + 1;
    }
    proof {
        assert(s@.subrange(i as int, s@.len() as int) =~= Seq::<char>::empty());
    }
    Ok(acc)
}

/// Reads an `i32` as `str::parse::<i32>` does.
pub fn parse_i32(s: &str) -> (res: Result<i32, IntErrorKind>)
    ensures
        match res {
            Ok(v) => parse_int(s@, i32::MIN as int, i32::MAX as int) == Ok::<int, IntErrorKind>(v as int),
            Err(e) => parse_int(s@, i32::MIN as int, i32::MAX as int) == Err::<int, IntErrorKind>(e),
        },
{
    match parse_integer(s, i32::MIN as i128, i32::MAX as i128, 10) {
        Ok(v) => Ok(v as i32),
        Err(e) => Err(e),
    }
}

/// Reads an `i64` as `str::parse::<i64>` does.
pub fn parse_i64(s: &str) -> (res: Result<i64, IntErrorKind>)
    ensures
        match res {
            Ok(v) => parse_int(s@, i64::MIN as int, i64::MAX as int) == Ok::<int, IntErrorKind>(v as int),
            Err(e) => parse_int(s@, i64::MIN as int, i64::MAX as int) == Err::<int, IntErrorKind>(e),
        },
{
    match parse_integer(s, i64::MIN as i128, i64::MAX as i128, 10) {
        Ok(v) => Ok(v as i64),
        Err(e) => Err(e),
    }
}

/// Reads a `u32` as `str::parse::<u32>` does.
pub fn parse_u32(s: &str) -> (res: Result<u32, IntErrorKind>)
    ensures
        match res {
            Ok(v) => parse_int(s@, 0, u32::MAX as int) == Ok::<int, IntErrorKind>(v as int),
            Err(e) => parse_int(s@, 0, u32::MAX as int) == Err::<int, IntErrorKind>(e),
        },
{
    match parse_integer(s, 0, u32::MAX as i128, 10) {
        Ok(v) => Ok(v as u32),
        Err(e) => Err(e),
    }
}

/// Reads a `u64` as `str::parse::<u64>` does.
pub fn parse_u64(s: &str) -> (res: Result<u64, IntErrorKind>)
    ensures
        match res {
            Ok(v) => parse_int(s@, 0, u64::MAX as int) == Ok::<int, IntErrorKind>(v as int),
            Err(e) => parse_int(s@, 0, u64::MAX as int) == Err::<int, IntErrorKind>(e),
        },
{
    match parse_integer(s, 0, u64::MAX as i128, 10) {
        Ok(v) => Ok(v as u64),
        Err(e) => Err(e),
    }
}

/// Reads a `usize` as `str::parse::<usize>` does.
pub fn parse_usize(s: &str) -> (res: Result<usize, IntErrorKind>)
    ensures
        match res {
            Ok(v) => parse_int(s@, 0, usize::MAX as int) == Ok::<int, IntErrorKind>(v as int),
            Err(e) => parse_int(s@, 0, usize::MAX as int) == Err::<int, IntErrorKind>(e),
        },
{
    match parse_integer(s, 0, usize::MAX as i128, 10) {
        Ok(v) => Ok(v as usize),
        Err(e) => Err(e),
    }
}

/// Reads a `bool` as `str::parse::<bool>` does: exactly `true` or `false`.
pub fn parse_bool(s: &str) -> (res: Option<bool>)
    ensures
        res == (if s@ == "true"@ {
            Some(true)
        } else if s@ == "false"@ {
            Some(false)
        } else {
            None::<bool>
        }),
{
    if crate::text::str_eq(s, "true") {
        Some(true)
    } else if crate::text::str_eq(s, "false") {
        Some(false)
    } else {
        None
    }
}

/// Reads a `u32` written in octal, as `u32::from_str_radix(s, 8)` does.
pub fn parse_u32_octal(s: &str) -> (res: Result<u32, IntErrorKind>)
    ensures
        match res {
            Ok(v) => parse_int_radix(s@, 0, u32::MAX as int, 8) == Ok::<int, IntErrorKind>(v as int),
            Err(e) => parse_int_radix(s@, 0, u32::MAX as int, 8) == Err::<int, IntErrorKind>(e),
        },
{
    match parse_integer(s, 0, u32::MAX as i128, 8) {
        Ok(v) => Ok(v as u32),
        Err(e) => Err(e),
    }
}

/// The digits of `n` in base `radix` (2 to 10), most significant first,
/// without leading zeros: what `Display` and `{:o}` write.
pub open spec fn radix_digits(n: nat, radix: nat) -> Seq<char>
    decreases n,
{
    if radix < 2 || n < radix {
        seq![digit_char(n)]
    } else {
        proof {
            assert(n / radix < n) by (nonlinear_arith)
                requires
                    radix >= 2,
                    n >= radix,
            ;
        }
        radix_digits(n / radix, radix) + seq![digit_char(n % radix)]
    }
}

/// The decimal digits of `n`, as `Display` writes them.
pub open spec fn decimal(n: nat) -> Seq<char> {
    radix_digits(n, 10)
}

/// The octal digits of `n`, as the `{:o}` format writes them.
pub open spec fn octal(n: nat) -> Seq<char> {
    radix_digits(n, 8)
}

/// The character of a digit below ten.
pub open spec fn digit_char(d: nat) -> char {
    (('0' as u32) + d) as char
}

/// Writes `n` in base `radix`.
pub fn u64_in_radix(n: u64, radix: u64) -> (s: String)
    requires
        2 <= radix <= 10,
    ensures
        s@ == radix_digits(n as nat, radix as nat),
{
    let mut digits: Vec<char> = Vec::new();
    let mut m = n;
    while m >= radix
        invariant
            2 <= radix <= 10,
            radix_digits(n as nat, radix as nat) == radix_digits(m as nat, radix as nat)
                + digits@.reverse(),
        decreases m,
    {
        let d = (m % radix) as u32;
        let c = char_from_digit(d);
        proof {
            assert(radix_digits(m as nat, radix as nat) == radix_digits((m / radix) as nat, radix as nat)
                + seq![digit_char((m % radix) as nat)]);
            assert(digits@.push(c).reverse() =~= seq![c] + digits@.reverse());
        }
        digits.push(c);
        m = m / radix;
    }
    let mut s = String::new();
    let c = char_from_digit(m as u32);
    crate::text::string_push(&mut s, c);
    proof {
        assert(s@ =~= radix_digits(m as nat, radix as nat));
    }
    let mut i = digits.len();
    while i > 0
        invariant
            i <= digits@.len(),
            radix_digits(n as nat, radix as nat) == radix_digits(m as nat, radix as nat)
                + digits@.reverse(),
            s@ == radix_digits(m as nat, radix as nat) + digits@.reverse().subrange(0, digits@.len() - i),
        decreases i,
    {
        i = i - 1;
        crate::text::string_push(&mut s, digits[i]);
        proof {
            assert(digits@.reverse()[digits@.len() - 1 - i] == digits@[i as int]);
            assert(digits@.reverse().subrange(0, digits@.len() - i) =~= digits@.reverse().subrange(
                0,
                digits@.len() - i - 1,
            ).push(digits@[i as int]));
        }
    }
    proof {
        assert(digits@.reverse().subrange(0, digits@.len() as int) =~= digits@.reverse());
    }
    s
}

/// Writes `n` in decimal.
pub fn u64_to_decimal(n: u64) -> (s: String)
    ensures
        s@ == decimal(n as nat),
{
    u64_in_radix(n, 10)
}

/// Writes a byte in octal, as the splitting tool prints each byte it reads.
pub fn byte_to_octal(b: u8) -> (s: String)
    ensures
        s@ == octal(b as nat),
{
    u64_in_radix(b as u64, 8)
}

fn char_from_digit(d: u32) -> (c: char)
    requires
        d < 10,
    ensures
        c == digit_char(d as nat),
{
    if d == 0 { '0' } else if d == 1 { '1' } else if d == 2 { '2' } else if d == 3 { '3' }
    else if d == 4 { '4' } else if d == 5 { '5' } else if d == 6 { '6' } else if d == 7 { '7' }
    else if d == 8 { '8' } else { '9' }
}

proof fn lemma_read_decimal(n: nat, rest: Seq<char>, min: int, max: int)
    requires
        min <= 0,
        n <= max,
    ensures
        read_digits(decimal(n) + rest, 0, false, min, max, 10) == read_digits(rest, n as int, false, min, max, 10),
    decreases n,
{
    let ds = decimal(n) + rest;
    if n < 10 {
        assert(decimal(n) == seq![digit_char(n)]);
        assert(ds[0] == digit_char(n));
        assert(ds.drop_first() =~= rest);
    } else {
        let q = n / 10;
        let d = n % 10;
        assert(q * 10 + d == n && q < n) by (nonlinear_arith)
            requires
                q == n / 10,
                d == n % 10,
                n >= 10,
        ;
        assert(decimal(n) == decimal(q) + seq![digit_char(d)]);
        assert(ds =~= decimal(q) + (seq![digit_char(d)] + rest));
        lemma_read_decimal(q, seq![digit_char(d)] + rest, min, max);
        let tail = seq![digit_char(d)] + rest;
        assert(tail[0] == digit_char(d));
        assert(tail.drop_first() =~= rest);
    }
}

/// An unsigned number written in decimal reads back as itself, for any
/// type whose values reach it.
pub proof fn law_decimal_reads_back(n: nat, min: int, max: int)
    requires
        min <= 0,
        n <= max,
    ensures
        parse_int(decimal(n), min, max) == Ok::<int, IntErrorKind>(n as int),
{
    lemma_read_decimal(n, Seq::empty(), min, max);
    assert(decimal(n) + Seq::<char>::empty() =~= decimal(n));
    let s = decimal(n);
    if n < 10 {
        assert(s[0] == digit_char(n));
    } else {
        assert(s == decimal(n / 10) + seq![digit_char(n % 10)]);
        lemma_decimal_first_digit(n);
    }
}

pub proof fn lemma_decimal_nonempty(n: nat)
    ensures
        decimal(n).len() > 0,
{
    lemma_decimal_first_digit(n);
}

proof fn lemma_decimal_first_digit(n: nat)
    ensures
        decimal(n).len() > 0,
        is_digit(decimal(n)[0], 10),
    decreases n,
{
    if n >= 10 {
        assert(n / 10 < n) by (nonlinear_arith)
            requires
                n >= 10,
        ;
        lemma_decimal_first_digit(n / 10);
        assert(decimal(n) == decimal(n / 10) + seq![digit_char(n % 10)]);
        assert(decimal(n)[0] == decimal(n / 10)[0]);
    }
}

/// Reading the decimal digits of `n`, added (or subtracted when `neg`),
/// gives `n` (or `-n`) when that fits in `min..=max`, and otherwise the
/// overflow on that side, whatever follows.
proof fn lemma_read_decimal_signed(n: nat, rest: Seq<char>, neg: bool, min: int, max: int)
    requires
        min <= 0 <= max,
    ensures
        ({
            let v = if neg { -(n as int) } else { n as int };
            let r = read_digits(decimal(n) + rest, 0, neg, min, max, 10);
            &&& min <= v <= max ==> r == read_digits(rest, v, neg, min, max, 10)
            &&& v > max ==> r == Err::<int, IntErrorKind>(IntErrorKind::PosOverflow)
            &&& v < min ==> r == Err::<int, IntErrorKind>(IntErrorKind::NegOverflow)
        }),
    decreases n,
{
    let ds = decimal(n) + rest;
    if n < 10 {
        assert(decimal(n) == seq![digit_char(n)]);
        assert(ds[0] == digit_char(n));
        assert(ds.drop_first() =~= rest);
    } else {
        let q = n / 10;
        let d = n % 10;
        assert(q * 10 + d == n && q < n && q >= 1) by (nonlinear_arith)
            requires
                q == n / 10,
                d == n % 10,
                n >= 10,
        ;
        assert(decimal(n) == decimal(q) + seq![digit_char(d)]);
        let tail = seq![digit_char(d)] + rest;
        assert(ds =~= decimal(q) + tail);
        lemma_read_decimal_signed(q, tail, neg, min, max);
        assert(tail[0] == digit_char(d));
        assert(tail.drop_first() =~= rest);
        let vq = if neg { -(q as int) } else { q as int };
        if neg {
            assert(-(n as int) <= -(q as int));
        } else {
            assert(n as int >= q as int);
        }
    }
}

/// A number written in decimal after a sign reads back: with `+` as itself,
/// with `-` as its negation for a signed type; out of the type's range it is
/// an overflow on that side. An empty text is empty, and a sign alone has
/// no digit.
pub proof fn law_signed_numbers_read_back(n: nat, min: int, max: int)
    requires
        min <= 0 <= max,
    ensures
        n <= max ==> parse_int(seq!['+'] + decimal(n), min, max) == Ok::<int, IntErrorKind>(n as int),
        n > max ==> parse_int(decimal(n), min, max) == Err::<int, IntErrorKind>(IntErrorKind::PosOverflow),
        min < 0 && -(n as int) >= min ==> parse_int(seq!['-'] + decimal(n), min, max) == Ok::<int, IntErrorKind>(
            -(n as int),
        ),
        min < 0 && -(n as int) < min ==> parse_int(seq!['-'] + decimal(n), min, max) == Err::<int, IntErrorKind>(
            IntErrorKind::NegOverflow,
        ),
        parse_int(Seq::<char>::empty(), min, max) == Err::<int, IntErrorKind>(IntErrorKind::Empty),
        parse_int(seq!['-'], min, max) == Err::<int, IntErrorKind>(IntErrorKind::InvalidDigit),
        parse_int(seq!['+'], min, max) == Err::<int, IntErrorKind>(IntErrorKind::InvalidDigit),
{
    lemma_decimal_first_digit(n);
    lemma_read_decimal_signed(n, Seq::empty(), false, min, max);
    lemma_read_decimal_signed(n, Seq::empty(), true, min, max);
    let dn = decimal(n);
    assert(dn + Seq::<char>::empty() =~= dn);
    assert(dn[0] != '+' && dn[0] != '-');
    let p = seq!['+'] + dn;
    let m = seq!['-'] + dn;
    assert(p.drop_first() =~= dn);
    assert(m.drop_first() =~= dn);
    assert(p[0] == '+' && m[0] == '-' && p.len() > 1 && m.len() > 1);
}

} // verus!
