//! Decimal numbers written as characters, read the way `str::parse` reads them.
use vstd::prelude::*;

verus! {

/// Why a text is not a number of the asked type.
#[derive(Clone, Copy, Debug, PartialEq, Eq, Structural)]
pub enum IntErrorKind {
    /// The text is empty.
    Empty,
    /// The text holds a character that is not a digit where a digit is needed.
    InvalidDigit,
    /// The number is greater than the largest value of the type.
    PosOverflow,
    /// The number is less than the smallest value of the type.
    NegOverflow,
}

/// Whether `c` is one of the ASCII digits `0` to `9`.
pub open spec fn is_digit(c: char) -> bool {
    '0' <= c && c <= '9'
}

/// The value of the ASCII digit `c`.
pub open spec fn digit_value(c: char) -> nat {
    (c as int - '0' as int) as nat
}

/// Reads `s` digit by digit from the left, as `str::parse` does: the first character that is
/// not a digit gives `InvalidDigit`, and the first digit after which the value passes `limit`
/// gives `over`.
pub open spec fn fold_digits(s: Seq<char>, limit: nat, over: IntErrorKind) -> Result<
    nat,
    IntErrorKind,
>
    decreases s.len(),
{
    if s.len() == 0 {
        Ok(0)
    } else {
        match fold_digits(s.drop_last(), limit, over) {
            Err(e) => Err(e),
            Ok(acc) => if !is_digit(s.last()) {
                Err(IntErrorKind::InvalidDigit)
            } else if acc * 10 + digit_value(s.last()) > limit {
                Err(over)
            } else {
                Ok(acc * 10 + digit_value(s.last()))
            },
        }
    }
}

/// What `s.parse::<usize>()` gives: an optional `+`, then decimal digits.
pub open spec fn spec_parse_usize(s: Seq<char>) -> Result<nat, IntErrorKind> {
    if s.len() == 0 {
        Err(IntErrorKind::Empty)
    } else if (s[0] == '+' || s[0] == '-') && s.len() == 1 {
        Err(IntErrorKind::InvalidDigit)
    } else if s[0] == '+' {
        fold_digits(s.drop_first(), usize::MAX as nat, IntErrorKind::PosOverflow)
    } else {
        fold_digits(s, usize::MAX as nat, IntErrorKind::PosOverflow)
    }
}

/// What `s.parse::<i32>()` gives: an optional sign, then decimal digits.
pub open spec fn spec_parse_i32(s: Seq<char>) -> Result<int, IntErrorKind> {
    if s.len() == 0 {
        Err(IntErrorKind::Empty)
    } else if (s[0] == '+' || s[0] == '-') && s.len() == 1 {
        Err(IntErrorKind::InvalidDigit)
    } else if s[0] == '-' {
        match fold_digits(s.drop_first(), 0x8000_0000, IntErrorKind::NegOverflow) {
            Ok(v) => Ok(-v),
            Err(e) => Err(e),
        }
    } else if s[0] == '+' {
        match fold_digits(s.drop_first(), i32::MAX as nat, IntErrorKind::PosOverflow) {
            Ok(v) => Ok(v as int),
            Err(e) => Err(e),
        }
    } else {
        match fold_digits(s, i32::MAX as nat, IntErrorKind::PosOverflow) {
            Ok(v) => Ok(v as int),
            Err(e) => Err(e),
        }
    }
}

/// The value of a sequence of digits, without bound.
pub open spec fn decimal_value(s: Seq<char>) -> nat
    decreases s.len(),
{
    if s.len() == 0 {
        0
    } else {
        decimal_value(s.drop_last()) * 10 + digit_value(s.last())
    }
}

/// Whether every character of `s` is a digit.
pub open spec fn all_digits(s: Seq<char>) -> bool {
    forall|i: int| 0 <= i < s.len() ==> is_digit(#[trigger] s[i])
}

/// Digits that stay within the limit read as their decimal value.
pub proof fn lemma_fold_digits_value(s: Seq<char>, limit: nat, over: IntErrorKind)
    requires
        all_digits(s),
    ensures
        decimal_value(s) <= limit ==> fold_digits(s, limit, over) == Ok::<nat, IntErrorKind>(
            decimal_value(s),
        ),
        decimal_value(s) > limit ==> fold_digits(s, limit, over) == Err::<nat, IntErrorKind>(over),
    decreases s.len(),
{
    if s.len() > 0 {
        lemma_fold_digits_value(s.drop_last(), limit, over);
        assert(is_digit(s[s.len() - 1]));
    }
}

/// Reads `digits` from the left, stopping at `limit`, as [`fold_digits`] says.
fn fold_digits_exec(digits: &[char], start: usize, limit: u64, over: IntErrorKind) -> (r: Result<
    u64,
    IntErrorKind,
>)
    requires
        start <= digits@.len(),
        limit >= 9,
    ensures
        match fold_digits(digits@.skip(start as int), limit as nat, over) {
            Ok(v) => r == Ok::<u64, IntErrorKind>(v as u64),
            Err(e) => r == Err::<u64, IntErrorKind>(e),
        },
{
    let mut acc: u64 = 0;
    let mut i: usize = start;
    while i < digits.len()
        invariant
            start <= i <= digits@.len(),
            limit >= 9,
            acc <= limit,
            fold_digits(digits@.subrange(start as int, i as int), limit as nat, over) == Ok::<
                nat,
                IntErrorKind,
            >(acc as nat),
        decreases digits@.len() - i,
    {
        let c = digits[i];
        assert(digits@.subrange(start as int, i + 1).drop_last() == digits@.subrange(
            start as int,
            i as int,
        ));
        proof {
            assert(digits@.skip(start as int).take((i - start + 1) as int) == digits@.subrange(
                start as int,
                i + 1,
            ));
        }
        if !('0' <= c && c <= '9') {
            proof {
                lemma_fold_error_persists(
                    digits@.skip(start as int),
                    (i - start + 1) as int,
                    limit as nat,
                    over,
                );
            }
            return Err(IntErrorKind::InvalidDigit);
        }
        let d: u64 = (c as u32 - '0' as u32) as u64;
        if acc > (limit - d) / 10 {
            proof {
                assert(acc * 10 + d > limit) by (nonlinear_arith)
                    requires
                        acc > (limit - d) / 10,
                        d <= limit,
                ;
                lemma_fold_error_persists(
                    digits@.skip(start as int),
                    (i - start + 1) as int,
                    limit as nat,
                    over,
                );
            }
            return Err(over);
        }
        assert(acc * 10 + d <= limit) by (nonlinear_arith)
            requires
                acc <= (limit - d) / 10,
                d <= 9,
                limit >= 9,
        ;
        acc = acc * 10 + d;
        i = i + 1;
    }
    assert(digits@.subrange(start as int, digits@.len() as int) == digits@.skip(start as int));
    Ok(acc)
}

/// Once a prefix of `s` fails to read, `s` fails with the same error.
proof fn lemma_fold_error_persists(s: Seq<char>, n: int, limit: nat, over: IntErrorKind)
    requires
        0 <= n <= s.len(),
        fold_digits(s.take(n), limit, over) is Err,
    ensures
        fold_digits(s, limit, over) == fold_digits(s.take(n), limit, over),
    decreases s.len() - n,
{
    if n < s.len() {
        assert(s.take(n + 1).drop_last() == s.take(n));
        lemma_fold_error_persists(s, n + 1, limit, over);
    } else {
        assert(s.take(n) == s);
    }
}

/// Reads a `usize` as `s.parse::<usize>()` does.
pub fn parse_usize(s: &[char]) -> (r: Result<usize, IntErrorKind>)
    ensures
        match spec_parse_usize(s@) {
            Ok(v) => r == Ok::<usize, IntErrorKind>(v as usize),
            Err(e) => r == Err::<usize, IntErrorKind>(e),
        },
{
    if s.len() == 0 {
        return Err(IntErrorKind::Empty);
    }
    if (s[0] == '+' || s[0] == '-') && s.len() == 1 {
        return Err(IntErrorKind::InvalidDigit);
    }
    let start: usize = if s[0] == '+' { 1 } else { 0 };
    proof {
        assert(s@.skip(1) == s@.drop_first());
        assert(s@.skip(0) == s@);
    }
    match fold_digits_exec(s, start, usize::MAX as u64, IntErrorKind::PosOverflow) {
        Ok(v) => Ok(v as usize),
        Err(e) => Err(e),
    }
}

/// Reads an `i32` as `s.parse::<i32>()` does.
pub fn parse_i32(s: &[char]) -> (r: Result<i32, IntErrorKind>)
    ensures
        match spec_parse_i32(s@) {
            Ok(v) => r == Ok::<i32, IntErrorKind>(v as i32),
            Err(e) => r == Err::<i32, IntErrorKind>(e),
        },
{
    if s.len() == 0 {
        return Err(IntErrorKind::Empty);
    }
    if (s[0] == '+' || s[0] == '-') && s.len() == 1 {
        return Err(IntErrorKind::InvalidDigit);
    }
    proof {
        assert(s@.skip(1) == s@.drop_first());
        assert(s@.skip(0) == s@);
    }
    if s[0] == '-' {
        match fold_digits_exec(s, 1, 0x8000_0000, IntErrorKind::NegOverflow) {
            Ok(v) => Ok((0 - (v as i64)) as i32),
            Err(e) => Err(e),
        }
    } else {
        let start: usize = if s[0] == '+' { 1 } else { 0 };
        match fold_digits_exec(s, start, i32::MAX as u64, IntErrorKind::PosOverflow) {
            Ok(v) => Ok(v as i32),
            Err(e) => Err(e),
        }
    }
}


/// The ASCII digit of the value `d`, for `d` below 10.
pub open spec fn digit_char(d: nat) -> char {
    (d + '0' as nat) as char
}

/// The decimal text of `n`, without leading zeros (`0` for zero).
pub open spec fn spec_decimal(n: nat) -> Seq<char>
    decreases n,
{
    if n < 10 {
        seq![digit_char(n)]
    } else {
        spec_decimal(n / 10).push(digit_char(n % 10))
    }
}

/// `s` preceded by as many spaces as make it `width` characters long (unchanged if it is
/// already that long), as `format!("{:>width$}", ..)` aligns text to the right.
pub open spec fn pad_left(s: Seq<char>, width: nat) -> Seq<char> {
    if s.len() >= width {
        s
    } else {
        Seq::new((width - s.len()) as nat, |i: int| ' ') + s
    }
}

/// Writes `n` in decimal.
pub fn format_decimal(n: u64) -> (r: Vec<char>)
    ensures
        r@ == spec_decimal(n as nat),
    decreases n,
{
    if n < 10 {
        let c = ((n as u8) + 48u8) as char;
        let mut v: Vec<char> = Vec::new();
        v.push(c);
        v
    } else {
        let mut v = format_decimal(n / 10);
        let c = (((n % 10) as u8) + 48u8) as char;
        v.push(c);
        v
    }
}

/// Writes `n` in decimal, aligned to the right in `width` characters.
pub fn format_decimal_padded(n: u64, width: usize) -> (r: Vec<char>)
    ensures
        r@ == pad_left(spec_decimal(n as nat), width as nat),
{
    let digits = format_decimal(n);
    if digits.len() >= width {
        return digits;
    }
    let mut r: Vec<char> = Vec::new();
    let pad = width - digits.len();
    let mut i: usize = 0;
    while i < pad
        invariant
            i <= pad,
            r@ == Seq::new(i as nat, |k: int| ' '),
        decreases pad - i,
    {
        r.push(' ');
        i = i + 1;
        assert(r@ =~= Seq::new(i as nat, |k: int| ' '));
    }
    let mut j: usize = 0;
    while j < digits.len()
        invariant
            j <= digits@.len(),
            r@ == Seq::new(pad as nat, |k: int| ' ') + digits@.take(j as int),
        decreases digits@.len() - j,
    {
        r.push(digits[j]);
        j = j + 1;
        assert(r@ =~= Seq::new(pad as nat, |k: int| ' ') + digits@.take(j as int));
    }
    assert(digits@.take(digits@.len() as int) == digits@);
    r
}

} // verus!
