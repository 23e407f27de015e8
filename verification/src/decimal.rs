//! Decimal integers: parsing as `str::parse` does for unsigned types, and
//! rendering as `to_string` does.
use vstd::prelude::*;

verus! {

/// Why a string is not an unsigned integer of the wanted width (the kinds
/// that `ParseIntError` reports for unsigned types).
#[derive(Clone, Copy, Debug, PartialEq, Eq, Structural)]
pub enum IntErrorKind {
    /// The string is empty.
    Empty,
    /// The string holds a character that is not an ASCII digit where a digit belongs.
    InvalidDigit,
    /// The value is larger than the type holds.
    PosOverflow,
}

/// Whether `c` is an ASCII decimal digit.
pub open spec fn is_digit(c: char) -> bool {
    '0' <= c && c <= '9'
}

/// The value of an ASCII decimal digit.
pub open spec fn digit_value(c: char) -> nat {
    ((c as u32) - ('0' as u32)) as nat
}

/// The character of a decimal digit `d < 10`.
pub open spec fn digit_char(d: nat) -> char {
    (('0' as u32) + d) as char
}

/// Reads the digits of `s` from left to right onto `acc`, failing at the
/// first non-digit or at the first digit that takes the value above `max`.
pub open spec fn parse_digits(s: Seq<char>, acc: nat, max: nat) -> Result<nat, IntErrorKind>
    decreases s.len(),
{
    if s.len() == 0 {
        Ok(acc)
    } else if !is_digit(s[0]) {
        Err(IntErrorKind::InvalidDigit)
    } else if acc * 10 + digit_value(s[0]) > max {
        Err(IntErrorKind::PosOverflow)
    } else {
        parse_digits(s.drop_first(), acc * 10 + digit_value(s[0]), max)
    }
}

/// The unsigned integer that `s` denotes, for a type whose largest value is
/// `max`: an optional `+`, then one or more ASCII digits.
pub open spec fn parse_unsigned_spec(s: Seq<char>, max: nat) -> Result<nat, IntErrorKind> {
    if s.len() == 0 {
        Err(IntErrorKind::Empty)
    } else if s.len() == 1 && (s[0] == '+' || s[0] == '-') {
        Err(IntErrorKind::InvalidDigit)
    } else if s[0] == '+' {
        parse_digits(s.drop_first(), 0, max)
    } else {
        parse_digits(s, 0, max)
    }
}

/// The decimal digits of `n`, most significant first, without leading zeros.
pub open spec fn decimal_spec(n: nat) -> Seq<char>
    decreases n,
{
    if n < 10 {
        seq![digit_char(n)]
    } else {
        decimal_spec(n / 10) + seq![digit_char(n % 10)]
    }
}

fn parse_digits_exec(s: &[char], start: usize, max: u64) -> (r: Result<u64, IntErrorKind>)
    requires
        start <= s.len(),
    ensures
        match r {
            Ok(v) => parse_digits(s@.skip(start as int), 0, max as nat) == Ok::<nat, IntErrorKind>(
                v as nat,
            ),
            Err(e) => parse_digits(s@.skip(start as int), 0, max as nat) == Err::<nat, IntErrorKind>(e),
        },
{
    let mut acc: u64 = 0;
    let mut i = start;
    while i < s.len()
        invariant
            start <= i <= s.len(),
            acc <= max,
            parse_digits(s@.skip(start as int), 0, max as nat) == parse_digits(
                s@.skip(i as int),
                acc as nat,
                max as nat,
            ),
        decreases s.len() - i,
    {
        let c = s[i];
        assert(s@.skip(i as int)[0] == c);
        assert(s@.skip(i as int).drop_first() == s@.skip(i + 1));
        if !('0' <= c && c <= '9') {
            return Err(IntErrorKind::InvalidDigit);
        }
        let d = (c as u32 - '0' as u32) as u64;
        if d > max {
            assert(acc * 10 + d > max) by (nonlinear_arith)
                requires
                    d > max,
                    acc >= 0,
            ;
            return Err(IntErrorKind::PosOverflow);
        }
        if acc > (max - d) / 10 {
            assert(acc * 10 + d > max) by (nonlinear_arith)
                requires
                    acc > (max - d) / 10,
                    d <= max,
            ;
            return Err(IntErrorKind::PosOverflow);
        }
        assert(acc * 10 + d <= max) by (nonlinear_arith)
            requires
                acc <= (max - d) / 10,
                d <= max,
        ;
        acc = acc * 10 + d;
        i = i + 1;
    }
    assert(s@.skip(s.len() as int).len() == 0);
    Ok(acc)
}

/// Parses `s` as an unsigned integer no larger than `max`, as `str::parse`
/// does for an unsigned integer type whose largest value is `max`.
pub fn parse_unsigned(s: &str, max: u64) -> (r: Result<u64, IntErrorKind>)
    ensures
        match r {
            Ok(v) => parse_unsigned_spec(s@, max as nat) == Ok::<nat, IntErrorKind>(v as nat),
            Err(e) => parse_unsigned_spec(s@, max as nat) == Err::<nat, IntErrorKind>(e),
        },
{
    let cs = crate::text::chars_of(s);
    let cs = cs.as_slice();
    if cs.len() == 0 {
        return Err(IntErrorKind::Empty);
    }
    if cs.len() == 1 && (cs[0] == '+' || cs[0] == '-') {
        return Err(IntErrorKind::InvalidDigit);
    }
    if cs[0] == '+' {
        assert(cs@.skip(1) == cs@.drop_first());
        parse_digits_exec(cs, 1, max)
    } else {
        assert(cs@.skip(0) == cs@);
        parse_digits_exec(cs, 0, max)
    }
}

/// The decimal digits of `n` (`u64::to_string`).
pub fn decimal(n: u64) -> (r: String)
    ensures
        r@ == decimal_spec(n as nat),
{
    let mut digits: Vec<char> = Vec::new();
    let mut m = n;
    // digits are produced least significant first
    while m >= 10
        invariant
            decimal_spec(n as nat) == decimal_spec(m as nat) + digits@.reverse(),
        decreases m,
    {
        let d = m % 10;
        let c = ('0' as u32 + d as u32) as u8 as char;
        assert(c == digit_char(d as nat)) by {
            assert(('0' as u32 + d as u32) < 256);
        }
        let ghost old_digits = digits@;
        digits.push(c);
        assert(digits@.reverse() =~= seq![c] + old_digits.reverse());
        assert(decimal_spec(m as nat) == decimal_spec((m / 10) as nat) + seq![c]);
        m = m / 10;
    }
    let c0 = ('0' as u32 + m as u32) as u8 as char;
    assert(c0 == digit_char(m as nat));
    let mut out: Vec<char> = Vec::new();
    out.push(c0);
    let mut i = digits.len();
    while i > 0
        invariant
            i <= digits.len(),
            decimal_spec(n as nat) == out@ + digits@.take(i as int).reverse(),
        decreases i,
    {
        let ghost before = out@;
        out.push(digits[i - 1]);
        assert(digits@.take(i as int).reverse() =~= seq![digits@[i - 1]] + digits@.take(
            i - 1,
        ).reverse());
        i = i - 1;
    }
    assert(digits@.take(0).reverse() =~= Seq::<char>::empty());
    assert(out@ + Seq::<char>::empty() == out@);
    crate::text::string_of(out.as_slice())
}

proof fn lemma_digit_char(d: nat)
    requires
        d < 10,
    ensures
        is_digit(digit_char(d)),
        digit_value(digit_char(d)) == d,
{
    assert(digit_char(d) as u32 == 48 + d);
}

proof fn lemma_parse_digits_append(a: Seq<char>, b: Seq<char>, acc: nat, max: nat)
    ensures
        parse_digits(a + b, acc, max) == match parse_digits(a, acc, max) {
            Ok(v) => parse_digits(b, v, max),
            Err(e) => Err(e),
        },
    decreases a.len(),
{
    if a.len() == 0 {
        assert(a + b == b);
    } else {
        assert((a + b)[0] == a[0]);
        assert((a + b).drop_first() == a.drop_first() + b);
        if is_digit(a[0]) && acc * 10 + digit_value(a[0]) <= max {
            lemma_parse_digits_append(a.drop_first(), b, acc * 10 + digit_value(a[0]), max);
        }
    }
}

proof fn lemma_decimal_digits(n: nat)
    ensures
        decimal_spec(n).len() > 0,
        forall|i: int| 0 <= i < decimal_spec(n).len() ==> is_digit(#[trigger] decimal_spec(n)[i]),
    decreases n,
{
    if n >= 10 {
        lemma_decimal_digits(n / 10);
    }
}

proof fn lemma_parse_decimal(n: nat, max: nat)
    requires
        n <= max,
    ensures
        parse_digits(decimal_spec(n), 0, max) == Ok::<nat, IntErrorKind>(n),
    decreases n,
{
    lemma_digit_char(n % 10);
    if n < 10 {
        let s = decimal_spec(n);
        assert(s.drop_first() =~= Seq::<char>::empty());
        assert(parse_digits(s.drop_first(), n, max) == Ok::<nat, IntErrorKind>(n));
    } else {
        let q = n / 10;
        let r = n % 10;
        lemma_parse_decimal(q, max);
        lemma_parse_digits_append(decimal_spec(q), seq![digit_char(r)], 0, max);
        let t = seq![digit_char(r)];
        assert(t.drop_first() =~= Seq::<char>::empty());
        assert(q * 10 + r == n);
        assert(decimal_spec(n) == decimal_spec(q) + t);
        assert(parse_digits(t.drop_first(), n, max) == Ok::<nat, IntErrorKind>(n));
        assert(parse_digits(t, q, max) == Ok::<nat, IntErrorKind>(n));
    }
}

proof fn lemma_parse_digits_bound(s: Seq<char>, acc: nat, max: nat)
    requires
        acc <= max,
    ensures
        parse_digits(s, acc, max) matches Ok(v) ==> v <= max,
    decreases s.len(),
{
    if s.len() > 0 && is_digit(s[0]) && acc * 10 + digit_value(s[0]) <= max {
        lemma_parse_digits_bound(s.drop_first(), acc * 10 + digit_value(s[0]), max);
    }
}

/// A parsed number never exceeds the largest value of its type.
pub proof fn lemma_parse_bound(s: Seq<char>, max: nat)
    ensures
        parse_unsigned_spec(s, max) matches Ok(v) ==> v <= max,
{
    lemma_parse_digits_bound(s, 0, max);
    if s.len() > 0 {
        lemma_parse_digits_bound(s.drop_first(), 0, max);
    }
}

/// Rendering a number in decimal and parsing it back gives the number, for
/// every width that holds it.
pub proof fn lemma_decimal_roundtrip(n: nat, max: nat)
    requires
        n <= max,
    ensures
        parse_unsigned_spec(decimal_spec(n), max) == Ok::<nat, IntErrorKind>(n),
{
    lemma_decimal_digits(n);
    lemma_parse_decimal(n, max);
    let s = decimal_spec(n);
    assert(is_digit(s[0]));
}

} // verus!
