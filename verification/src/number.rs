//! Decimal numbers as text: rendering and parsing.
use vstd::prelude::*;

use crate::text::chars_of;

verus! {

/// Why a text is no unsigned decimal number of the wanted width.
#[derive(Debug, Clone, Copy, PartialEq, Eq, Structural)]
pub enum ParseIntError {
    Empty,
    InvalidDigit,
    PosOverflow,
}

impl ParseIntError {
    pub open spec fn text(self) -> Seq<char> {
        match self {
            ParseIntError::Empty => "cannot parse integer from empty string"@,
            ParseIntError::InvalidDigit => "invalid digit found in string"@,
            ParseIntError::PosOverflow => "number too large to fit in target type"@,
        }
    }

    /// The sentence shown to the user.
    pub fn message(&self) -> (s: String)
        ensures
            s@ == self.text(),
    {
        match self {
            ParseIntError::Empty => "cannot parse integer from empty string".to_owned(),
            ParseIntError::InvalidDigit => "invalid digit found in string".to_owned(),
            ParseIntError::PosOverflow => "number too large to fit in target type".to_owned(),
        }
    }
}

/// Whether `c` is one of the ASCII digits.
pub open spec fn is_digit(c: char) -> bool {
    '0' <= c <= '9'
}

/// Whether `s` holds ASCII digits only.
pub open spec fn all_digits(s: Seq<char>) -> bool {
    forall|i: int| 0 <= i < s.len() ==> is_digit(#[trigger] s[i])
}

/// The value of the digit `c`.
pub open spec fn digit_value(c: char) -> nat {
    (c as int - '0' as int) as nat
}

/// The digit with value `d`.
pub open spec fn digit_char(d: nat) -> char {
    ('0' as int + d) as char
}

/// The number that the digits `s` stand for.
pub open spec fn digits_value(s: Seq<char>) -> nat
    decreases s.len(),
{
    if s.len() == 0 {
        0
    } else {
        digits_value(s.drop_last()) * 10 + digit_value(s.last())
    }
}

/// The decimal digits of `n`, without leading zeros.
pub open spec fn decimal(n: nat) -> Seq<char>
    decreases n,
{
    if n < 10 {
        seq![digit_char(n)]
    } else {
        decimal(n / 10).push(digit_char(n % 10))
    }
}

/// Reads the digits `s` behind a number that has the value `acc` so far; the first
/// character that is no digit, or that takes the value above `max`, decides the error.
pub open spec fn scanned(s: Seq<char>, acc: nat, max: nat) -> Result<nat, ParseIntError>
    decreases s.len(),
{
    if s.len() == 0 {
        Ok(acc)
    } else if !is_digit(s[0]) {
        Err(ParseIntError::InvalidDigit)
    } else if acc * 10 + digit_value(s[0]) > max {
        Err(ParseIntError::PosOverflow)
    } else {
        scanned(s.drop_first(), acc * 10 + digit_value(s[0]), max)
    }
}

/// `s` without a leading plus sign.
pub open spec fn unsigned_part(s: Seq<char>) -> Seq<char> {
    if s.len() > 0 && s[0] == '+' {
        s.drop_first()
    } else {
        s
    }
}

/// `s` read as a number of at most `max`: an optional plus sign, then digits only.
pub open spec fn parsed(s: Seq<char>, max: nat) -> Result<nat, ParseIntError> {
    if s.len() == 0 {
        Err(ParseIntError::Empty)
    } else if s == seq!['+'] {
        Err(ParseIntError::InvalidDigit)
    } else {
        scanned(unsigned_part(s), 0, max)
    }
}

/// A text reads as a number exactly when it is an optional plus sign and one or more
/// digits whose value is within the limit, and the number is that value.
pub proof fn law_parsed_value(s: Seq<char>, max: nat)
    ensures
        parsed(s, max) is Ok <==> {
            &&& unsigned_part(s).len() > 0
            &&& all_digits(unsigned_part(s))
            &&& digits_value(unsigned_part(s)) <= max
        },
        parsed(s, max) matches Ok(v) ==> v == digits_value(unsigned_part(s)),
{
    let d = unsigned_part(s);
    if s.len() > 0 {
        if s[0] == '+' && d.len() == 0 {
            assert(s =~= seq!['+']);
        }
        if s == seq!['+'] {
            assert(d.len() == 0);
        }
        lemma_scanned(d, 0, Seq::empty(), max);
        assert(Seq::empty() + d =~= d);
    }
}

/// Reading the decimal digits of a number gives the number back.
pub proof fn law_decimal_roundtrip(n: nat, max: nat)
    requires
        n <= max,
    ensures
        parsed(decimal(n), max) == Ok::<nat, ParseIntError>(n),
{
    lemma_decimal(n);
    assert(decimal(n)[0] != '+') by {
        assert(is_digit(decimal(n)[0]));
    }
    assert(unsigned_part(decimal(n)) == decimal(n));
    law_parsed_value(decimal(n), max);
}

/// Decimal digits stand for ones, tens, hundreds and so on: a number below ten is one digit,
/// and a digit behind a number makes it ten times as much and that digit.
pub proof fn law_decimal_digits(n: nat, d: nat)
    requires
        d < 10,
    ensures
        decimal(d) == seq![('0' as int + d) as char],
        n > 0 ==> decimal(10 * n + d) == decimal(n).push(('0' as int + d) as char),
{
    if n > 0 {
        assert((10 * n + d) / 10 == n);
        assert((10 * n + d) % 10 == d);
    }
}

/// A digit behind digits makes their value ten times as much and that digit.
pub proof fn law_digits_value(s: Seq<char>, d: nat)
    requires
        d < 10,
    ensures
        digits_value(s.push(('0' as int + d) as char)) == 10 * digits_value(s) + d,
        digits_value(Seq::empty()) == 0,
        is_digit(('0' as int + d) as char),
{
    let t = s.push(('0' as int + d) as char);
    assert(t.drop_last() =~= s);
}

/// Digits read as their value, with or without a plus sign before them, unless it is above
/// the limit; nothing, and anything that holds another character, is no number.
pub proof fn law_parsed_digits(s: Seq<char>, max: nat)
    ensures
        s.len() > 0 && (forall|i: int| 0 <= i < s.len() ==> '0' <= #[trigger] s[i] <= '9') ==> {
            &&& digits_value(s) <= max ==> parsed(s, max) == Ok::<nat, ParseIntError>(
                digits_value(s),
            )
            &&& digits_value(s) > max ==> parsed(s, max) == Err::<nat, ParseIntError>(
                ParseIntError::PosOverflow,
            )
            &&& parsed(seq!['+'] + s, max) == parsed(s, max)
        },
        (exists|i: int| 1 <= i < s.len() && !('0' <= #[trigger] s[i] <= '9')) ==> parsed(
            s,
            max,
        ) is Err,
        s.len() > 0 && !('0' <= s[0] <= '9') && s[0] != '+' ==> parsed(s, max)
            == Err::<nat, ParseIntError>(ParseIntError::InvalidDigit),
        parsed(Seq::empty(), max) == Err::<nat, ParseIntError>(ParseIntError::Empty),
        parsed(seq!['+'], max) == Err::<nat, ParseIntError>(ParseIntError::InvalidDigit),
{
    law_parsed_value(s, max);
    if s.len() > 0 && (forall|i: int| 0 <= i < s.len() ==> '0' <= #[trigger] s[i] <= '9') {
        assert(is_digit(s[0]));
        assert(all_digits(s));
        let signed = seq!['+'] + s;
        assert(signed.drop_first() =~= s);
        assert(signed != seq!['+']) by {
            assert(signed.len() > 1);
        }
        lemma_scanned_digits(s, 0, max);
    }
    if exists|i: int| 1 <= i < s.len() && !('0' <= #[trigger] s[i] <= '9') {
        let i = choose|i: int| 1 <= i < s.len() && !('0' <= #[trigger] s[i] <= '9');
        let d = unsigned_part(s);
        if s[0] == '+' {
            assert(d[i - 1] == s[i]);
        }
        assert(!all_digits(d)) by {
            if all_digits(d) {
                if s[0] == '+' {
                    assert(is_digit(d[i - 1]));
                } else {
                    assert(is_digit(d[i]));
                }
            }
        }
    }
}

proof fn lemma_scanned_digits(s: Seq<char>, acc: nat, max: nat)
    requires
        all_digits(s),
    ensures
        scanned(s, acc, max) matches Err(e) ==> e == ParseIntError::PosOverflow,
    decreases s.len(),
{
    if s.len() > 0 {
        assert(is_digit(s[0]));
        let t = s.drop_first();
        assert forall|i: int| 0 <= i < t.len() implies is_digit(#[trigger] t[i]) by {
            assert(t[i] == s[i + 1]);
        }
        lemma_scanned_digits(t, acc * 10 + digit_value(s[0]), max);
    }
}

pub proof fn lemma_decimal(n: nat)
    ensures
        decimal(n).len() > 0,
        all_digits(decimal(n)),
        digits_value(decimal(n)) == n,
    decreases n,
{
    if n < 10 {
        let s = seq![digit_char(n)];
        assert(s.drop_last() =~= Seq::empty());
        assert(digits_value(s.drop_last()) == 0);
    } else {
        lemma_decimal(n / 10);
        let s = decimal(n);
        assert(s.drop_last() =~= decimal(n / 10));
        assert(s.last() == digit_char(n % 10));
    }
}

proof fn lemma_scanned(s: Seq<char>, acc: nat, done: Seq<char>, max: nat)
    requires
        all_digits(done),
        acc == digits_value(done),
        acc <= max,
    ensures
        scanned(s, acc, max) is Ok <==> all_digits(s) && digits_value(done + s) <= max,
        scanned(s, acc, max) matches Ok(v) ==> v == digits_value(done + s),
    decreases s.len(),
{
    if s.len() == 0 {
        assert(done + s =~= done);
    } else {
        let next = done.push(s[0]);
        assert(next.drop_last() =~= done);
        assert(next + s.drop_first() =~= done + s);
        if is_digit(s[0]) {
            let v = acc * 10 + digit_value(s[0]);
            assert(digits_value(next) == v);
            assert(all_digits(s) <==> all_digits(s.drop_first())) by {
                if all_digits(s.drop_first()) {
                    assert forall|i: int| 0 <= i < s.len() implies is_digit(#[trigger] s[i]) by {
                        if i > 0 {
                            assert(s[i] == s.drop_first()[i - 1]);
                        }
                    }
                }
            }
            if v <= max {
                lemma_scanned(s.drop_first(), v, next, max);
            } else {
                lemma_value_grows(next, s.drop_first());
            }
        }
    }
}

proof fn lemma_value_grows(a: Seq<char>, b: Seq<char>)
    ensures
        digits_value(a) <= digits_value(a + b),
    decreases b.len(),
{
    if b.len() == 0 {
        assert(a + b =~= a);
    } else {
        lemma_value_grows(a, b.drop_last());
        assert((a + b).drop_last() =~= a + b.drop_last());
    }
}

/// Appends the decimal digits of `n`.
pub fn push_decimal(out: &mut String, n: u64)
    ensures
        final(out)@ == old(out)@ + decimal(n as nat),
    decreases n,
{
    if n >= 10 {
        push_decimal(out, n / 10);
    }
    let d: u8 = (n % 10) as u8;
    out.push((48u8 + d) as char);
    assert(out@ =~= old(out)@ + decimal(n as nat));
}

/// The decimal digits of `n`.
pub fn to_decimal(n: u64) -> (s: String)
    ensures
        s@ == decimal(n as nat),
{
    let mut s = String::new();
    push_decimal(&mut s, n);
    assert(s@ =~= decimal(n as nat));
    s
}

/// `s` as a number of at most `max`.
pub fn parse_unsigned(s: &str, max: u64) -> (r: Result<u64, ParseIntError>)
    ensures
        match r {
            Ok(v) => parsed(s@, max as nat) == Ok::<nat, ParseIntError>(v as nat),
            Err(e) => parsed(s@, max as nat) == Err::<nat, ParseIntError>(e),
        },
{
    let chars = chars_of(s);
    let n: usize = chars.len();
    if n == 0 {
        return Err(ParseIntError::Empty);
    }
    if n == 1 && chars[0] == '+' {
        assert(s@ =~= seq!['+']);
        return Err(ParseIntError::InvalidDigit);
    }
    let mut i: usize = if chars[0] == '+' {
        1
    } else {
        0
    };
    let mut acc: u64 = 0;
    assert(s@ != seq!['+']) by {
        if s@ == seq!['+'] {
            assert(s@.len() == 1 && s@[0] == '+');
        }
    }
    assert(unsigned_part(s@) =~= s@.skip(i as int));
    while i < n
        invariant
            n == chars@.len(),
            chars@ == s@,
            i <= n,
            acc <= max,
            parsed(s@, max as nat) == scanned(s@.skip(i as int), acc as nat, max as nat),
        decreases n - i,
    {
        let c = chars[i];
        let ghost rest = s@.skip(i as int);
        assert(rest[0] == c);
        assert(rest.drop_first() =~= s@.skip(i + 1));
        if c < '0' || c > '9' {
            return Err(ParseIntError::InvalidDigit);
        }
        let d: u32 = c as u32 - '0' as u32;
        let next: u128 = acc as u128 * 10 + d as u128;
        if next > max as u128 {
            return Err(ParseIntError::PosOverflow);
        }
        acc = next as u64;
        i = i + 1;
    }
    Ok(acc)
}

}
