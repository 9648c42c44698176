//! Decimal integers: how they are written, and how they are read back.

#[allow(unused_imports)]
use vstd::arithmetic::div_mod::lemma_div_denominator;
#[allow(unused_imports)]
use vstd::arithmetic::power::{lemma_pow0, lemma_pow1, lemma_pow_adds, lemma_pow_positive, pow};
use vstd::prelude::*;

verus! {

/// Why a string is not a decimal integer of the type that was asked for.
#[derive(Clone, Copy, Debug, PartialEq, Eq, Structural)]
pub enum NumberError {
    /// The string is empty.
    Empty,
    /// A character is not a digit, or there is nothing but a sign.
    InvalidDigit,
    /// The value is above the largest one of the type.
    PosOverflow,
    /// The value is below the smallest one of the type.
    NegOverflow,
}

/// Whether `c` is one of the ten decimal digits.
pub open spec fn is_digit(c: char) -> bool {
    '0' <= c <= '9'
}

/// The digit that stands for `d`, where `d` is below ten.
pub open spec fn digit(d: nat) -> char {
    (48 + d) as char
}

/// The decimal digits of `n`, without leading zeros.
pub open spec fn decimal(n: nat) -> Seq<char>
    decreases n,
{
    if n < 10 {
        seq![digit(n)]
    } else {
        decimal(n / 10).push(digit(n % 10))
    }
}

/// The decimal representation of `n`, with a minus sign where `n` is negative.
pub open spec fn signed_decimal(n: int) -> Seq<char> {
    if n < 0 {
        "-"@ + decimal((-n) as nat)
    } else {
        decimal(n as nat)
    }
}

/// The last `width` decimal digits of `n`, with leading zeros.
pub open spec fn fixed_decimal(n: nat, width: nat) -> Seq<char>
    decreases width,
{
    if width == 0 {
        Seq::empty()
    } else {
        fixed_decimal(n / 10, (width - 1) as nat).push(digit(n % 10))
    }
}

/// The number that the digits of `s` stand for. They are read from left to right: the first
/// character that is no digit, or that takes the number above `limit`, decides the error.
pub open spec fn magnitude(s: Seq<char>, limit: nat, overflow: NumberError) -> Result<
    nat,
    NumberError,
>
    decreases s.len(),
{
    if s.len() == 0 {
        Ok(0)
    } else {
        match magnitude(s.drop_last(), limit, overflow) {
            Err(e) => Err(e),
            Ok(n) => if !is_digit(s.last()) {
                Err(NumberError::InvalidDigit)
            } else if n * 10 + (s.last() as nat - 48) > limit {
                Err(overflow)
            } else {
                Ok((n * 10 + (s.last() as nat - 48)) as nat)
            },
        }
    }
}

/// The `u64` that `s` stands for: an optional `+` and then only digits.
pub open spec fn unsigned_value(s: Seq<char>) -> Result<nat, NumberError> {
    if s.len() == 0 {
        Err(NumberError::Empty)
    } else if s.len() == 1 && (s[0] == '+' || s[0] == '-') {
        Err(NumberError::InvalidDigit)
    } else if s[0] == '+' {
        magnitude(s.skip(1), u64::MAX as nat, NumberError::PosOverflow)
    } else {
        magnitude(s, u64::MAX as nat, NumberError::PosOverflow)
    }
}

/// The `isize` that `s` stands for: an optional `+` or `-` and then only digits.
pub open spec fn signed_value(s: Seq<char>) -> Result<int, NumberError> {
    let magnitude_of = |digits: Seq<char>|
        match magnitude(digits, isize::MAX as nat, NumberError::PosOverflow) {
            Ok(n) => Ok(n as int),
            Err(e) => Err(e),
        };
    if s.len() == 0 {
        Err(NumberError::Empty)
    } else if s.len() == 1 && (s[0] == '+' || s[0] == '-') {
        Err(NumberError::InvalidDigit)
    } else if s[0] == '-' {
        match magnitude(s.skip(1), (isize::MAX + 1) as nat, NumberError::NegOverflow) {
            Ok(n) => Ok(-(n as int)),
            Err(e) => Err(e),
        }
    } else if s[0] == '+' {
        magnitude_of(s.skip(1))
    } else {
        magnitude_of(s)
    }
}

impl NumberError {
    /// The diagnostic text of the error.
    pub open spec fn text(self) -> Seq<char> {
        match self {
            NumberError::Empty => "cannot parse integer from empty string"@,
            NumberError::InvalidDigit => "invalid digit found in string"@,
            NumberError::PosOverflow => "number too large to fit in target type"@,
            NumberError::NegOverflow => "number too small to fit in target type"@,
        }
    }

    /// The diagnostic text of the error.
    pub fn message(&self) -> (r: &'static str)
        ensures
            r@ == self.text(),
    {
        match self {
            NumberError::Empty => "cannot parse integer from empty string",
            NumberError::InvalidDigit => "invalid digit found in string",
            NumberError::PosOverflow => "number too large to fit in target type",
            NumberError::NegOverflow => "number too small to fit in target type",
        }
    }
}

/// A decimal representation is not empty and holds only digits.
pub proof fn lemma_decimal_digits(n: nat)
    ensures
        decimal(n).len() >= 1,
        forall|i: int| 0 <= i < decimal(n).len() ==> is_digit(#[trigger] decimal(n)[i]),
    decreases n,
{
    if n >= 10 {
        lemma_decimal_digits(n / 10);
    }
}

/// Reading the digits of a number within the limit gives the number back.
proof fn lemma_magnitude_of_decimal(n: nat, limit: nat, overflow: NumberError)
    requires
        n <= limit,
    ensures
        magnitude(decimal(n), limit, overflow) == Ok::<nat, NumberError>(n),
    decreases n,
{
    let s = decimal(n);
    if n < 10 {
        assert(s.drop_last() == Seq::<char>::empty());
        assert(magnitude(s.drop_last(), limit, overflow) == Ok::<nat, NumberError>(0));
    } else {
        lemma_magnitude_of_decimal(n / 10, limit, overflow);
        assert(s.drop_last() == decimal(n / 10));
    }
}

/// Writing a `u64` in decimal and reading the text gives the same number.
pub proof fn law_unsigned_round_trip(n: u64)
    ensures
        unsigned_value(decimal(n as nat)) == Ok::<nat, NumberError>(n as nat),
{
    lemma_decimal_digits(n as nat);
    lemma_magnitude_of_decimal(n as nat, u64::MAX as nat, NumberError::PosOverflow);
    assert(is_digit(decimal(n as nat)[0]));
}

/// Writing an `isize` in decimal and reading the text gives the same number.
pub proof fn law_signed_round_trip(n: isize)
    ensures
        signed_value(signed_decimal(n as int)) == Ok::<int, NumberError>(n as int),
{
    let s = signed_decimal(n as int);
    if n < 0 {
        let m = (-n) as nat;
        reveal_strlit("-");
        lemma_decimal_digits(m);
        lemma_magnitude_of_decimal(m, (isize::MAX + 1) as nat, NumberError::NegOverflow);
        assert(s.skip(1) == decimal(m));
    } else {
        lemma_decimal_digits(n as nat);
        lemma_magnitude_of_decimal(n as nat, isize::MAX as nat, NumberError::PosOverflow);
        assert(is_digit(s[0]));
    }
}

/// The string of the one digit that stands for `d`.
fn digit_str(d: u8) -> (r: &'static str)
    requires
        d < 10,
    ensures
        r@ == seq![digit(d as nat)],
{
    proof {
        reveal_strlit("0");
        reveal_strlit("1");
        reveal_strlit("2");
        reveal_strlit("3");
        reveal_strlit("4");
        reveal_strlit("5");
        reveal_strlit("6");
        reveal_strlit("7");
        reveal_strlit("8");
        reveal_strlit("9");
    }
    if d == 0 {
        "0"
    } else if d == 1 {
        "1"
    } else if d == 2 {
        "2"
    } else if d == 3 {
        "3"
    } else if d == 4 {
        "4"
    } else if d == 5 {
        "5"
    } else if d == 6 {
        "6"
    } else if d == 7 {
        "7"
    } else if d == 8 {
        "8"
    } else {
        "9"
    }
}

/// Appends the decimal digits of `n` to `out`.
pub fn append_decimal(out: &mut String, n: u128)
    ensures
        final(out)@ == old(out)@ + decimal(n as nat),
    decreases n,
{
    if n >= 10 {
        append_decimal(out, n / 10);
    }
    out.append(digit_str((n % 10) as u8));
}

/// Appends the last `width` decimal digits of `n` to `out`, with leading zeros.
pub fn append_fixed_decimal(out: &mut String, n: u128, width: usize)
    ensures
        final(out)@ == old(out)@ + fixed_decimal(n as nat, width as nat),
    decreases width,
{
    if width > 0 {
        append_fixed_decimal(out, n / 10, width - 1);
        out.append(digit_str((n % 10) as u8));
    }
}

/// The decimal digits of `n`.
pub fn to_decimal(n: u64) -> (r: String)
    ensures
        r@ == decimal(n as nat),
{
    let mut r: String = String::new();
    append_decimal(&mut r, n as u128);
    r
}

/// Appends the decimal representation of `n` to `out`.
pub fn append_signed_decimal(out: &mut String, n: isize)
    ensures
        final(out)@ == old(out)@ + signed_decimal(n as int),
{
    if n < 0 {
        out.append("-");
        append_decimal(out, (-(n as i128)) as u128);
    } else {
        append_decimal(out, n as u128);
    }
}

/// Reads the digits of `s` from left to right, as `magnitude` says.
fn read_magnitude(s: &str, limit: u64, overflow: NumberError) -> (r: Result<u64, NumberError>)
    ensures
        match r {
            Ok(n) => magnitude(s@, limit as nat, overflow) == Ok::<nat, NumberError>(n as nat),
            Err(e) => magnitude(s@, limit as nat, overflow) == Err::<nat, NumberError>(e),
        },
{
    let mut n: u64 = 0;
    let mut failed: Option<NumberError> = None;
    for c in it: s.chars()
        invariant
            it.seq() == s@,
            n <= limit,
            match failed {
                None => magnitude(s@.take(it.index()), limit as nat, overflow) == Ok::<
                    nat,
                    NumberError,
                >(n as nat),
                Some(e) => magnitude(s@.take(it.index()), limit as nat, overflow) == Err::<
                    nat,
                    NumberError,
                >(e),
            },
    {
        proof {
            let read = s@.take(it.index() + 1);
            assert(read.drop_last() == s@.take(it.index()));
            assert(read.last() == c);
        }
        if failed.is_none() {
            if !('0' <= c && c <= '9') {
                failed = Some(NumberError::InvalidDigit);
            } else {
                let next: u128 = (n as u128) * 10 + ((c as u32) - 48) as u128;
                if next > limit as u128 {
                    failed = Some(overflow);
                } else {
                    n = next as u64;
                }
            }
        }
    }
    assert(s@.take(s@.len() as int) == s@);
    match failed {
        None => Ok(n),
        Some(e) => Err(e),
    }
}

/// Reads `s` as a `u64`: an optional `+` and then only digits.
pub fn parse_u64(s: &str) -> (r: Result<u64, NumberError>)
    ensures
        match r {
            Ok(n) => unsigned_value(s@) == Ok::<nat, NumberError>(n as nat),
            Err(e) => unsigned_value(s@) == Err::<nat, NumberError>(e),
        },
{
    let n: usize = s.unicode_len();
    if n == 0 {
        return Err(NumberError::Empty);
    }
    let sign = s.get_char(0);
    if n == 1 && (sign == '+' || sign == '-') {
        return Err(NumberError::InvalidDigit);
    }
    if sign == '+' {
        read_magnitude(s.substring_char(1, n), u64::MAX, NumberError::PosOverflow)
    } else {
        read_magnitude(s, u64::MAX, NumberError::PosOverflow)
    }
}

/// Reads `s` as an `isize`: an optional `+` or `-` and then only digits.
pub fn parse_isize(s: &str) -> (r: Result<isize, NumberError>)
    ensures
        match r {
            Ok(n) => signed_value(s@) == Ok::<int, NumberError>(n as int),
            Err(e) => signed_value(s@) == Err::<int, NumberError>(e),
        },
{
    let n: usize = s.unicode_len();
    if n == 0 {
        return Err(NumberError::Empty);
    }
    let sign = s.get_char(0);
    if n == 1 && (sign == '+' || sign == '-') {
        return Err(NumberError::InvalidDigit);
    }
    let largest: u64 = isize::MAX as u64;
    if sign == '-' {
        return match read_magnitude(s.substring_char(1, n), largest + 1, NumberError::NegOverflow) {
            Ok(m) => Ok((-(m as i128)) as isize),
            Err(e) => Err(e),
        };
    }
    let digits = if sign == '+' {
        s.substring_char(1, n)
    } else {
        s
    };
    match read_magnitude(digits, largest, NumberError::PosOverflow) {
        Ok(m) => Ok(m as isize),
        Err(e) => Err(e),
    }
}

/// The digits of a number stand for the number: the digit that `i` others follow is the one for ten
/// to the power of `i`, and there are just as many digits as the number needs.
pub proof fn law_decimal_digits_are_those_of_the_number(n: nat)
    ensures
        decimal(n).len() >= 1,
        n < pow(10, decimal(n).len()),
        decimal(n).len() > 1 ==> pow(10, (decimal(n).len() - 1) as nat) <= n,
        forall|i: nat|
            #![trigger pow(10, i)]
            i < decimal(n).len() ==> decimal(n)[decimal(n).len() - 1 - i] as int == 48 + (n as int / pow(
                10,
                i,
            )) % 10,
    decreases n,
{
    let s = decimal(n);
    lemma_pow0(10);
    lemma_pow1(10);
    if n < 10 {
        assert(n / 1 == n);
    } else {
        let m = n / 10;
        law_decimal_digits_are_those_of_the_number(m);
        let k = decimal(m).len();
        assert(s.len() == k + 1);
        lemma_pow_adds(10, k, 1);
        lemma_pow_adds(10, (k - 1) as nat, 1);
        assert(n < pow(10, k + 1));
        if k == 1 {
            assert(pow(10, 1) <= n);
        } else {
            assert(pow(10, k) <= n);
        }
        assert forall|i: nat| #![trigger pow(10, i)] i < s.len() implies s[s.len() - 1 - i] as int
            == 48 + (n as int / pow(10, i)) % 10 by {
            if i == 0 {
                assert(n / 1 == n);
            } else {
                let j = (i - 1) as nat;
                lemma_pow_adds(10, j, 1);
                lemma_pow_positive(10, j);
                lemma_div_denominator(n as int, 10, pow(10, j));
                assert(s[s.len() - 1 - i] == decimal(m)[k - 1 - j]);
            }
        }
    }
}

/// The digits of a number with a fixed number of digits stand for its last ones.
pub proof fn law_fixed_digits_are_the_last_of_the_number(n: nat, width: nat)
    ensures
        fixed_decimal(n, width).len() == width,
        forall|i: nat|
            #![trigger pow(10, i)]
            i < width ==> fixed_decimal(n, width)[width - 1 - i] as int == 48 + (n as int / pow(10, i))
                % 10,
    decreases width,
{
    lemma_pow0(10);
    if width > 0 {
        let m = n / 10;
        let s = fixed_decimal(n, width);
        law_fixed_digits_are_the_last_of_the_number(m, (width - 1) as nat);
        assert forall|i: nat| #![trigger pow(10, i)] i < width implies s[width - 1 - i] as int == 48
            + (n as int / pow(10, i)) % 10 by {
            if i == 0 {
                assert(n / 1 == n);
            } else {
                let j = (i - 1) as nat;
                lemma_pow1(10);
                lemma_pow_adds(10, j, 1);
                lemma_pow_positive(10, j);
                lemma_div_denominator(n as int, 10, pow(10, j));
                assert(s[width - 1 - i] == fixed_decimal(m, (width - 1) as nat)[width - 2 - j]);
            }
        }
    }
}

/// A negative number is a minus sign and the digits of its absolute value, and no other number has
/// a sign.
pub proof fn law_only_negative_numbers_have_a_sign(n: nat)
    ensures
        signed_decimal(n as int) == decimal(n),
        n > 0 ==> signed_decimal(-(n as int)) == seq!['-'] + decimal(n),
{
    reveal_strlit("-");
    assert("-"@ == seq!['-']);
}

/// The number that a string of digits stands for: each digit counts ten times as much as the one
/// behind it.
pub open spec fn numeral(digits: Seq<char>) -> nat
    decreases digits.len(),
{
    if digits.len() == 0 {
        0
    } else {
        10 * numeral(digits.drop_last()) + (digits.last() as nat - 48) as nat
    }
}

/// Whether a string holds digits alone.
pub open spec fn all_digits(s: Seq<char>) -> bool {
    forall|i: int| 0 <= i < s.len() ==> '0' <= #[trigger] s[i] <= '9'
}

/// Digits are read as the number that they stand for, where that is within the limit.
proof fn lemma_magnitude(s: Seq<char>, limit: nat, overflow: NumberError)
    ensures
        all_digits(s) ==> magnitude(s, limit, overflow) == (if numeral(s) <= limit {
            Ok::<nat, NumberError>(numeral(s))
        } else {
            Err::<nat, NumberError>(overflow)
        }),
        !all_digits(s) ==> magnitude(s, limit, overflow) is Err,
        magnitude(s, limit, overflow) matches Err(e) ==> e == NumberError::InvalidDigit || e
            == overflow,
    decreases s.len(),
{
    if s.len() > 0 {
        let front = s.drop_last();
        lemma_magnitude(front, limit, overflow);
        assert(all_digits(s) <==> all_digits(front) && '0' <= s.last() <= '9') by {
            if all_digits(front) && '0' <= s.last() <= '9' {
                assert forall|i: int| 0 <= i < s.len() implies '0' <= #[trigger] s[i] <= '9' by {
                    if i < front.len() {
                        assert(front[i] == s[i]);
                    }
                }
            }
            if all_digits(s) {
                assert forall|i: int| 0 <= i < front.len() implies '0' <= #[trigger] front[i]
                    <= '9' by {
                    assert(s[i] == front[i]);
                }
                assert(s[s.len() - 1] == s.last());
            }
        }
    }
}

/// A character that is no digit, after digits that are within the limit, is what is complained of.
proof fn lemma_magnitude_stops(
    front: Seq<char>,
    c: char,
    rest: Seq<char>,
    limit: nat,
    overflow: NumberError,
)
    requires
        all_digits(front),
        numeral(front) <= limit,
        !('0' <= c <= '9'),
    ensures
        magnitude(front + seq![c] + rest, limit, overflow) == Err::<nat, NumberError>(
            NumberError::InvalidDigit,
        ),
    decreases rest.len(),
{
    let s = front + seq![c] + rest;
    if rest.len() == 0 {
        assert(s.drop_last() == front);
        assert(s.last() == c);
        lemma_magnitude(front, limit, overflow);
    } else {
        assert(s.drop_last() == front + seq![c] + rest.drop_last());
        lemma_magnitude_stops(front, c, rest.drop_last(), limit, overflow);
    }
}

/// An unsigned number is read from digits, with or without a plus sign in front of them, and from
/// nothing else; it is what the digits stand for, unless that is too large.
pub proof fn law_unsigned_numbers_are_digits(digits: Seq<char>)
    requires
        digits.len() > 0,
        all_digits(digits),
    ensures
        ({
            let value = if numeral(digits) <= u64::MAX {
                Ok::<nat, NumberError>(numeral(digits))
            } else {
                Err::<nat, NumberError>(NumberError::PosOverflow)
            };
            &&& unsigned_value(digits) == value
            &&& unsigned_value(seq!['+'] + digits) == value
        }),
{
    lemma_magnitude(digits, u64::MAX as nat, NumberError::PosOverflow);
    assert('0' <= digits[0] <= '9');
    assert((seq!['+'] + digits).skip(1) == digits);
}

/// What is not read as an unsigned number: the empty string, and each string with a character that
/// is no digit, but for a plus sign in front of a digit. The error is the one of the first such
/// character, where the number in front of it is not too large already.
pub proof fn law_other_texts_are_no_unsigned_numbers(s: Seq<char>)
    ensures
        unsigned_value(s) == Err::<nat, NumberError>(NumberError::Empty) <==> s.len() == 0,
        unsigned_value(s) is Ok ==> s.len() > 0 && all_digits(s) || s.len() > 1 && s[0] == '+'
            && all_digits(s.skip(1)),
        unsigned_value(s) != Err::<nat, NumberError>(NumberError::NegOverflow),
{
    lemma_magnitude(s, u64::MAX as nat, NumberError::PosOverflow);
    lemma_magnitude(s.skip(1), u64::MAX as nat, NumberError::PosOverflow);
}

/// A character that is no digit makes a text no unsigned number, whatever follows it.
pub proof fn law_unsigned_numbers_stop_at_other_characters(
    digits: Seq<char>,
    c: char,
    rest: Seq<char>,
)
    requires
        all_digits(digits),
        numeral(digits) <= u64::MAX,
        !('0' <= c <= '9'),
    ensures
        digits.len() > 0 || c != '+' || rest.len() == 0 ==> unsigned_value(
            digits + seq![c] + rest,
        ) == Err::<nat, NumberError>(NumberError::InvalidDigit),
        unsigned_value(seq!['+'] + digits + seq![c] + rest) == Err::<nat, NumberError>(
            NumberError::InvalidDigit,
        ),
{
    let s = digits + seq![c] + rest;
    lemma_magnitude_stops(digits, c, rest, u64::MAX as nat, NumberError::PosOverflow);
    if digits.len() > 0 {
        assert('0' <= digits[0] <= '9');
        assert(s[0] == digits[0]);
    } else {
        assert(s[0] == c);
    }
    let signed = seq!['+'] + digits + seq![c] + rest;
    assert(signed.skip(1) == s);
}

/// A signed number is read from digits, with or without a sign in front of them; it is what the
/// digits stand for, or the negation of that, unless it does not fit.
pub proof fn law_signed_numbers_are_digits(digits: Seq<char>)
    requires
        digits.len() > 0,
        all_digits(digits),
    ensures
        ({
            let value = if numeral(digits) <= isize::MAX {
                Ok::<int, NumberError>(numeral(digits) as int)
            } else {
                Err::<int, NumberError>(NumberError::PosOverflow)
            };
            &&& signed_value(digits) == value
            &&& signed_value(seq!['+'] + digits) == value
            &&& signed_value(seq!['-'] + digits) == (if -numeral(digits) >= isize::MIN {
                Ok::<int, NumberError>(-numeral(digits))
            } else {
                Err::<int, NumberError>(NumberError::NegOverflow)
            })
        }),
{
    lemma_magnitude(digits, isize::MAX as nat, NumberError::PosOverflow);
    lemma_magnitude(digits, (isize::MAX + 1) as nat, NumberError::NegOverflow);
    assert('0' <= digits[0] <= '9');
    assert((seq!['+'] + digits).skip(1) == digits);
    assert((seq!['-'] + digits).skip(1) == digits);
}

/// What is not read as a signed number: the empty string, and each string with a character that is
/// no digit, but for a sign in front of a digit.
pub proof fn law_other_texts_are_no_signed_numbers(s: Seq<char>)
    ensures
        signed_value(s) == Err::<int, NumberError>(NumberError::Empty) <==> s.len() == 0,
        signed_value(s) is Ok ==> s.len() > 0 && all_digits(s) || s.len() > 1 && (s[0] == '+'
            || s[0] == '-') && all_digits(s.skip(1)),
{
    lemma_magnitude(s, isize::MAX as nat, NumberError::PosOverflow);
    lemma_magnitude(s.skip(1), isize::MAX as nat, NumberError::PosOverflow);
    lemma_magnitude(s.skip(1), (isize::MAX + 1) as nat, NumberError::NegOverflow);
}

/// A character that is no digit makes a text no signed number, whatever follows it.
pub proof fn law_signed_numbers_stop_at_other_characters(
    digits: Seq<char>,
    c: char,
    rest: Seq<char>,
)
    requires
        all_digits(digits),
        numeral(digits) <= isize::MAX,
        !('0' <= c <= '9'),
    ensures
        digits.len() > 0 || (c != '+' && c != '-') || rest.len() == 0 ==> signed_value(
            digits + seq![c] + rest,
        ) == Err::<int, NumberError>(NumberError::InvalidDigit),
        signed_value(seq!['+'] + digits + seq![c] + rest) == Err::<int, NumberError>(
            NumberError::InvalidDigit,
        ),
        signed_value(seq!['-'] + digits + seq![c] + rest) == Err::<int, NumberError>(
            NumberError::InvalidDigit,
        ),
{
    let s = digits + seq![c] + rest;
    lemma_magnitude_stops(digits, c, rest, isize::MAX as nat, NumberError::PosOverflow);
    lemma_magnitude_stops(digits, c, rest, (isize::MAX + 1) as nat, NumberError::NegOverflow);
    if digits.len() > 0 {
        assert('0' <= digits[0] <= '9');
        assert(s[0] == digits[0]);
    } else {
        assert(s[0] == c);
    }
    assert((seq!['+'] + digits + seq![c] + rest).skip(1) == s);
    assert((seq!['-'] + digits + seq![c] + rest).skip(1) == s);
}

/// What is said of a text that is no number.
pub proof fn law_number_errors_are_told_apart(e: NumberError)
    ensures
        e == NumberError::Empty ==> e.text() == "cannot parse integer from empty string"@,
        e == NumberError::InvalidDigit ==> e.text() == "invalid digit found in string"@,
        e == NumberError::PosOverflow ==> e.text() == "number too large to fit in target type"@,
        e == NumberError::NegOverflow ==> e.text() == "number too small to fit in target type"@,
{
}

/// Digits that are above the limit are too many, whatever follows them.
proof fn lemma_magnitude_overflows(
    front: Seq<char>,
    rest: Seq<char>,
    limit: nat,
    overflow: NumberError,
)
    requires
        all_digits(front),
        numeral(front) > limit,
    ensures
        magnitude(front + rest, limit, overflow) == Err::<nat, NumberError>(overflow),
    decreases rest.len(),
{
    if rest.len() == 0 {
        assert(front + rest == front);
        lemma_magnitude(front, limit, overflow);
    } else {
        assert((front + rest).drop_last() == front + rest.drop_last());
        lemma_magnitude_overflows(front, rest.drop_last(), limit, overflow);
    }
}

/// Digits that are too large for the type make a text too large, whatever follows them.
pub proof fn law_too_many_digits_overflow(digits: Seq<char>, rest: Seq<char>)
    requires
        all_digits(digits),
    ensures
        numeral(digits) > u64::MAX ==> unsigned_value(digits + rest) == Err::<nat, NumberError>(
            NumberError::PosOverflow,
        ) && unsigned_value(seq!['+'] + digits + rest) == Err::<nat, NumberError>(
            NumberError::PosOverflow,
        ),
        numeral(digits) > isize::MAX ==> signed_value(digits + rest) == Err::<int, NumberError>(
            NumberError::PosOverflow,
        ) && signed_value(seq!['+'] + digits + rest) == Err::<int, NumberError>(
            NumberError::PosOverflow,
        ),
        -numeral(digits) < isize::MIN ==> signed_value(seq!['-'] + digits + rest) == Err::<
            int,
            NumberError,
        >(NumberError::NegOverflow),
{
    if numeral(digits) > 0 {
        assert(digits.len() > 0);
        assert('0' <= digits[0] <= '9');
        assert((digits + rest)[0] == digits[0]);
        assert((seq!['+'] + digits + rest).skip(1) == digits + rest);
        assert((seq!['-'] + digits + rest).skip(1) == digits + rest);
    }
    if numeral(digits) > u64::MAX {
        lemma_magnitude_overflows(digits, rest, u64::MAX as nat, NumberError::PosOverflow);
    }
    if numeral(digits) > isize::MAX {
        lemma_magnitude_overflows(digits, rest, isize::MAX as nat, NumberError::PosOverflow);
    }
    if -numeral(digits) < isize::MIN {
        lemma_magnitude_overflows(digits, rest, (isize::MAX + 1) as nat, NumberError::NegOverflow);
    }
}

} // verus!
