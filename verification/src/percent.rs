//! Relative changes, as percentages.
//!
//! A percentage is computed in double precision: every intermediate result is rounded to the
//! nearest number with 53 significant bits, ties to even, as IEEE 754 prescribes. The numbers
//! that occur are far from the limits of the exponent, so each is an integer or an integer over
//! a power of two, and the module works with those integers.

use crate::number::{append_decimal, append_fixed_decimal};
#[allow(unused_imports)]
use crate::number::{decimal, fixed_decimal, is_digit, lemma_decimal_digits};
use crate::text::pad_left;
#[allow(unused_imports)]
use crate::text::padded;
#[allow(unused_imports)]
use vstd::arithmetic::power::{lemma_pow0, lemma_pow1, lemma_pow_adds, lemma_pow_positive, pow};
#[allow(unused_imports)]
use vstd::arithmetic::power2::{
    lemma2_to64, lemma_pow2_pos, lemma_pow2_strictly_increases, lemma_pow2_unfold, pow2,
};
use vstd::prelude::*;

verus! {

/// Two to the number of significant bits of a double.
pub const SIGNIFICANDS: u128 = 0x20_0000_0000_0000;

/// A percentage: `numerator / denominator`, or its negation.
struct Percentage {
    negative: bool,
    numerator: u128,
    denominator: u128,
}

/// The integer that is nearest to `n / d`; of two that are equally near, the even one.
pub open spec fn nearest(n: nat, d: nat) -> nat {
    if 2 * (n % d) < d || (2 * (n % d) == d && (n / d) % 2 == 0) {
        n / d
    } else {
        n / d + 1
    }
}

/// The multiple of `unit` that is nearest to `n`, where `unit` is first doubled until at most 53
/// bits are left of `n`.
pub open spec fn nearest_multiple(n: nat, unit: nat) -> nat
    decreases n - unit,
{
    if unit == 0 || n < unit * SIGNIFICANDS {
        nearest(n, unit) * unit
    } else {
        nearest_multiple(n, 2 * unit)
    }
}

/// The double that is nearest to the integer `n`.
pub open spec fn double(n: nat) -> nat {
    nearest_multiple(n, 1)
}

/// The double that is nearest to `n / d`, as a numerator and a denominator: the scale is changed
/// by powers of two until the quotient has 53 bits before the point, and those are kept.
pub open spec fn double_quotient(n: nat, d: nat) -> (nat, nat)
    decreases
            (if n >= d * SIGNIFICANDS {
                1int
            } else {
                0int
            }),
            (if n >= d * SIGNIFICANDS {
                n - d
            } else {
                d * SIGNIFICANDS - n
            }),
{
    if n == 0 || d == 0 {
        (0, 1)
    } else if n >= d * SIGNIFICANDS {
        let (p, q) = double_quotient(n, 2 * d);
        (2 * p, q)
    } else if 2 * n < d * SIGNIFICANDS {
        let (p, q) = double_quotient(2 * n, d);
        (p, 2 * q)
    } else {
        (nearest(n, d), 1)
    }
}

/// How far `a` is from `b`.
pub open spec fn distance(a: nat, b: nat) -> nat {
    if a < b {
        (b - a) as nat
    } else {
        (a - b) as nat
    }
}

/// `(new - old) / old * 100` in double precision: whether it is negative, and its absolute value
/// as a numerator and a denominator.
pub open spec fn relative_change(new: nat, old: nat) -> (bool, nat, nat) {
    let difference = double(distance(double(new), double(old)));
    let (p, q) = double_quotient(difference, double(old));
    (double(new) < double(old), double(100 * p), q)
}

/// How many decimals a percentage is shown with: six below ten, and one less from each further
/// power of ten on.
pub open spec fn decimals(numerator: nat, denominator: nat) -> nat {
    if numerator / denominator < 10 {
        6
    } else if numerator / denominator < 100 {
        5
    } else if numerator / denominator < 1_000 {
        4
    } else if numerator / denominator < 10_000 {
        3
    } else if numerator / denominator < 100_000 {
        2
    } else if numerator / denominator < 1_000_000 {
        1
    } else {
        0
    }
}

/// Ten to the power of `k`.
pub open spec fn power_of_ten(k: nat) -> nat
    decreases k,
{
    if k == 0 {
        1
    } else {
        10 * power_of_ten((k - 1) as nat)
    }
}

/// A sign, and `numerator / denominator` rounded to the number of decimals that suits it.
pub open spec fn short_text(negative: bool, numerator: nat, denominator: nat) -> Seq<char> {
    let places = decimals(numerator, denominator);
    let scaled = nearest(numerator * power_of_ten(places), denominator);
    let sign = if negative {
        "-"@
    } else {
        "+"@
    };
    let whole = sign + decimal(scaled / power_of_ten(places));
    if places == 0 {
        whole
    } else {
        whole + "."@ + fixed_decimal(scaled, places)
    }
}

/// The annotation that follows a counter whose earlier value is known.
pub open spec fn difference_text(new: nat, old: nat) -> Seq<char> {
    if old == 0 {
        " (N/A)"@
    } else if new == old {
        " (No change)"@
    } else {
        let (negative, numerator, denominator) = relative_change(new, old);
        " ("@ + padded(short_text(negative, numerator, denominator), 6) + "%)"@
    }
}

/// Rounding a quotient that is at least one at most doubles it.
proof fn lemma_nearest_bound(n: nat, d: nat)
    requires
        0 < d <= n,
    ensures
        0 < nearest(n, d) * d <= 2 * n,
        n / d <= nearest(n, d) <= n / d + 1,
{
    let q = n / d;
    assert(q >= 1 && q * d <= n && (q + 1) * d <= 2 * n && d > 0) by (nonlinear_arith)
        requires
            0 < d <= n,
            q == n / d,
    ;
    assert(nearest(n, d) * d <= (q + 1) * d && nearest(n, d) * d > 0) by (nonlinear_arith)
        requires
            d > 0,
            1 <= q <= nearest(n, d) <= q + 1,
    ;
}

/// The integer that is nearest to `n / d`; of two that are equally near, the even one.
fn round_quotient(n: u128, d: u128) -> (r: u128)
    requires
        d > 0,
        n < 0x8000_0000_0000_0000_0000_0000_0000_0000,
    ensures
        r == nearest(n as nat, d as nat),
{
    let q: u128 = n / d;
    let rest: u128 = n % d;
    assert(rest < d && rest <= n && q <= n) by (nonlinear_arith)
        requires
            d > 0,
            q == n / d,
            rest == n % d,
    ;
    if 2 * rest < d || (2 * rest == d && q % 2 == 0) {
        q
    } else {
        q + 1
    }
}

/// The multiple of `unit` that is nearest to `n`, where `unit` is first doubled until at most 53
/// bits are left of `n`.
fn round_to_unit(n: u128, unit: u128) -> (r: u128)
    requires
        n < 0x1000_0000_0000_0000_0000_0000,
        unit == 1 || (0 < unit && unit * SIGNIFICANDS <= 2 * n),
    ensures
        r == nearest_multiple(n as nat, unit as nat),
        r <= 2 * n,
        n > 0 ==> r > 0,
    decreases n - unit,
{
    if n < unit * SIGNIFICANDS {
        proof {
            if n == 0 {
                assert(nearest(n as nat, unit as nat) == 0);
            } else {
                lemma_nearest_bound(n as nat, unit as nat);
            }
        }
        round_quotient(n, unit) * unit
    } else {
        round_to_unit(n, 2 * unit)
    }
}

/// The double that is nearest to the integer `n`.
fn round_to_double(n: u128) -> (r: u128)
    requires
        n < 0x1000_0000_0000_0000_0000_0000,
    ensures
        r == double(n as nat),
        r <= 2 * n,
        n > 0 ==> r > 0,
{
    round_to_unit(n, 1)
}

/// The double that is nearest to `n / d`, as a numerator and a denominator.
fn divide(n: u128, d: u128) -> (r: (u128, u128))
    requires
        0 < d <= 0x2_0000_0000_0000_0000,
        n <= 0x4_0000_0000_0000_0000 || n < d * SIGNIFICANDS,
    ensures
        (r.0 as nat, r.1 as nat) == double_quotient(n as nat, d as nat),
        r.1 > 0,
        n < d * SIGNIFICANDS ==> r.0 <= SIGNIFICANDS,
        n < d * SIGNIFICANDS && n > 0 ==> n * r.1 < d * SIGNIFICANDS,
        2 * n >= d * SIGNIFICANDS ==> r.1 == 1 && r.0 * d <= 2 * n,
    decreases
            (if n >= d * SIGNIFICANDS {
                1int
            } else {
                0int
            }),
            (if n >= d * SIGNIFICANDS {
                n - d
            } else {
                d * SIGNIFICANDS - n
            }),
{
    if n == 0 {
        (0, 1)
    } else if n >= d * SIGNIFICANDS {
        let (p, q) = divide(n, 2 * d);
        proof {
            assert(p <= n && (2 * p) * d <= 2 * n) by (nonlinear_arith)
                requires
                    p * (2 * d) <= 2 * n,
                    d > 0,
            ;
        }
        (2 * p, q)
    } else if 2 * n < d * SIGNIFICANDS {
        let (p, q) = divide(2 * n, d);
        proof {
            assert(q <= (2 * n) * q && n * (2 * q) == (2 * n) * q) by (nonlinear_arith)
                requires
                    n > 0,
                    q > 0,
            ;
        }
        (p, 2 * q)
    } else {
        proof {
            lemma_nearest_bound(n as nat, d as nat);
            assert(n / d < SIGNIFICANDS) by (nonlinear_arith)
                requires
                    n < d * SIGNIFICANDS,
                    d > 0,
            ;
        }
        (round_quotient(n, d), 1)
    }
}

impl Percentage {
    /// The bounds within which a percentage can be shown.
    spec fn wf(self) -> bool {
        self.denominator > 0 && self.numerator < 0x1000_0000_0000_0000_0000_0000
    }
}

/// `(new - old) / old * 100` in double precision.
fn relative_percentage(new: u64, old: u64) -> (r: Percentage)
    requires
        old > 0,
    ensures
        r.wf(),
        (r.negative, r.numerator as nat, r.denominator as nat) == relative_change(
            new as nat,
            old as nat,
        ),
{
    let a: u128 = round_to_double(new as u128);
    let b: u128 = round_to_double(old as u128);
    let gap: u128 = if a < b {
        b - a
    } else {
        a - b
    };
    let difference: u128 = round_to_double(gap);
    let (p, q) = divide(difference, b);
    assert(p <= 0x8_0000_0000_0000_0000) by {
        if 2 * difference >= b * SIGNIFICANDS {
            assert(p <= p * b) by (nonlinear_arith)
                requires
                    b > 0,
            ;
        }
    }
    let numerator: u128 = round_to_double(100 * p);
    Percentage { negative: a < b, numerator, denominator: q }
}

/// How many decimals a percentage is shown with.
fn choose_decimals(numerator: u128, denominator: u128) -> (r: usize)
    requires
        denominator > 0,
    ensures
        r == decimals(numerator as nat, denominator as nat),
        r <= 6,
{
    let n: u128 = numerator / denominator;
    if n < 10 {
        6
    } else if n < 100 {
        5
    } else if n < 1_000 {
        4
    } else if n < 10_000 {
        3
    } else if n < 100_000 {
        2
    } else if n < 1_000_000 {
        1
    } else {
        0
    }
}

/// Ten to the power of `k`.
fn ten_to(k: usize) -> (r: u128)
    requires
        k <= 6,
    ensures
        r == power_of_ten(k as nat),
        0 < r <= 1_000_000,
{
    proof {
        reveal_with_fuel(power_of_ten, 7);
    }
    if k == 0 {
        1
    } else if k == 1 {
        10
    } else if k == 2 {
        100
    } else if k == 3 {
        1_000
    } else if k == 4 {
        10_000
    } else if k == 5 {
        100_000
    } else {
        1_000_000
    }
}

/// The text of a percentage: compact, aligned and always with its sign. The larger the
/// percentage, the fewer its decimals.
fn signed_short(n: &Percentage) -> (r: String)
    requires
        n.wf(),
    ensures
        r@ == short_text(n.negative, n.numerator as nat, n.denominator as nat),
{
    let places: usize = choose_decimals(n.numerator, n.denominator);
    let factor: u128 = ten_to(places);
    assert(n.numerator * factor <= n.numerator * 1_000_000) by (nonlinear_arith)
        requires
            factor <= 1_000_000,
    ;
    let scaled: u128 = round_quotient(n.numerator * factor, n.denominator);
    let mut r: String = if n.negative {
        "-".to_owned()
    } else {
        "+".to_owned()
    };
    append_decimal(&mut r, scaled / factor);
    if places > 0 {
        r.append(".");
        append_fixed_decimal(&mut r, scaled, places);
    }
    r
}

/// The relative change between `new` and `old`, as the annotation of a report line.
///
/// It is ` (N/A)` where `old` is zero, for there is nothing to divide by.
pub fn percentage_diff(new: u64, old: u64) -> (r: String)
    ensures
        r@ == difference_text(new as nat, old as nat),
{
    if old == 0 {
        return " (N/A)".to_owned();
    }
    if new == old {
        return " (No change)".to_owned();
    }
    let change = relative_percentage(new, old);
    let mut r: String = " (".to_owned();
    r.append(pad_left(signed_short(&change).as_str(), 6).as_str());
    r.append("%)");
    r
}

/// A counter up to two to the power of 53 is a double as it is.
pub proof fn law_small_counters_are_exact(n: nat)
    requires
        n <= SIGNIFICANDS,
    ensures
        double(n) == n,
{
    assert(n % 1 == 0 && n / 1 == n);
    if n == SIGNIFICANDS {
        assert(nearest_multiple(n, 2) == nearest(n, 2) * 2);
    }
}

/// Of two different counters that are doubles as they are, the annotation begins with a minus sign
/// where the new one is below the old one, and with a plus sign where it is above.
pub proof fn law_sign_shows_direction(new: nat, old: nat)
    requires
        new != old,
        old > 0,
        new <= SIGNIFICANDS,
        old <= SIGNIFICANDS,
    ensures
        new < old ==> " (-"@.is_prefix_of(difference_text(new, old)),
        new > old ==> " (+"@.is_prefix_of(difference_text(new, old)),
{
    law_small_counters_are_exact(new);
    law_small_counters_are_exact(old);
    let (negative, numerator, denominator) = relative_change(new, old);
    let short = short_text(negative, numerator, denominator);
    law_quotients_are_close(double(distance(new, old)), old);
    law_percentage_has_its_decimals(negative, numerator, denominator);
    lemma_short_text_fills_its_column(negative, numerator, denominator);
    reveal_strlit("-");
    reveal_strlit("+");
    reveal_strlit(" (");
    reveal_strlit(" (-");
    reveal_strlit(" (+");
    let text = difference_text(new, old);
    assert(text == " ("@ + short + "%)"@);
    assert(text[2] == short[0]);
}

/// The texts of a percentage and of its negation differ in their first character alone, which is
/// the sign.
pub proof fn law_negation_changes_the_sign_alone(numerator: nat, denominator: nat)
    ensures
        short_text(false, numerator, denominator)[0] == '+',
        short_text(true, numerator, denominator)[0] == '-',
        short_text(false, numerator, denominator).skip(1) == short_text(
            true,
            numerator,
            denominator,
        ).skip(1),
{
    reveal_strlit("-");
    reveal_strlit("+");
    assert(short_text(false, numerator, denominator).skip(1) == short_text(
        true,
        numerator,
        denominator,
    ).skip(1));
}

/// A percentage is shown with six decimals below 10, five below 100, four below 1000, three below
/// 10000, two below 100000, one below 1000000, and with neither decimals nor a point from there on.
/// In front of the decimals stand the sign, some digits and the point, and nothing else.
pub proof fn law_percentage_has_its_decimals(negative: bool, numerator: nat, denominator: nat)
    requires
        denominator > 0,
    ensures
        ({
            let places = decimals(numerator, denominator);
            let text = short_text(negative, numerator, denominator);
            let point = text.len() - places - 1;
            &&& places == (if numerator < 10 * denominator {
                6int
            } else if numerator < 100 * denominator {
                5
            } else if numerator < 1_000 * denominator {
                4
            } else if numerator < 10_000 * denominator {
                3
            } else if numerator < 100_000 * denominator {
                2
            } else if numerator < 1_000_000 * denominator {
                1
            } else {
                0
            })
            &&& if places == 0 {
                &&& text.len() >= 2
                &&& forall|i: int| 1 <= i < text.len() ==> is_digit(#[trigger] text[i])
            } else {
                &&& point >= 2
                &&& text[point] == '.'
                &&& forall|i: int|
                    1 <= i < text.len() && i != point ==> is_digit(#[trigger] text[i])
            }
        }),
{
    let n = numerator;
    let d = denominator;
    let whole = n / d;
    assert((whole < 10 <==> n < 10 * d) && (whole < 100 <==> n < 100 * d) && (whole < 1_000 <==> n
        < 1_000 * d) && (whole < 10_000 <==> n < 10_000 * d) && (whole < 100_000 <==> n < 100_000
        * d) && (whole < 1_000_000 <==> n < 1_000_000 * d)) by (nonlinear_arith)
        requires
            d > 0,
            whole == n / d,
    ;
    let places = decimals(n, d);
    let scaled = nearest(n * power_of_ten(places), d);
    lemma_decimal_digits(scaled / power_of_ten(places));
    lemma_fixed_decimal_digits(scaled, places);
    reveal_strlit("-");
    reveal_strlit("+");
    reveal_strlit(".");
}

/// A number of fixed width has that many digits.
proof fn lemma_fixed_decimal_digits(n: nat, width: nat)
    ensures
        fixed_decimal(n, width).len() == width,
        forall|i: int|
            0 <= i < width ==> is_digit(#[trigger] fixed_decimal(n, width)[i]),
    decreases width,
{
    if width > 0 {
        lemma_fixed_decimal_digits(n / 10, (width - 1) as nat);
    }
}

/// A number that is at least ten to the power of `k` has more than `k` digits.
proof fn lemma_decimal_len(n: nat, k: nat)
    requires
        n >= power_of_ten(k),
    ensures
        decimal(n).len() > k,
    decreases k,
{
    if k > 0 {
        lemma_power_of_ten_is_positive((k - 1) as nat);
        lemma_decimal_len(n / 10, (k - 1) as nat);
    } else {
        lemma_decimal_digits(n);
    }
}

/// A power of ten is positive.
proof fn lemma_power_of_ten_is_positive(k: nat)
    ensures
        power_of_ten(k) > 0,
    decreases k,
{
    if k > 0 {
        lemma_power_of_ten_is_positive((k - 1) as nat);
    }
}

/// The text of a percentage is never shorter than the column that it stands in.
proof fn lemma_short_text_fills_its_column(negative: bool, numerator: nat, denominator: nat)
    requires
        denominator > 0,
    ensures
        short_text(negative, numerator, denominator).len() >= 6,
{
    let places = decimals(numerator, denominator);
    let factor = power_of_ten(places);
    let whole = numerator / denominator;
    let scaled = nearest(numerator * factor, denominator);
    lemma_power_of_ten_is_positive(places);
    assert(scaled / factor >= whole) by (nonlinear_arith)
        requires
            factor > 0,
            denominator > 0,
            whole == numerator / denominator,
            scaled >= (numerator * factor) / denominator,
    {
        assert(whole * denominator <= numerator);
        assert(whole * factor * denominator <= numerator * factor);
        assert(whole * factor <= (numerator * factor) / denominator);
        assert(whole <= scaled / factor);
    }
    reveal_with_fuel(power_of_ten, 7);
    lemma_decimal_digits(scaled / factor);
    lemma_fixed_decimal_digits(scaled, places);
    if whole >= 10_000 {
        lemma_decimal_len(scaled / factor, 4);
    }
    reveal_strlit("-");
    reveal_strlit("+");
    reveal_strlit(".");
}

/// Rounding to an integer is off by a half at most.
proof fn lemma_nearest_is_close(n: nat, d: nat)
    requires
        d > 0,
    ensures
        2 * distance(nearest(n, d) * d, n) <= d,
{
    let q = n / d;
    let rest = n % d;
    assert(q * d + rest == n && rest < d && (q + 1) * d == q * d + d) by (nonlinear_arith)
        requires
            d > 0,
            q == n / d,
            rest == n % d,
    ;
}

/// A double is off from the integer that it stands for by one part in two to the power of 53 at
/// most.
pub proof fn law_doubles_are_close(n: nat)
    ensures
        distance(double(n), n) * SIGNIFICANDS <= n,
{
    if n < SIGNIFICANDS {
        law_small_counters_are_exact(n);
    }
    lemma_multiple_is_close(n, 1);
}

/// A multiple of a unit that leaves 53 bits is close.
proof fn lemma_multiple_is_close(n: nat, unit: nat)
    requires
        unit == 1 || (0 < unit && unit * SIGNIFICANDS <= 2 * n),
    ensures
        n >= SIGNIFICANDS ==> distance(nearest_multiple(n, unit), n) * SIGNIFICANDS <= n,
    decreases n - unit,
{
    if n >= SIGNIFICANDS {
        if n < unit * SIGNIFICANDS {
            lemma_nearest_is_close(n, unit);
            let error = distance(nearest(n, unit) * unit, n);
            assert(error * SIGNIFICANDS <= n) by (nonlinear_arith)
                requires
                    2 * error <= unit,
                    unit * SIGNIFICANDS <= 2 * n,
            ;
        } else {
            lemma_multiple_is_close(n, 2 * unit);
        }
    }
}

/// A quotient in double precision is off from the exact one by one part in two to the power of 53
/// at most.
pub proof fn law_quotients_are_close(n: nat, d: nat)
    requires
        d > 0,
    ensures
        ({
            let (p, q) = double_quotient(n, d);
            &&& q > 0
            &&& distance(p * d, n * q) * SIGNIFICANDS <= n * q
        }),
    decreases
            (if n >= d * SIGNIFICANDS {
                1int
            } else {
                0int
            }),
            (if n >= d * SIGNIFICANDS {
                n - d
            } else {
                d * SIGNIFICANDS - n
            }),
{
    if n == 0 {
        assert(0 * d == 0) by (nonlinear_arith);
    } else if n >= d * SIGNIFICANDS {
        law_quotients_are_close(n, 2 * d);
        let (p, q) = double_quotient(n, 2 * d);
        assert((2 * p) * d == p * (2 * d)) by (nonlinear_arith);
    } else if 2 * n < d * SIGNIFICANDS {
        law_quotients_are_close(2 * n, d);
        let (p, q) = double_quotient(2 * n, d);
        assert(n * (2 * q) == (2 * n) * q) by (nonlinear_arith);
    } else {
        lemma_nearest_is_close(n, d);
        let error = distance(nearest(n, d) * d, n);
        assert(error * SIGNIFICANDS <= n) by (nonlinear_arith)
            requires
                2 * error <= d,
                d * SIGNIFICANDS <= 2 * n,
        ;
        assert(n * 1 == n);
    }
}

/// The distance of two numbers is the larger one less the smaller one.
pub proof fn law_distance_is_the_difference(a: nat, b: nat)
    ensures
        a <= b ==> distance(a, b) == b - a && distance(b, a) == b - a,
{
}

/// Rounding goes to the nearest integer, and to the even one of two that are equally near.
pub proof fn law_rounding_goes_to_the_nearest(n: nat, d: nat)
    requires
        d > 0,
    ensures
        2 * (nearest(n, d) * d) <= 2 * n + d,
        2 * n <= 2 * (nearest(n, d) * d) + d,
        2 * (nearest(n, d) * d) == 2 * n + d || 2 * n == 2 * (nearest(n, d) * d) + d ==> nearest(n, d)
            % 2 == 0,
{
    let q = n / d;
    let rest = n % d;
    assert(q * d + rest == n && rest < d && (q + 1) * d == q * d + d) by (nonlinear_arith)
        requires
            d > 0,
            q == n / d,
            rest == n % d,
    ;
}

/// A double keeps 53 bits of an integer: where the integer has `k` bits more, the double is the
/// nearest multiple of two to the power of `k`, and an even multiple of two that are equally near.
pub proof fn law_doubles_keep_their_bits(n: nat, k: nat)
    requires
        n < 0x20_0000_0000_0000 * pow2(k),
        k > 0 ==> n >= 0x20_0000_0000_0000 * pow2((k - 1) as nat),
    ensures
        exists|m: nat|
            {
                &&& double(n) == #[trigger] (m * pow2(k))
                &&& 2 * double(n) <= 2 * n + pow2(k)
                &&& 2 * n <= 2 * double(n) + pow2(k)
                &&& 2 * double(n) == 2 * n + pow2(k) || 2 * n == 2 * double(n) + pow2(k) ==> m % 2
                    == 0
            },
{
    lemma2_to64();
    lemma_unit_is_doubled(n, 0, k);
    lemma_pow2_pos(k);
    law_rounding_goes_to_the_nearest(n, pow2(k));
    assert(double(n) == nearest(n, pow2(k)) * pow2(k));
}

/// The unit is doubled until it leaves 53 bits.
proof fn lemma_unit_is_doubled(n: nat, j: nat, k: nat)
    requires
        j <= k,
        n < SIGNIFICANDS * pow2(k),
        k > 0 ==> n >= SIGNIFICANDS * pow2((k - 1) as nat),
    ensures
        nearest_multiple(n, pow2(j)) == nearest(n, pow2(k)) * pow2(k),
    decreases k - j,
{
    lemma_pow2_pos(j);
    assert(pow2(j) * SIGNIFICANDS == SIGNIFICANDS * pow2(j));
    if j < k {
        if j < k - 1 {
            lemma_pow2_strictly_increases(j, (k - 1) as nat);
        }
        assert(n >= SIGNIFICANDS * pow2(j));
        lemma_pow2_unfold(j + 1);
        assert(2 * pow2(j) == pow2(j + 1));
        lemma_unit_is_doubled(n, j + 1, k);
    } else {
        assert(pow2(k) * SIGNIFICANDS == SIGNIFICANDS * pow2(k));
    }
}

/// The relative change of two counters is that of the doubles that they are rounded to, off by
/// seven parts in two to the power of 53 at most, and it is negative where the counter fell.
pub proof fn law_change_is_that_of_the_doubles(new: nat, old: nat)
    requires
        old > 0,
    ensures
        ({
            let (negative, n, d) = relative_change(new, old);
            let a = double(new);
            let b = double(old);
            let gap = if a < b {
                b - a
            } else {
                a - b
            };
            let exact = 100 * (gap * d);
            &&& d > 0
            &&& negative <==> a < b
            &&& 0x20_0000_0000_0000 * (n * b) <= 0x20_0000_0000_0000 * exact + 7 * exact
            &&& 0x20_0000_0000_0000 * exact - 7 * exact <= 0x20_0000_0000_0000 * (n * b)
            &&& double(gap as nat) == gap ==> {
                &&& 0x20_0000_0000_0000 * (n * b) <= 0x20_0000_0000_0000 * exact + 3 * exact
                &&& 0x20_0000_0000_0000 * exact - 3 * exact <= 0x20_0000_0000_0000 * (n * b)
            }
        }),
{
    law_doubles_are_close(old);
    let a = double(new);
    let b = double(old);
    let gap = distance(a, b);
    let rounded = double(gap);
    let (p, q) = double_quotient(rounded, b);
    let n = double(100 * p);
    law_doubles_are_close(gap);
    law_quotients_are_close(rounded, b);
    law_doubles_are_close(100 * p);
    let w: int = (n * b) as int;
    let x: int = (p * b) as int;
    let y: int = (rounded * q) as int;
    let z: int = (gap * q) as int;
    assert(0x20_0000_0000_0000 * (w - 100 * x) <= 100 * x && 0x20_0000_0000_0000 * (100 * x - w)
        <= 100 * x) by (nonlinear_arith)
        requires
            w == n * b,
            x == p * b,
            0x20_0000_0000_0000 * (n - 100 * p) <= 100 * p,
            0x20_0000_0000_0000 * (100 * p - n) <= 100 * p,
            b > 0,
    ;
    assert(0x20_0000_0000_0000 * (y - z) <= z && 0x20_0000_0000_0000 * (z - y) <= z)
        by (nonlinear_arith)
        requires
            y == rounded * q,
            z == gap * q,
            0x20_0000_0000_0000 * (rounded - gap) <= gap,
            0x20_0000_0000_0000 * (gap - rounded) <= gap,
            q > 0,
    ;
    assert(0x20_0000_0000_0000 * (x - y) <= y && 0x20_0000_0000_0000 * (y - x) <= y);
    assert(x >= 0 && y >= 0 && z >= 0) by (nonlinear_arith)
        requires
            x == p * b,
            y == rounded * q,
            z == gap * q,
    ;
    assert(0x20_0000_0000_0000 * w <= 0x20_0000_0000_0000 * (100 * z) + 7 * (100 * z));
    assert(0x20_0000_0000_0000 * (100 * z) - 7 * (100 * z) <= 0x20_0000_0000_0000 * w);
}

/// The relative change of two counters up to two to the power of 53 is the exact one, off by three
/// parts in two to the power of 53 at most: it is a hundred times their difference over the old one.
pub proof fn law_change_is_the_difference_over_the_old(new: nat, old: nat)
    requires
        0 < old <= 0x20_0000_0000_0000,
        new <= 0x20_0000_0000_0000,
    ensures
        ({
            let (negative, n, d) = relative_change(new, old);
            let gap = if new < old {
                old - new
            } else {
                new - old
            };
            let exact = 100 * (gap * d);
            &&& d > 0
            &&& negative <==> new < old
            &&& 0x20_0000_0000_0000 * (n * old) <= 0x20_0000_0000_0000 * exact + 3 * exact
            &&& 0x20_0000_0000_0000 * exact - 3 * exact <= 0x20_0000_0000_0000 * (n * old)
        }),
{
    law_small_counters_are_exact(new);
    law_small_counters_are_exact(old);
    law_small_counters_are_exact(distance(new, old));
    law_change_is_that_of_the_doubles(new, old);
}

/// Whether `text` is the annotation with a sign, `scaled` with its last `places` digits behind a
/// point, and a percent sign.
pub open spec fn spells(text: Seq<char>, negative: bool, scaled: nat, places: nat) -> bool {
    let whole = decimal((scaled as int / pow(10, places)) as nat);
    text == seq![' ', '(', if negative {
        '-'
    } else {
        '+'
    }] + whole + (if places == 0 {
        Seq::empty()
    } else {
        seq!['.'] + fixed_decimal(scaled, places)
    }) + seq!['%', ')']
}

/// The power of ten is that of the integers.
proof fn lemma_power_of_ten_is_a_power(k: nat)
    ensures
        power_of_ten(k) == pow(10, k),
    decreases k,
{
    lemma_pow0(10);
    if k > 0 {
        lemma_power_of_ten_is_a_power((k - 1) as nat);
        lemma_pow1(10);
        lemma_pow_adds(10, (k - 1) as nat, 1);
    }
}

/// The annotation of two different counters spells their relative change, rounded to the decimals
/// that it is shown with.
pub proof fn law_annotation_spells_the_change(new: nat, old: nat) -> (scaled: nat)
    requires
        old > 0,
        new != old,
    ensures
        ({
            let (negative, n, d) = relative_change(new, old);
            let places = decimals(n, d);
            let power = pow(10, places);
            &&& spells(difference_text(new, old), negative, scaled, places)
            &&& 2 * (scaled * d) <= 2 * (n * power) + d
            &&& 2 * (n * power) <= 2 * (scaled * d) + d
        }),
{
    let (negative, n, d) = relative_change(new, old);
    let places = decimals(n, d);
    let scaled = nearest(n * power_of_ten(places), d);
    law_change_is_that_of_the_doubles(new, old);
    lemma_power_of_ten_is_a_power(places);
    law_rounding_goes_to_the_nearest(n * power_of_ten(places), d);
    lemma_short_text_fills_its_column(negative, n, d);
    reveal_strlit(" (");
    reveal_strlit("%)");
    reveal_strlit("+");
    reveal_strlit("-");
    reveal_strlit(".");
    let short = short_text(negative, n, d);
    assert(difference_text(new, old) == " ("@ + short + "%)"@);
    lemma_power_of_ten_is_positive(places);
    let whole = decimal((scaled as int / pow(10, places)) as nat);
    assert(whole == decimal(scaled / power_of_ten(places)));
    let sign = if negative {
        '-'
    } else {
        '+'
    };
    let fraction = if places == 0 {
        Seq::empty()
    } else {
        seq!['.'] + fixed_decimal(scaled, places)
    };
    assert(short =~= seq![sign] + whole + fraction);
    assert(difference_text(new, old) =~= seq![' ', '(', sign] + whole + fraction + seq!['%', ')']);
    scaled
}

/// The annotation of two different counters up to two to the power of 53 spells a hundred times
/// their difference over the old one, to within a half of its last decimal, and ahead of it whether
/// the counter rose or fell.
pub proof fn law_annotation_is_the_percentage(new: nat, old: nat) -> (scaled: nat)
    requires
        new != old,
        0 < old <= 0x20_0000_0000_0000,
        new <= 0x20_0000_0000_0000,
    ensures
        ({
            let (_, n, d) = relative_change(new, old);
            let places = decimals(n, d);
            let exact = 100 * ((if new < old {
                old - new
            } else {
                new - old
            }) * pow(10, places));
            let slack = 0x20_0000_0000_0000 * old + 6 * exact;
            &&& spells(difference_text(new, old), new < old, scaled, places)
            &&& 2 * (0x20_0000_0000_0000 * (scaled * old - exact)) <= slack
            &&& 2 * (0x20_0000_0000_0000 * (exact - scaled * old)) <= slack
        }),
{
    let scaled = law_annotation_spells_the_change(new, old);
    law_change_is_the_difference_over_the_old(new, old);
    let (_, n, d) = relative_change(new, old);
    let power = pow(10, decimals(n, d));
    lemma_pow_positive(10, decimals(n, d));
    let gap: int = if new < old {
        old - new
    } else {
        new - old
    };
    let s: int = SIGNIFICANDS as int;
    // Everything is multiplied by the denominator, and divided by it in the end.
    let shown: int = ((scaled * old) * d) as int;
    let middle: int = (n * old) * power;
    let exact: int = (100 * (gap * power)) * d;
    assert(2 * (shown - middle) <= old * d && 2 * (middle - shown) <= old * d) by (nonlinear_arith)
        requires
            shown == (scaled * old) * d,
            middle == (n * old) * power,
            2 * (scaled * d) <= 2 * (n * power) + d,
            2 * (n * power) <= 2 * (scaled * d) + d,
            old > 0,
    ;
    assert(s * (middle - exact) <= 3 * exact && s * (exact - middle) <= 3 * exact)
        by (nonlinear_arith)
        requires
            middle == (n * old) * power,
            exact == (100 * (gap * power)) * d,
            s * (n * old) <= (s + 3) * (100 * (gap * d)),
            (s - 3) * (100 * (gap * d)) <= s * (n * old),
            power > 0,
    ;
    let e: int = 100 * (gap * power);
    let t: int = (scaled * old) as int;
    assert(2 * (s * (t - e)) <= s * old + 6 * e && 2 * (s * (e - t)) <= s * old + 6 * e)
        by (nonlinear_arith)
        requires
            shown == t * d,
            exact == e * d,
            2 * (shown - middle) <= old * d,
            2 * (middle - shown) <= old * d,
            s * (middle - exact) <= 3 * exact,
            s * (exact - middle) <= 3 * exact,
            d > 0,
            s > 0,
    {
        assert((2 * (s * (t - e))) * d <= (s * old + 6 * e) * d);
        assert((2 * (s * (e - t))) * d <= (s * old + 6 * e) * d);
    }
    scaled
}

/// Nothing is said of the change of a counter that was zero, and a counter that is what it was has
/// not changed.
pub proof fn law_zero_and_equal_counters_have_no_percentage(counter: nat)
    ensures
        difference_text(counter, 0) == " (N/A)"@,
        counter > 0 ==> difference_text(counter, counter) == " (No change)"@,
{
}

/// Whether `p / q` keeps 53 bits of `n / d`, where that is scaled up by two to the power of `j`.
pub open spec fn scaled_up(n: nat, d: nat, p: nat, q: nat, j: nat) -> bool {
    &&& d * 0x10_0000_0000_0000 <= n * pow2(j) < d * 0x20_0000_0000_0000
    &&& q == pow2(j)
    &&& p == nearest(n * pow2(j), d)
}

/// Whether `p / q` keeps 53 bits of `n / d`, where that is scaled down by two to the power of `j`.
pub open spec fn scaled_down(n: nat, d: nat, p: nat, q: nat, j: nat) -> bool {
    &&& (d * pow2(j)) * 0x10_0000_0000_0000 <= n < (d * pow2(j)) * 0x20_0000_0000_0000
    &&& q == 1
    &&& p == nearest(n, d * pow2(j)) * pow2(j)
}

/// A quotient in double precision keeps 53 bits of the exact one: it is scaled by a power of two so
/// that it lies between two to the power of 52 and two to the power of 53, and rounded there.
pub proof fn law_quotients_keep_their_bits(n: nat, d: nat) -> (j: nat)
    requires
        n > 0,
        d > 0,
    ensures
        ({
            let (p, q) = double_quotient(n, d);
            scaled_up(n, d, p, q, j) || scaled_down(n, d, p, q, j)
        }),
    decreases
            (if n >= d * SIGNIFICANDS {
                1int
            } else {
                0int
            }),
            (if n >= d * SIGNIFICANDS {
                n - d
            } else {
                d * SIGNIFICANDS - n
            }),
{
    lemma2_to64();
    let (p, q) = double_quotient(n, d);
    if n >= d * SIGNIFICANDS {
        let i = law_quotients_keep_their_bits(n, 2 * d);
        let (half, _) = double_quotient(n, 2 * d);
        lemma_pow2_unfold(i + 1);
        assert((2 * d) * pow2(i) == d * pow2(i + 1)) by (nonlinear_arith)
            requires
                pow2(i + 1) == 2 * pow2(i),
        ;
        if scaled_down(n, 2 * d, half, q, i) {
            let m = nearest(n, d * pow2(i + 1));
            assert(2 * (m * pow2(i)) == m * pow2(i + 1)) by (nonlinear_arith)
                requires
                    pow2(i + 1) == 2 * pow2(i),
            ;
            i + 1
        } else {
            // The quotient of twice the divisor is not below two to the power of 52.
            lemma_pow2_pos(i);
            if i == 0 {
                assert(n * pow2(0) == n);
                assert(half == nearest(n, d * pow2(1)));
                assert(half * pow2(1) == 2 * half);
                1
            } else {
                lemma_pow2_unfold(i);
                lemma_pow2_pos((i - 1) as nat);
                assert(n * pow2(i) >= 2 * n) by (nonlinear_arith)
                    requires
                        pow2(i) >= 2,
                ;
                i
            }
        }
    } else if 2 * n < d * SIGNIFICANDS {
        let i = law_quotients_keep_their_bits(2 * n, d);
        let (_, half) = double_quotient(2 * n, d);
        lemma_pow2_unfold(i + 1);
        assert((2 * n) * pow2(i) == n * pow2(i + 1)) by (nonlinear_arith)
            requires
                pow2(i + 1) == 2 * pow2(i),
        ;
        if scaled_up(2 * n, d, p, half, i) {
            i + 1
        } else {
            lemma_pow2_pos(i);
            if i == 0 {
                assert(d * pow2(0) == d);
                assert(p == nearest(2 * n, d) * 1);
                assert(n * pow2(1) == 2 * n);
                1
            } else {
                lemma_pow2_unfold(i);
                lemma_pow2_pos((i - 1) as nat);
                assert(d * pow2(i) >= 2 * d) by (nonlinear_arith)
                    requires
                        pow2(i) >= 2,
                ;
                i
            }
        }
    } else {
        assert(n * pow2(0) == n);
        0
    }
}

} // verus!
