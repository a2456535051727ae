//! Reading a coordinate from decimal text.
//!
//! A coordinate is written as an optional sign, a run of digits, and
//! optionally a point followed by at most `FRACTION_DIGITS` digits; at
//! least one digit must be there. It is held as a whole number of units,
//! `UNITS_PER_DEGREE` of them to the degree, so every such text is read
//! without rounding.

use vstd::prelude::*;
use vstd::std_specs::iter::IteratorSpec;
use crate::address::UNITS_PER_DEGREE;

verus! {

/// How many digits may follow the decimal point.
pub const FRACTION_DIGITS: u8 = 8;

/// The largest whole part whose units still fit: `i64::MAX / UNITS_PER_DEGREE`.
const WHOLE_LIMIT: u64 = 92_233_720_368;

/// `c` is one of the ten digits.
pub open spec fn is_digit(c: char) -> bool {
    '0' <= c && c <= '9'
}

/// The number a digit stands for.
pub open spec fn digit_value(c: char) -> int {
    c as int - '0' as int
}

/// Every character of `s` is a digit.
pub open spec fn all_digits(s: Seq<char>) -> bool {
    forall|i: int| 0 <= i < s.len() ==> is_digit(#[trigger] s[i])
}

/// The number that a text of digits writes in base ten; 0 for the empty
/// text.
pub open spec fn digits_value(s: Seq<char>) -> int
    decreases s.len(),
{
    if s.len() == 0 {
        0
    } else {
        10 * digits_value(s.drop_last()) + digit_value(s.last())
    }
}

/// The length of the run of digits that `s` begins with.
pub open spec fn digit_run(s: Seq<char>) -> int
    decreases s.len(),
{
    if s.len() == 0 || !is_digit(s[0]) {
        0
    } else {
        1 + digit_run(s.drop_first())
    }
}

/// Ten to the power of `n`.
pub open spec fn pow10(n: nat) -> int
    decreases n,
{
    if n == 0 {
        1
    } else {
        10 * pow10((n - 1) as nat)
    }
}

/// Whether the text begins with a sign.
pub open spec fn has_sign(text: Seq<char>) -> bool {
    text.len() > 0 && (text[0] == '-' || text[0] == '+')
}

/// The text without its sign.
pub open spec fn unsigned_part(text: Seq<char>) -> Seq<char> {
    if has_sign(text) {
        text.skip(1)
    } else {
        text
    }
}

/// The digits before the point.
pub open spec fn whole_part(body: Seq<char>) -> Seq<char> {
    body.take(digit_run(body))
}

/// The digits after the point; empty where the run of digits ends the text.
pub open spec fn fraction_part(body: Seq<char>) -> Seq<char> {
    if digit_run(body) < body.len() {
        body.skip(digit_run(body) + 1)
    } else {
        Seq::empty()
    }
}

/// The unsigned text is a run of digits, optionally followed by a point and
/// at most `FRACTION_DIGITS` digits, with a digit somewhere.
pub open spec fn well_written(body: Seq<char>) -> bool {
    &&& digit_run(body) == body.len() || body[digit_run(body)] == '.'
    &&& all_digits(fraction_part(body))
    &&& fraction_part(body).len() <= FRACTION_DIGITS
    &&& whole_part(body).len() + fraction_part(body).len() > 0
}

/// The units that a well-written unsigned text stands for.
pub open spec fn magnitude(body: Seq<char>) -> int {
    digits_value(whole_part(body)) * UNITS_PER_DEGREE + digits_value(fraction_part(body)) * pow10(
        (FRACTION_DIGITS - fraction_part(body).len()) as nat,
    )
}

/// The coordinate that `text` stands for, in units, or `None` where the
/// text is not a coordinate or its magnitude is more than `i64::MAX` units.
pub open spec fn coordinate_of(text: Seq<char>) -> Option<int> {
    let body = unsigned_part(text);
    if well_written(body) && magnitude(body) <= i64::MAX {
        if text[0] == '-' {
            Some(-magnitude(body))
        } else {
            Some(magnitude(body))
        }
    } else {
        None
    }
}

/// A text whose first `n` characters are digits and which ends there, or
/// goes on with something else, begins with a run of exactly `n` digits.
proof fn lemma_digit_run(s: Seq<char>, n: int)
    requires
        0 <= n <= s.len(),
        forall|i: int| 0 <= i < n ==> is_digit(#[trigger] s[i]),
        n < s.len() ==> !is_digit(s[n]),
    ensures
        digit_run(s) == n,
    decreases n,
{
    if n > 0 {
        let rest = s.drop_first();
        assert forall|i: int| 0 <= i < n - 1 implies is_digit(#[trigger] rest[i]) by {
            assert(rest[i] == s[i + 1]);
        }
        lemma_digit_run(rest, n - 1);
    }
}

/// A text of `n` digits writes a number below ten to the power of `n`.
proof fn lemma_digits_value_bounds(s: Seq<char>)
    requires
        all_digits(s),
    ensures
        0 <= digits_value(s) < pow10(s.len()),
    decreases s.len(),
{
    if s.len() > 0 {
        assert(is_digit(s[s.len() - 1]));
        lemma_digits_value_bounds(s.drop_last());
    }
}

/// The number that `c` stands for, where it is one of the ten digits.
fn digit(c: char) -> (d: Option<u64>)
    ensures
        d is Some <==> is_digit(c),
        d matches Some(v) ==> v == digit_value(c) && v <= 9,
{
    if '0' <= c && c <= '9' {
        Some((c as u32 - '0' as u32) as u64)
    } else {
        None
    }
}

/// Powers of ten grow with their exponent.
proof fn lemma_pow10_grows(m: nat, n: nat)
    requires
        m <= n,
    ensures
        1 <= pow10(m) <= pow10(n),
    decreases n,
{
    if m < n {
        lemma_pow10_grows(m, (n - 1) as nat);
    } else if n > 0 {
        lemma_pow10_grows((n - 1) as nat, (n - 1) as nat);
    }
}

/// A degree has ten to the power of `FRACTION_DIGITS` units.
proof fn lemma_units_are_a_power()
    ensures
        pow10(FRACTION_DIGITS as nat) == UNITS_PER_DEGREE,
{
    reveal_with_fuel(pow10, 9);
}

/// Ten to the power of `n`.
fn power_of_ten(n: u8) -> (p: u64)
    requires
        n <= FRACTION_DIGITS,
    ensures
        p == pow10(n as nat),
        1 <= p <= UNITS_PER_DEGREE,
{
    let mut p: u64 = 1;
    let mut i: u8 = 0;
    while i < n
        invariant
            i <= n <= FRACTION_DIGITS,
            p == pow10(i as nat),
            1 <= p <= UNITS_PER_DEGREE,
        decreases n - i,
    {
        proof {
            lemma_units_are_a_power();
            lemma_pow10_grows((i + 1) as nat, FRACTION_DIGITS as nat);
        }
        p = p * 10;
        i = i + 1;
    }
    p
}

/// Reads a coordinate from decimal text.
///
/// Returns the coordinate in units, or `None` where the text is not a
/// coordinate: it holds a character other than digits, one leading sign and
/// one point, it holds no digit, more than `FRACTION_DIGITS` digits follow
/// the point, or the number is too large to hold.
pub fn parse_coordinate(text: &str) -> (r: Option<i64>)
    ensures
        match r {
            Some(units) => coordinate_of(text@) == Some(units as int),
            None => coordinate_of(text@) is None,
        },
{
    let mut rest = text.chars();
    let mut started = false;
    let mut negative = false;
    let mut dotted = false;
    let mut valid = true;
    let mut overflow = false;
    let mut any_digit = false;
    let mut whole: u64 = 0;
    let mut fraction: u64 = 0;
    let mut fraction_len: u8 = 0;
    let ghost mut seen: Seq<char> = Seq::empty();
    let ghost mut body: Seq<char> = Seq::empty();
    let ghost mut run: int = 0;
    let ghost mut bad: int = 0;
    loop
        invariant
            rest.obeys_prophetic_iter_laws(),
            rest.decrease() is Some,
            seen + rest.remaining() == text@,
            body == unsigned_part(seen),
            started == (seen.len() > 0),
            negative == (seen.len() > 0 && seen[0] == '-'),
            0 <= run <= body.len(),
            forall|i: int| 0 <= i < run ==> is_digit(#[trigger] body[i]),
            run < body.len() ==> !is_digit(body[run]),
            dotted ==> valid && run < body.len(),
            valid ==> dotted == (run < body.len()),
            valid && dotted ==> body[run] == '.' && forall|i: int|
                run < i < body.len() ==> is_digit(#[trigger] body[i]),
            !valid ==> run <= bad < body.len() && !is_digit(body[bad]) && (bad == run
                ==> body[run] != '.'),
            valid && !overflow ==> whole == digits_value(body.take(run)) && whole <= WHOLE_LIMIT,
            valid && overflow ==> digits_value(body.take(run)) > WHOLE_LIMIT,
            fraction_len <= FRACTION_DIGITS + 1,
            fraction < pow10(fraction_len as nat) || fraction_len > FRACTION_DIGITS,
            fraction < UNITS_PER_DEGREE,
            valid && !dotted ==> fraction_len == 0 && fraction == 0,
            valid && dotted && fraction_len <= FRACTION_DIGITS ==> fraction_len == body.len() - run
                - 1 && fraction == digits_value(body.skip(run + 1)),
            valid && dotted && fraction_len > FRACTION_DIGITS ==> body.len() - run - 1
                > FRACTION_DIGITS,
            valid ==> any_digit == (run > 0 || body.len() > run + 1),
        decreases rest.decrease()->0,
    {
        match rest.next() {
            Some(c) => {
                let ghost old_body = body;
                proof {
                    let grown = seen.push(c);
                    assert(grown + rest.remaining() == text@);
                    if seen.len() == 0 {
                        if c == '-' || c == '+' {
                            assert(unsigned_part(grown) == old_body);
                        } else {
                            assert(unsigned_part(grown) == old_body.push(c));
                        }
                    } else {
                        assert(unsigned_part(grown) == old_body.push(c));
                    }
                    seen = grown;
                }
                if !started && (c == '-' || c == '+') {
                    started = true;
                    negative = c == '-';
                } else {
                    started = true;
                    proof {
                        body = old_body.push(c);
                    }
                    if !valid {
                    } else {
                        match digit(c) {
                            Some(d) => {
                                any_digit = true;
                                if dotted {
                                    if fraction_len < FRACTION_DIGITS {
                                        proof {
                                            lemma_units_are_a_power();
                                            lemma_pow10_grows(
                                                (fraction_len + 1) as nat,
                                                FRACTION_DIGITS as nat,
                                            );
                                            assert(body.skip(run + 1).drop_last() == old_body.skip(
                                                run + 1,
                                            ));
                                        }
                                        fraction = fraction * 10 + d;
                                        fraction_len = fraction_len + 1;
                                    } else {
                                        fraction_len = FRACTION_DIGITS + 1;
                                    }
                                    proof {
                                        assert(body.take(run) == old_body.take(run));
                                    }
                                } else {
                                    proof {
                                        assert(old_body.take(run) == old_body);
                                        assert(body.take(run + 1) == body);
                                        assert(body.drop_last() == old_body);
                                        run = run + 1;
                                    }
                                    if !overflow {
                                        let next = whole * 10 + d;
                                        if next > WHOLE_LIMIT {
                                            overflow = true;
                                        } else {
                                            whole = next;
                                        }
                                    }
                                }
                            },
                            None => {
                                if c == '.' && !dotted {
                                    dotted = true;
                                    proof {
                                        assert(body.take(run) == old_body.take(run));
                                        assert(body.skip(run + 1) == Seq::<char>::empty());
                                    }
                                } else {
                                    valid = false;
                                    dotted = false;
                                    proof {
                                        bad = old_body.len() as int;
                                    }
                                }
                            },
                        }
                    }
                }
            },
            None => {
                proof {
                    assert(seen == text@);
                    lemma_digit_run(body, run);
                    if run < body.len() {
                        assert(fraction_part(body) == body.skip(run + 1));
                    }
                    if !valid && bad > run {
                        assert(fraction_part(body)[bad - run - 1] == body[bad]);
                    }
                    if valid {
                        assert(all_digits(fraction_part(body)));
                        lemma_digits_value_bounds(fraction_part(body));
                        lemma_units_are_a_power();
                    }
                }
                if !valid || !any_digit || fraction_len > FRACTION_DIGITS {
                    return None;
                }
                let scale = power_of_ten(FRACTION_DIGITS - fraction_len);
                proof {
                    assert(0 <= fraction * scale <= UNITS_PER_DEGREE * UNITS_PER_DEGREE)
                        by (nonlinear_arith)
                        requires
                            0 <= fraction < UNITS_PER_DEGREE,
                            1 <= scale <= UNITS_PER_DEGREE,
                    ;
                }
                if overflow {
                    proof {
                        assert(digits_value(whole_part(body)) * UNITS_PER_DEGREE > i64::MAX)
                            by (nonlinear_arith)
                            requires
                                digits_value(whole_part(body)) > WHOLE_LIMIT,
                                UNITS_PER_DEGREE == 100_000_000,
                                WHOLE_LIMIT == 92_233_720_368,
                        ;
                    }
                    return None;
                }
                assert(whole * 100_000_000 <= 9_223_372_036_800_000_000) by (nonlinear_arith)
                    requires
                        whole <= 92_233_720_368,
                ;
                let total: u64 = whole * 100_000_000 + fraction * scale;
                if total > 9_223_372_036_854_775_807 {
                    return None;
                }
                let units = total as i64;
                if negative {
                    return Some(-units);
                } else {
                    return Some(units);
                }
            },
        }
    }
}

} // verus!
