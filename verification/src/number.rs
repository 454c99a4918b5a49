//! The parts of a decimal number in the forms that `f64`'s parser accepts
//! (`128`, `-3`, `+127.5`, `.5`, `5.`, `1.2e2`, `12E-1`): its sign, the
//! digits before and after the point, and its exponent.
use vstd::prelude::*;

use crate::key_format::{all_digits, decimal_value, is_digit};
use crate::text::{decimal_text, digit_char};

verus! {

/// Exponents are read up to this size; any larger one gives the same
/// number as this one on texts that fit in memory.
pub const EXPONENT_CAP: i128 = 100_000_000_000_000_000_000;

/// Ten to the power `n`.
pub open spec fn pow10(n: nat) -> nat
    decreases n,
{
    if n == 0 {
        1
    } else {
        10 * pow10((n - 1) as nat)
    }
}

/// The position of the first `c` in `s` (the length of `s` when none).
pub open spec fn find_char(s: Seq<char>, c: char) -> int
    decreases s.len(),
{
    if s.len() == 0 {
        0
    } else if s[0] == c {
        0
    } else {
        1 + find_char(s.drop_first(), c)
    }
}

pub proof fn lemma_find_char(s: Seq<char>, c: char)
    ensures
        0 <= find_char(s, c) <= s.len(),
        find_char(s, c) < s.len() ==> s[find_char(s, c)] == c,
        forall|i: int| 0 <= i < find_char(s, c) ==> s[i] != c,
    decreases s.len(),
{
    if s.len() > 0 && s[0] != c {
        lemma_find_char(s.drop_first(), c);
        assert forall|i: int| 0 <= i < find_char(s, c) implies s[i] != c by {
            if i > 0 {
                assert(s[i] == s.drop_first()[i - 1]);
            }
        }
    }
}

/// An exponent mark: `e` or `E`.
pub open spec fn is_exponent_mark(c: char) -> bool {
    c == 'e' || c == 'E'
}

/// The position of the first exponent mark in `s` (the length of `s` when none).
pub open spec fn find_exponent(s: Seq<char>) -> int
    decreases s.len(),
{
    if s.len() == 0 {
        0
    } else if is_exponent_mark(s[0]) {
        0
    } else {
        1 + find_exponent(s.drop_first())
    }
}

proof fn lemma_find_exponent(s: Seq<char>)
    ensures
        0 <= find_exponent(s) <= s.len(),
        find_exponent(s) < s.len() ==> is_exponent_mark(s[find_exponent(s)]),
        forall|i: int| 0 <= i < find_exponent(s) ==> !is_exponent_mark(#[trigger] s[i]),
    decreases s.len(),
{
    if s.len() > 0 && !is_exponent_mark(s[0]) {
        lemma_find_exponent(s.drop_first());
        assert forall|i: int| 0 <= i < find_exponent(s) implies !is_exponent_mark(#[trigger] s[i]) by {
            if i > 0 {
                assert(s[i] == s.drop_first()[i - 1]);
            }
        }
    }
}

/// The sign of a number (whether it is `-`) and what follows it.
pub open spec fn sign_and_body(s: Seq<char>) -> (bool, Seq<char>) {
    if s.len() > 0 && s[0] == '-' {
        (true, s.drop_first())
    } else if s.len() > 0 && s[0] == '+' {
        (false, s.drop_first())
    } else {
        (false, s)
    }
}

/// An exponent: an optional sign, then one or more digits.
pub open spec fn exponent_value(x: Seq<char>) -> Option<int> {
    let (neg, digits) = sign_and_body(x);
    if digits.len() > 0 && all_digits(digits) {
        Some(
            if neg {
                -decimal_value(digits)
            } else {
                decimal_value(digits) as int
            },
        )
    } else {
        None
    }
}

/// `v` times ten to the power `k`, rounded toward zero.
pub open spec fn scaled(v: nat, k: int) -> nat {
    if k >= 0 {
        v * pow10(k as nat)
    } else {
        v / pow10((-k) as nat)
    }
}

/// An exponent kept within `EXPONENT_CAP`.
pub open spec fn clamp_exponent(e: int) -> int {
    if e > EXPONENT_CAP {
        EXPONENT_CAP as int
    } else if e < -EXPONENT_CAP {
        -EXPONENT_CAP
    } else {
        e
    }
}

/// The parts of a number: whether it is negative, the digits before and
/// after the decimal point, and the exponent (zero when there is none;
/// `None` when what follows the exponent mark is not an exponent).
pub open spec fn number_parts(s: Seq<char>) -> (bool, Seq<char>, Seq<char>, Option<int>) {
    let (neg, body) = sign_and_body(s);
    let x = find_exponent(body);
    let mantissa = body.take(x);
    let exponent = if x < body.len() {
        exponent_value(body.skip(x + 1))
    } else {
        Some(0int)
    };
    let d = find_char(mantissa, '.');
    let whole = mantissa.take(d);
    let frac = if d < mantissa.len() {
        mantissa.skip(d + 1)
    } else {
        Seq::<char>::empty()
    };
    (neg, whole, frac, exponent)
}

pub proof fn lemma_pow10_positive(n: nat)
    ensures
        pow10(n) >= 1,
    decreases n,
{
    if n > 0 {
        lemma_pow10_positive((n - 1) as nat);
    }
}

pub proof fn lemma_pow10_monotonic(a: nat, b: nat)
    requires
        a <= b,
    ensures
        pow10(a) <= pow10(b),
    decreases b,
{
    if a < b {
        lemma_pow10_monotonic(a, (b - 1) as nat);
        lemma_pow10_positive((b - 1) as nat);
    }
}

pub proof fn lemma_last_digit(s: Seq<char>)
    requires
        s.len() > 0,
        all_digits(s),
    ensures
        all_digits(s.drop_last()),
        decimal_value(s) == decimal_value(s.drop_last()) * 10 + ((s.last() as u32) - ('0' as u32)),
        0 <= (s.last() as u32) - ('0' as u32) <= 9,
{
    assert(is_digit(s[s.len() - 1]));
    assert forall|i: int| 0 <= i < s.drop_last().len() implies is_digit(#[trigger] s.drop_last()[i]) by {
        assert(is_digit(s[i]));
    }
}

/// A numeral of `n` digits is below ten to the `n`.
pub proof fn lemma_decimal_bound(s: Seq<char>)
    requires
        all_digits(s),
    ensures
        decimal_value(s) < pow10(s.len()),
    decreases s.len(),
{
    if s.len() > 0 {
        lemma_last_digit(s);
        let t = s.drop_last();
        lemma_decimal_bound(t);
        let v = decimal_value(t);
        let p = pow10(t.len());
        assert(pow10(s.len()) == 10 * p);
        assert(v * 10 + 9 < 10 * p) by (nonlinear_arith)
            requires
                v < p,
        ;
    }
}

/// Dropping the last `j` digits of a numeral divides it by ten to the `j`.
pub proof fn lemma_decimal_take(s: Seq<char>, j: nat)
    requires
        all_digits(s),
        j <= s.len(),
    ensures
        decimal_value(s.take(s.len() - j)) == decimal_value(s) / pow10(j),
    decreases j,
{
    if j == 0 {
        assert(s.take(s.len() - j) == s);
        assert(pow10(j) == 1);
        assert(decimal_value(s) / 1 == decimal_value(s));
    } else {
        lemma_last_digit(s);
        let t = s.drop_last();
        lemma_decimal_take(t, (j - 1) as nat);
        assert(t.take(t.len() - (j - 1)) == s.take(s.len() - j));
        let v = decimal_value(t);
        let d = (s.last() as u32) - ('0' as u32);
        let p = pow10((j - 1) as nat);
        assert(decimal_value(s) / 10 == v);
        assert(pow10(j) == 10 * p);
        lemma_pow10_positive((j - 1) as nat);
        vstd::arithmetic::div_mod::lemma_div_denominator(decimal_value(s) as int, 10, p as int);
        let x = decimal_value(s) as int;
        assert(x / 10 / (p as int) == x / (10 * p as int));
        assert(x / (pow10(j) as int) == (v as int) / (p as int));
        assert(decimal_value(s.take(s.len() - j)) == v / p);
    }
}




proof fn lemma_digit_char(d: nat)
    requires
        d < 10,
    ensures
        is_digit(digit_char(d)),
        (digit_char(d) as u32) - ('0' as u32) == d,
        !is_exponent_mark(digit_char(d)),
        digit_char(d) != '.' && digit_char(d) != '-' && digit_char(d) != '+',
{
}

/// The numeral of `n` is all digits, has no sign, point or exponent mark,
/// and has the value `n`.
pub proof fn lemma_decimal_text(n: nat)
    ensures
        all_digits(decimal_text(n)),
        decimal_value(decimal_text(n)) == n,
        decimal_text(n).len() > 0,
        find_char(decimal_text(n), '.') == decimal_text(n).len(),
        find_exponent(decimal_text(n)) == decimal_text(n).len(),
        decimal_text(n)[0] != '-' && decimal_text(n)[0] != '+',
    decreases n,
{
    let t = decimal_text(n);
    lemma_find_char(t, '.');
    lemma_find_exponent(t);
    if n < 10 {
        lemma_digit_char(n);
        assert(t.drop_last() =~= Seq::<char>::empty());
        assert(t.last() == digit_char(n));
        assert(decimal_value(t) == decimal_value(t.drop_last()) * 10 + n);
    } else {
        lemma_decimal_text(n / 10);
        lemma_digit_char(n % 10);
        let u = decimal_text(n / 10);
        assert(t.drop_last() == u);
        assert(t.last() == digit_char(n % 10));
        assert(decimal_value(t) == (n / 10) * 10 + n % 10);
        assert forall|i: int| 0 <= i < t.len() implies is_digit(#[trigger] t[i]) by {
            if i < u.len() {
                assert(t[i] == u[i]);
            }
        }
        assert(t[0] == u[0]);
    }
    let fd = find_char(t, '.');
    if fd < t.len() {
        assert(is_digit(t[fd]));
    }
    let fx = find_exponent(t);
    if fx < t.len() {
        assert(is_digit(t[fx]));
    }
}

/// The position of the first exponent mark in `s[from..]`, counted from
/// the start of `s`.
fn find_exponent_from(s: &[char], from: usize) -> (x: usize)
    requires
        from <= s@.len(),
    ensures
        from <= x <= s@.len(),
        x - from == find_exponent(s@.skip(from as int)),
{
    let n = s.len();
    let mut x = from;
    while x < n && !(s[x] == 'e' || s[x] == 'E')
        invariant
            from <= x <= n == s@.len(),
            forall|i: int| from <= i < x ==> !is_exponent_mark(#[trigger] s@[i]),
        decreases n - x,
    {
        x = x + 1;
    }
    proof {
        let body = s@.skip(from as int);
        lemma_find_exponent(body);
        let fx = find_exponent(body);
        if fx < x - from {
            assert(body[fx] == s@[fx + from]);
        }
        if x - from < fx {
            assert(body[x - from] == s@[x as int]);
        }
    }
    x
}

/// The position of the first `.` in `s[from..to]`, counted from the start
/// of `s` (`to` when there is none).
fn find_point(s: &[char], from: usize, to: usize) -> (d: usize)
    requires
        from <= to <= s@.len(),
    ensures
        from <= d <= to,
        d - from == find_char(s@.subrange(from as int, to as int), '.'),
{
    let mut d = from;
    while d < to && s[d] != '.'
        invariant
            from <= d <= to <= s@.len(),
            forall|i: int| from <= i < d ==> s@[i] != '.',
        decreases to - d,
    {
        d = d + 1;
    }
    proof {
        let part = s@.subrange(from as int, to as int);
        lemma_find_char(part, '.');
        let fd = find_char(part, '.');
        if fd < d - from {
            assert(part[fd] == s@[fd + from]);
        }
        if d - from < fd {
            assert(part[d - from] == s@[d as int]);
        }
    }
    d
}

/// Whether `s[from..to]` is all digits.
pub(crate) fn digits_only(s: &[char], from: usize, to: usize) -> (r: bool)
    requires
        from <= to <= s@.len(),
    ensures
        r == all_digits(s@.subrange(from as int, to as int)),
{
    let ghost part = s@.subrange(from as int, to as int);
    let mut i = from;
    while i < to
        invariant
            from <= i <= to <= s@.len(),
            part == s@.subrange(from as int, to as int),
            forall|k: int| from <= k < i ==> is_digit(#[trigger] s@[k]),
        decreases to - i,
    {
        let c = s[i];
        if !('0' <= c && c <= '9') {
            assert(part[i - from] == c);
            assert(!is_digit(part[i - from]));
            return false;
        }
        i = i + 1;
    }
    assert forall|k: int| 0 <= k < part.len() implies is_digit(#[trigger] part[k]) by {
        assert(part[k] == s@[k + from]);
    }
    true
}

/// Reads an exponent (`exponent_value`) from `s[from..]`, kept within the cap.
pub(crate) fn read_exponent(s: &[char], from: usize) -> (r: Option<i128>)
    requires
        from <= s@.len(),
    ensures
        r matches Some(v) ==> (exponent_value(s@.skip(from as int)) matches Some(x) && v
            == clamp_exponent(x)),
        r is None ==> exponent_value(s@.skip(from as int)) is None,
{
    let n = s.len();
    let neg = from < n && s[from] == '-';
    let start: usize = if from < n && (s[from] == '-' || s[from] == '+') {
        from + 1
    } else {
        from
    };
    let ghost digits = sign_and_body(s@.skip(from as int)).1;
    assert(digits == s@.subrange(start as int, n as int));
    if start == n {
        return None;
    }
    let mut acc: i128 = 0;
    let mut i = start;
    assert(s@.subrange(start as int, start as int) =~= Seq::<char>::empty());
    while i < n
        invariant
            start <= i <= n == s@.len(),
            digits == s@.subrange(start as int, n as int),
            digits == sign_and_body(s@.skip(from as int)).1,
            forall|k: int| start <= k < i ==> is_digit(#[trigger] s@[k]),
            acc == (if decimal_value(s@.subrange(start as int, i as int)) < EXPONENT_CAP {
                decimal_value(s@.subrange(start as int, i as int)) as int
            } else {
                EXPONENT_CAP as int
            }),
        decreases n - i,
    {
        let c = s[i];
        if !('0' <= c && c <= '9') {
            assert(digits[i - start] == c);
            assert(!is_digit(digits[i - start]));
            return None;
        }
        assert(s@.subrange(start as int, i + 1).drop_last() == s@.subrange(start as int, i as int));
        assert(s@.subrange(start as int, i + 1).last() == c);
        if acc < EXPONENT_CAP {
            acc = acc * 10 + ((c as u32) - ('0' as u32)) as i128;
            if acc > EXPONENT_CAP {
                acc = EXPONENT_CAP;
            }
        }
        i = i + 1;
    }
    assert forall|k: int| 0 <= k < digits.len() implies is_digit(#[trigger] digits[k]) by {
        assert(digits[k] == s@[k + start]);
    }
    if neg {
        Some(-acc)
    } else {
        Some(acc)
    }
}



/// Where the parts of a number lie in `s` (`number_parts`): whether it is
/// negative, its whole digits `s[start..point]`, its fraction digits
/// `s[frac_start..mark]`, and its exponent after `mark` (when `mark` is
/// before the end).
pub(crate) fn split_number(s: &[char]) -> (r: (bool, usize, usize, usize, usize))
    ensures
        r.1 <= r.2 <= r.4 <= s@.len(),
        r.1 <= r.3 <= r.4,
        r.2 - r.1 + r.4 - r.3 <= s@.len(),
        number_parts(s@).0 == r.0,
        number_parts(s@).1 == s@.subrange(r.1 as int, r.2 as int),
        number_parts(s@).2 == s@.subrange(r.3 as int, r.4 as int),
        number_parts(s@).3 == (if r.4 < s@.len() {
            exponent_value(s@.skip(r.4 + 1))
        } else {
            Some(0int)
        }),
{
    let n = s.len();
    let neg = n > 0 && s[0] == '-';
    let start: usize = if n > 0 && (s[0] == '-' || s[0] == '+') {
        1
    } else {
        0
    };
    let ghost body = sign_and_body(s@).1;
    assert(body == s@.skip(start as int));
    let x = find_exponent_from(s, start);
    let ghost mantissa = body.take(x - start);
    assert(mantissa == s@.subrange(start as int, x as int));
    let d = find_point(s, start, x);
    let f_start: usize = if d < x {
        d + 1
    } else {
        x
    };
    assert(mantissa.take(d - start) == s@.subrange(start as int, d as int));
    if d < x {
        assert(mantissa.skip(d - start + 1) == s@.subrange(f_start as int, x as int));
    } else {
        assert(s@.subrange(f_start as int, x as int) =~= Seq::<char>::empty());
    }
    if x < n {
        assert(body.skip(x - start + 1) == s@.skip(x + 1));
    }
    (neg, start, d, f_start, x)
}

} // verus!
