//! Tempo bounds typed in a filter: not a number, an infinity, or a finite
//! value held in thousandths, rounded toward zero, with its sign. The
//! forms accepted, the point from which a number is infinite, and how a
//! NaN or an infinity compares follow `f64`; a finite value is held as the
//! exact decimal cut to thousandths, not as the nearest `f64`.
use vstd::prelude::*;

use crate::digits::{canonical, compare_digits, increment, lemma_canonical_is_decimal_text, lemma_concat_value, lemma_decimal_text_canonical};
use crate::key_format::{all_digits, decimal_value, is_digit};
use crate::number::{
    clamp_exponent, lemma_decimal_bound, lemma_decimal_take, number_parts, pow10, scaled, sign_and_body,
};
use crate::order::Order;
use crate::text::{ascii_lower, decimal_text, push_char, push_chars};

verus! {

/// A tempo bound: not a number, an infinity, or a finite number of
/// thousandths (its digits, without leading zeros), each with a sign.
#[derive(Debug, PartialEq, Eq)]
pub struct Tempo {
    nan: bool,
    infinite: bool,
    negative: bool,
    milli: Vec<char>,
}

/// What a tempo stands for: whether it is not a number, whether it is
/// infinite, whether it is negative, and its size in thousandths.
pub type TempoView = (bool, bool, bool, nat);

impl View for Tempo {
    type V = TempoView;

    closed spec fn view(&self) -> TempoView {
        (self.nan, self.infinite, self.negative, decimal_value(self.milli@))
    }
}

impl Tempo {
    #[verifier::type_invariant]
    spec fn well_formed(self) -> bool {
        &&& canonical(self.milli@)
        &&& !(self.nan && self.infinite)
        &&& (self.nan || self.infinite) ==> self.milli@.len() == 0
    }
}

/// The bound that a tempo of `m` thousandths stands for.
pub open spec fn milli_view(m: int) -> TempoView {
    (false, false, m < 0, (if m < 0 { -m } else { m }) as nat)
}

/// A finite bound's signed number of thousandths.
pub open spec fn signed_milli(v: TempoView) -> int {
    if v.2 {
        -(v.3 as int)
    } else {
        v.3 as int
    }
}

/// `a < b` on the values held: false when either is not a number; minus
/// infinity is below, and infinity above, every other value.
pub open spec fn tempo_less(a: TempoView, b: TempoView) -> bool {
    !a.0 && !b.0 && if a.1 && b.1 {
        a.2 && !b.2
    } else if a.1 {
        a.2
    } else if b.1 {
        !b.2
    } else {
        signed_milli(a) < signed_milli(b)
    }
}

/// The greater bound, as `f64::max` chooses: a NaN gives way to the other value;
/// otherwise the greater one, and `a` when neither is greater.
pub open spec fn tempo_max(a: TempoView, b: TempoView) -> TempoView {
    if a.0 {
        b
    } else if b.0 {
        a
    } else if tempo_less(a, b) {
        b
    } else {
        a
    }
}

/// The smaller bound, as `f64::min` chooses: a NaN gives way to the other value;
/// otherwise the smaller one, and `a` when neither is smaller.
pub open spec fn tempo_min(a: TempoView, b: TempoView) -> TempoView {
    if a.0 {
        b
    } else if b.0 {
        a
    } else if tempo_less(b, a) {
        b
    } else {
        a
    }
}

/// A number of thousandths rounded to a whole number, halves to the even neighbour.
pub open spec fn rounded_whole(m: nat) -> nat {
    let q = m / 1000;
    let r = m % 1000;
    if r > 500 || (r == 500 && q % 2 == 1) {
        q + 1
    } else {
        q
    }
}

/// How a bound is shown: `NaN`, `inf` or `-inf`, or its thousandths
/// rounded to a whole number (halves to even), with its sign.
pub open spec fn tempo_text(v: TempoView) -> Seq<char> {
    let sign = if v.2 {
        seq!['-']
    } else {
        Seq::<char>::empty()
    };
    if v.0 {
        seq!['N', 'a', 'N']
    } else if v.1 {
        sign + seq!['i', 'n', 'f']
    } else {
        sign + decimal_text(rounded_whole(v.3))
    }
}

impl Tempo {
    /// The bound for a tempo of `m` thousandths.
    pub fn from_milli(m: i64) -> (t: Tempo)
        ensures
            t@ == milli_view(m as int),
    {
        let size: u64 = if m < 0 {
            (0i128 - (m as i128)) as u64
        } else {
            m as u64
        };
        let mut milli: Vec<char> = Vec::new();
        if size > 0 {
            push_digits(&mut milli, size);
            proof {
                lemma_decimal_text_canonical(size as nat);
                assert(milli@ == decimal_text(size as nat));
            }
        }
        Tempo { nan: false, infinite: false, negative: m < 0, milli }
    }

    /// Not a number, with a sign.
    pub fn not_a_number(negative: bool) -> (t: Tempo)
        ensures
            t@ == (true, false, negative, 0nat),
    {
        Tempo { nan: true, infinite: false, negative, milli: Vec::new() }
    }

    /// Infinity, or minus infinity.
    pub fn infinity(negative: bool) -> (t: Tempo)
        ensures
            t@ == (false, true, negative, 0nat),
    {
        Tempo { nan: false, infinite: true, negative, milli: Vec::new() }
    }

    /// A finite bound from its sign and its digits (without leading zeros).
    fn finite(negative: bool, milli: Vec<char>) -> (t: Tempo)
        requires
            canonical(milli@),
        ensures
            t@ == (false, false, negative, decimal_value(milli@)),
    {
        Tempo { nan: false, infinite: false, negative, milli }
    }

    /// Another bound that stands for the same as this one.
    pub fn copy(&self) -> (r: Tempo)
        ensures
            r@ == self@,
    {
        proof {
            use_type_invariant(self);
        }
        let milli = crate::text::slice_chars(self.milli.as_slice(), 0, self.milli.len());
        assert(milli@ == self.milli@);
        Tempo { nan: self.nan, infinite: self.infinite, negative: self.negative, milli }
    }

    /// `self < other` (`tempo_less`).
    pub fn less(&self, other: &Tempo) -> (r: bool)
        ensures
            r == tempo_less(self@, other@),
    {
        proof {
            use_type_invariant(self);
            use_type_invariant(other);
        }
        if self.nan || other.nan {
            return false;
        }
        if self.infinite && other.infinite {
            return self.negative && !other.negative;
        }
        if self.infinite {
            return self.negative;
        }
        if other.infinite {
            return !other.negative;
        }
        let a_zero = self.milli.len() == 0;
        let b_zero = other.milli.len() == 0;
        proof {
            if self.milli@.len() == 0 {
                assert(decimal_value(self.milli@) == 0);
            } else {
                crate::digits::lemma_canonical_lower(self.milli@);
                crate::number::lemma_pow10_positive((self.milli@.len() - 1) as nat);
            }
            if other.milli@.len() == 0 {
                assert(decimal_value(other.milli@) == 0);
            } else {
                crate::digits::lemma_canonical_lower(other.milli@);
                crate::number::lemma_pow10_positive((other.milli@.len() - 1) as nat);
            }
        }
        let order = compare_digits(self.milli.as_slice(), other.milli.as_slice());
        match (self.negative, other.negative) {
            (false, false) => order == Order::Less,
            (true, true) => order == Order::Greater,
            (true, false) => !(a_zero && b_zero),
            (false, true) => false,
        }
    }

    /// `self.max(other)` (`tempo_max`).
    pub fn max(self, other: Tempo) -> (r: Tempo)
        ensures
            r@ == tempo_max(self@, other@),
    {
        if self.nan {
            other
        } else if other.nan {
            self
        } else if self.less(&other) {
            other
        } else {
            self
        }
    }

    /// `self.min(other)` (`tempo_min`).
    pub fn min(self, other: Tempo) -> (r: Tempo)
        ensures
            r@ == tempo_min(self@, other@),
    {
        if self.nan {
            other
        } else if other.nan {
            self
        } else if other.less(&self) {
            other
        } else {
            self
        }
    }

    /// Appends this bound as it is shown (`tempo_text`).
    pub fn push_text(&self, s: &mut String)
        ensures
            final(s)@ == old(s)@ + tempo_text(self@),
    {
        proof {
            use_type_invariant(self);
        }
        if self.nan {
            push_chars(s, &['N', 'a', 'N']);
            return;
        }
        if self.negative {
            push_char(s, '-');
        }
        if self.infinite {
            push_chars(s, &['i', 'n', 'f']);
            return;
        }
        let whole = rounded_digits(self.milli.as_slice());
        push_chars(s, whole.as_slice());
    }
}

/// Appends the digits of `n` (`decimal_text`) to `v`.
fn push_digits(v: &mut Vec<char>, n: u64)
    ensures
        final(v)@ == old(v)@ + decimal_text(n as nat),
    decreases n,
{
    if n >= 10 {
        push_digits(v, n / 10);
    }
    let d = n % 10;
    let c = if d == 0 { '0' } else if d == 1 { '1' } else if d == 2 { '2' } else if d == 3 { '3' }
        else if d == 4 { '4' } else if d == 5 { '5' } else if d == 6 { '6' } else if d == 7 { '7' }
        else if d == 8 { '8' } else { '9' };
    v.push(c);
    proof {
        if n < 10 {
            assert(n % 10 == n);
        }
    }
}

/// The whole number nearest to `milli` thousandths (halves to even), as
/// `decimal_text` writes it.
fn rounded_digits(milli: &[char]) -> (r: Vec<char>)
    requires
        canonical(milli@),
    ensures
        r@ == decimal_text(rounded_whole(decimal_value(milli@))),
{
    let n = milli.len();
    let ghost m = decimal_value(milli@);
    let split: usize = if n > 3 { n - 3 } else { 0 };
    let q = crate::text::slice_chars(milli, 0, split);
    let rest = crate::text::slice_chars(milli, split, n);
    proof {
        assert(q@ + rest@ == milli@);
        lemma_concat_value(q@, rest@);
        assert forall|i: int| 0 <= i < rest@.len() implies is_digit(#[trigger] rest@[i]) by {
            assert(rest@[i] == milli@[split + i]);
        }
        assert forall|i: int| 0 <= i < q@.len() implies is_digit(#[trigger] q@[i]) by {
            assert(q@[i] == milli@[i]);
        }
        lemma_decimal_bound(rest@);
        assert(pow10(rest@.len()) <= 1000) by {
            reveal_with_fuel(pow10, 4);
        }
        if rest@.len() < 3 {
            assert(q@.len() == 0);
        } else {
            assert(pow10(3) == 1000) by {
                reveal_with_fuel(pow10, 4);
            }
        }
        assert(decimal_value(q@) == m / 1000 && decimal_value(rest@) == m % 1000) by {
            if q@.len() == 0 {
                assert(decimal_value(q@) == 0);
                assert(m == decimal_value(rest@));
            } else {
                assert(m == decimal_value(q@) * 1000 + decimal_value(rest@));
            }
        }
        if q@.len() > 0 {
            assert(q@[0] == milli@[0]);
        }
    }
    let r = rest_value(rest.as_slice());
    let odd = q.len() > 0 && is_odd_digit(q[q.len() - 1]);
    proof {
        if q@.len() > 0 {
            crate::number::lemma_last_digit(q@);
        }
        assert(odd == (decimal_value(q@) % 2 == 1));
    }
    let up = r > 500 || (r == 500 && odd);
    let whole = if up { increment(q.as_slice()) } else { q };
    if whole.len() == 0 {
        let mut zero: Vec<char> = Vec::new();
        zero.push('0');
        proof {
            assert(decimal_value(whole@) == 0);
            assert(zero@ =~= decimal_text(0));
        }
        zero
    } else {
        proof {
            lemma_canonical_is_decimal_text(whole@);
        }
        whole
    }
}

fn is_odd_digit(c: char) -> (r: bool)
    requires
        is_digit(c),
    ensures
        r == (((c as u32) - ('0' as u32)) % 2 == 1),
{
    c == '1' || c == '3' || c == '5' || c == '7' || c == '9'
}

/// The value of at most three digits.
fn rest_value(v: &[char]) -> (r: u64)
    requires
        v@.len() <= 3,
        all_digits(v@),
    ensures
        r == decimal_value(v@),
{
    let mut r: u64 = 0;
    let mut i: usize = 0;
    while i < v.len()
        invariant
            i <= v@.len() <= 3,
            all_digits(v@),
            r == decimal_value(v@.take(i as int)),
            i == 0 ==> r == 0,
            i <= 1 ==> r < 10,
            i <= 2 ==> r < 100,
            r < 1000,
        decreases v@.len() - i,
    {
        assert(is_digit(v@[i as int]));
        assert(v@.take(i + 1).drop_last() == v@.take(i as int));
        r = r * 10 + ((v[i] as u32) - ('0' as u32)) as u64;
        i = i + 1;
    }
    assert(v@.take(v@.len() as int) == v@);
    r
}

/// `nan`.
pub open spec fn nan_word() -> Seq<char> {
    seq!['n', 'a', 'n']
}

/// `inf`.
pub open spec fn inf_word() -> Seq<char> {
    seq!['i', 'n', 'f']
}

/// `infinity`.
pub open spec fn infinity_word() -> Seq<char> {
    seq!['i', 'n', 'f', 'i', 'n', 'i', 't', 'y']
}

pub open spec fn overflow_part0() -> Seq<char> {
    seq!['1', '7', '9', '7', '6', '9', '3', '1', '3', '4', '8', '6', '2', '3', '1', '5', '8', '0', '7', '9', '3', '7', '2', '8']
}

pub open spec fn overflow_part1() -> Seq<char> {
    seq!['9', '7', '1', '4', '0', '5', '3', '0', '3', '4', '1', '5', '0', '7', '9', '9', '3', '4', '1', '3', '2', '7', '1', '0']
}

pub open spec fn overflow_part2() -> Seq<char> {
    seq!['0', '3', '7', '8', '2', '6', '9', '3', '6', '1', '7', '3', '7', '7', '8', '9', '8', '0', '4', '4', '4', '9', '6', '8']
}

pub open spec fn overflow_part3() -> Seq<char> {
    seq!['2', '9', '2', '7', '6', '4', '7', '5', '0', '9', '4', '6', '6', '4', '9', '0', '1', '7', '9', '7', '7', '5', '8', '7']
}

pub open spec fn overflow_part4() -> Seq<char> {
    seq!['2', '0', '7', '0', '9', '6', '3', '3', '0', '2', '8', '6', '4', '1', '6', '6', '9', '2', '8', '8', '7', '9', '1', '0']
}

pub open spec fn overflow_part5() -> Seq<char> {
    seq!['9', '4', '6', '5', '5', '5', '5', '4', '7', '8', '5', '1', '9', '4', '0', '4', '0', '2', '6', '3', '0', '6', '5', '7']
}

pub open spec fn overflow_part6() -> Seq<char> {
    seq!['4', '8', '8', '6', '7', '1', '5', '0', '5', '8', '2', '0', '6', '8', '1', '9', '0', '8', '9', '0', '2', '0', '0', '0']
}

pub open spec fn overflow_part7() -> Seq<char> {
    seq!['7', '0', '8', '3', '8', '3', '6', '7', '6', '2', '7', '3', '8', '5', '4', '8', '4', '5', '8', '1', '7', '7', '1', '1']
}

pub open spec fn overflow_part8() -> Seq<char> {
    seq!['5', '3', '1', '7', '6', '4', '4', '7', '5', '7', '3', '0', '2', '7', '0', '0', '6', '9', '8', '5', '5', '5', '7', '1']
}

pub open spec fn overflow_part9() -> Seq<char> {
    seq!['3', '6', '6', '9', '5', '9', '6', '2', '2', '8', '4', '2', '9', '1', '4', '8', '1', '9', '8', '6', '0', '8', '3', '4']
}

pub open spec fn overflow_part10() -> Seq<char> {
    seq!['9', '3', '6', '4', '7', '5', '2', '9', '2', '7', '1', '9', '0', '7', '4', '1', '6', '8', '4', '4', '4', '3', '6', '5']
}

pub open spec fn overflow_part11() -> Seq<char> {
    seq!['5', '1', '0', '7', '0', '4', '3', '4', '2', '7', '1', '1', '5', '5', '9', '6', '9', '9', '5', '0', '8', '0', '9', '3']
}

pub open spec fn overflow_part12() -> Seq<char> {
    seq!['0', '4', '2', '8', '8', '0', '1', '7', '7', '9', '0', '4', '1', '7', '4', '4', '9', '7', '7', '9', '2', '0', '0', '0']
}

/// The digits of (2^1024 - 2^970) × 1000: from this many thousandths up,
/// `f64` reads a number as infinite.
pub open spec fn overflow_digits() -> Seq<char> {
    overflow_part0() + overflow_part1() + overflow_part2() + overflow_part3() + overflow_part4() + overflow_part5() + overflow_part6() + overflow_part7() + overflow_part8() + overflow_part9() + overflow_part10() + overflow_part11() + overflow_part12()
}

/// The number of thousandths from which a number reads as infinite.
pub open spec fn overflow_milli() -> nat {
    decimal_value(overflow_digits())
}

/// The bound a text stands for: an optional sign, then `nan`, `inf` or
/// `infinity` in any case, or a decimal number (digits with at most one
/// point and at least one digit, then an optional exponent), the forms
/// `f64` accepts. A finite number is held as its exact value cut to
/// thousandths (rounded toward zero); one at or above the point where
/// `f64` overflows is infinite.
pub open spec fn tempo_value(s: Seq<char>) -> Option<TempoView> {
    let (neg, body) = sign_and_body(s);
    let word = ascii_lower(body);
    if word == nan_word() {
        Some((true, false, neg, 0nat))
    } else if word == inf_word() || word == infinity_word() {
        Some((false, true, neg, 0nat))
    } else {
        let (_, whole, frac, exponent) = number_parts(s);
        match exponent {
            Some(e) => if whole.len() + frac.len() > 0 && all_digits(whole) && all_digits(frac) {
                let m = scaled(decimal_value(whole + frac), e + 3 - frac.len());
                if m >= overflow_milli() {
                    Some((false, true, neg, 0nat))
                } else {
                    Some((false, false, neg, m))
                }
            } else {
                None
            },
            None => None,
        }
    }
}

proof fn lemma_all_digits_concat(a: Seq<char>, b: Seq<char>)
    requires
        all_digits(a),
        all_digits(b),
    ensures
        all_digits(a + b),
{
    assert forall|i: int| 0 <= i < (a + b).len() implies is_digit(#[trigger] (a + b)[i]) by {
        if i < a.len() {
            assert((a + b)[i] == a[i]);
        } else {
            assert((a + b)[i] == b[i - a.len()]);
        }
    }
}

/// The overflow is a number of 312 digits, the first of them `1`.
proof fn lemma_overflow_digits()
    ensures
        canonical(overflow_digits()),
        overflow_digits().len() == 312,
        pow10(311) <= overflow_milli() < pow10(312),
{
    let d = overflow_digits();
    assert(d.len() == 312);
    assert(d[0] == '1');
    assert forall|i: int| 0 <= i < d.len() implies is_digit(#[trigger] d[i]) by {
        assert('0' <= d[i] <= '9');
    }
    lemma_decimal_bound(d);
    crate::digits::lemma_canonical_lower(d);
}

/// Ten to the power `a + b` is ten to `a` times ten to `b`.
proof fn lemma_pow10_add(a: nat, b: nat)
    ensures
        pow10(a + b) == pow10(a) * pow10(b),
    decreases b,
{
    if b == 0 {
        assert(pow10(a) * 1 == pow10(a));
    } else {
        lemma_pow10_add(a, (b - 1) as nat);
        assert(pow10(a + b) == 10 * pow10((a + b - 1) as nat));
        let x = pow10(a);
        let y = pow10((b - 1) as nat);
        assert(10 * (x * y) == x * (10 * y)) by (nonlinear_arith);
    }
}

/// Appends the characters of `a` to `v`.
fn append_chars(v: &mut Vec<char>, a: &[char])
    ensures
        final(v)@ == old(v)@ + a@,
{
    let mut i: usize = 0;
    while i < a.len()
        invariant
            i <= a@.len(),
            v@ == old(v)@ + a@.take(i as int),
        decreases a@.len() - i,
    {
        v.push(a[i]);
        assert(a@.take(i + 1) == a@.take(i as int).push(a@[i as int]));
        i = i + 1;
    }
    assert(a@.take(a@.len() as int) == a@);
}

/// The digits of the overflow (`overflow_digits`).
fn overflow() -> (v: Vec<char>)
    ensures
        v@ == overflow_digits(),
{
    let mut v: Vec<char> = Vec::new();
    let part0: [char; 24] = ['1', '7', '9', '7', '6', '9', '3', '1', '3', '4', '8', '6', '2', '3', '1', '5', '8', '0', '7', '9', '3', '7', '2', '8'];
    assert(part0@ == overflow_part0());
    append_chars(&mut v, part0.as_slice());
    let part1: [char; 24] = ['9', '7', '1', '4', '0', '5', '3', '0', '3', '4', '1', '5', '0', '7', '9', '9', '3', '4', '1', '3', '2', '7', '1', '0'];
    assert(part1@ == overflow_part1());
    append_chars(&mut v, part1.as_slice());
    let part2: [char; 24] = ['0', '3', '7', '8', '2', '6', '9', '3', '6', '1', '7', '3', '7', '7', '8', '9', '8', '0', '4', '4', '4', '9', '6', '8'];
    assert(part2@ == overflow_part2());
    append_chars(&mut v, part2.as_slice());
    let part3: [char; 24] = ['2', '9', '2', '7', '6', '4', '7', '5', '0', '9', '4', '6', '6', '4', '9', '0', '1', '7', '9', '7', '7', '5', '8', '7'];
    assert(part3@ == overflow_part3());
    append_chars(&mut v, part3.as_slice());
    let part4: [char; 24] = ['2', '0', '7', '0', '9', '6', '3', '3', '0', '2', '8', '6', '4', '1', '6', '6', '9', '2', '8', '8', '7', '9', '1', '0'];
    assert(part4@ == overflow_part4());
    append_chars(&mut v, part4.as_slice());
    let part5: [char; 24] = ['9', '4', '6', '5', '5', '5', '5', '4', '7', '8', '5', '1', '9', '4', '0', '4', '0', '2', '6', '3', '0', '6', '5', '7'];
    assert(part5@ == overflow_part5());
    append_chars(&mut v, part5.as_slice());
    let part6: [char; 24] = ['4', '8', '8', '6', '7', '1', '5', '0', '5', '8', '2', '0', '6', '8', '1', '9', '0', '8', '9', '0', '2', '0', '0', '0'];
    assert(part6@ == overflow_part6());
    append_chars(&mut v, part6.as_slice());
    let part7: [char; 24] = ['7', '0', '8', '3', '8', '3', '6', '7', '6', '2', '7', '3', '8', '5', '4', '8', '4', '5', '8', '1', '7', '7', '1', '1'];
    assert(part7@ == overflow_part7());
    append_chars(&mut v, part7.as_slice());
    let part8: [char; 24] = ['5', '3', '1', '7', '6', '4', '4', '7', '5', '7', '3', '0', '2', '7', '0', '0', '6', '9', '8', '5', '5', '5', '7', '1'];
    assert(part8@ == overflow_part8());
    append_chars(&mut v, part8.as_slice());
    let part9: [char; 24] = ['3', '6', '6', '9', '5', '9', '6', '2', '2', '8', '4', '2', '9', '1', '4', '8', '1', '9', '8', '6', '0', '8', '3', '4'];
    assert(part9@ == overflow_part9());
    append_chars(&mut v, part9.as_slice());
    let part10: [char; 24] = ['9', '3', '6', '4', '7', '5', '2', '9', '2', '7', '1', '9', '0', '7', '4', '1', '6', '8', '4', '4', '4', '3', '6', '5'];
    assert(part10@ == overflow_part10());
    append_chars(&mut v, part10.as_slice());
    let part11: [char; 24] = ['5', '1', '0', '7', '0', '4', '3', '4', '2', '7', '1', '1', '5', '5', '9', '6', '9', '9', '5', '0', '8', '0', '9', '3'];
    assert(part11@ == overflow_part11());
    append_chars(&mut v, part11.as_slice());
    let part12: [char; 24] = ['0', '4', '2', '8', '8', '0', '1', '7', '7', '9', '0', '4', '1', '7', '4', '4', '9', '7', '7', '9', '2', '0', '0', '0'];
    assert(part12@ == overflow_part12());
    append_chars(&mut v, part12.as_slice());
    v
}

/// The digits of `scaled(d, k)`, or `None` when it reaches the overflow.
fn scaled_tempo_digits(d: &[char], k: i128) -> (r: Option<Vec<char>>)
    requires
        canonical(d@),
        k > i128::MIN,
    ensures
        r matches Some(v) ==> canonical(v@) && decimal_value(v@) == scaled(decimal_value(d@), k as int)
            && decimal_value(v@) < overflow_milli(),
        r is None ==> scaled(decimal_value(d@), k as int) >= overflow_milli(),
{
    let len = d.len();
    proof {
        lemma_overflow_digits();
    }
    if len == 0 {
        proof {
            assert(decimal_value(d@) == 0);
            assert(scaled(0, k as int) == 0) by {
                if k >= 0 {
                    assert(0 * pow10(k as nat) == 0);
                } else {
                    crate::number::lemma_pow10_positive((-k) as nat);
                }
            }
        }
        return Some(Vec::new());
    }
    let v: Vec<char>;
    if k >= 0 {
        if k > 312 - (len as i128) {
            proof {
                crate::digits::lemma_canonical_lower(d@);
                lemma_pow10_add((len - 1) as nat, k as nat);
                crate::number::lemma_pow10_monotonic(312, ((len - 1) + k) as nat);
                let x = decimal_value(d@);
                let p = pow10((len - 1) as nat);
                let q = pow10(k as nat);
                assert(x * q >= p * q) by (nonlinear_arith)
                    requires
                        x >= p,
                ;
            }
            return None;
        }
        let mut w = crate::text::slice_chars(d, 0, len);
        assert(w@ == d@);
        crate::digits::append_zeros(&mut w, k as usize);
        v = w;
    } else {
        let j: i128 = -k;
        if j >= len as i128 {
            proof {
                lemma_decimal_bound(d@);
                crate::number::lemma_pow10_monotonic(len as nat, j as nat);
                vstd::arithmetic::div_mod::lemma_basic_div(decimal_value(d@) as int, pow10(j as nat) as int);
            }
            return Some(Vec::new());
        }
        let t = ((len as i128) - j) as usize;
        v = crate::text::slice_chars(d, 0, t);
        proof {
            lemma_decimal_take(d@, j as nat);
            assert(v@ == d@.take(t as int));
            assert(v@[0] == d@[0]);
            assert forall|i: int| 0 <= i < v@.len() implies is_digit(#[trigger] v@[i]) by {
                assert(v@[i] == d@[i]);
            }
        }
    }
    let ov = overflow();
    match compare_digits(v.as_slice(), ov.as_slice()) {
        Order::Less => Some(v),
        _ => None,
    }
}

/// Exponents beyond the cap decide the same bound as the cap, for
/// numerals shorter than the cap.
proof fn lemma_clamped_overflow(v: nat, len: nat, fl: nat, e: int)
    requires
        v < pow10(len),
        fl <= len,
        len + 400 < crate::number::EXPONENT_CAP,
    ensures
        (scaled(v, clamp_exponent(e) + 3 - fl) >= overflow_milli()) == (scaled(v, e + 3 - fl)
            >= overflow_milli()),
        scaled(v, clamp_exponent(e) + 3 - fl) < overflow_milli() ==> scaled(
            v,
            clamp_exponent(e) + 3 - fl,
        ) == scaled(v, e + 3 - fl),
{
    lemma_overflow_digits();
    if e > crate::number::EXPONENT_CAP {
        let k1 = clamp_exponent(e) + 3 - fl;
        let k2 = e + 3 - fl;
        if v == 0 {
            assert(0 * pow10(k1 as nat) == 0);
            assert(0 * pow10(k2 as nat) == 0);
        } else {
            crate::number::lemma_pow10_monotonic(312, k1 as nat);
            crate::number::lemma_pow10_monotonic(312, k2 as nat);
            assert(v * pow10(k1 as nat) >= pow10(k1 as nat)) by (nonlinear_arith)
                requires
                    v >= 1,
            ;
            assert(v * pow10(k2 as nat) >= pow10(k2 as nat)) by (nonlinear_arith)
                requires
                    v >= 1,
            ;
        }
    } else if e < -crate::number::EXPONENT_CAP {
        let j1 = -(clamp_exponent(e) + 3 - fl);
        let j2 = -(e + 3 - fl);
        crate::number::lemma_pow10_monotonic(len, j1 as nat);
        crate::number::lemma_pow10_monotonic(len, j2 as nat);
        vstd::arithmetic::div_mod::lemma_basic_div(v as int, pow10(j1 as nat) as int);
        vstd::arithmetic::div_mod::lemma_basic_div(v as int, pow10(j2 as nat) as int);
    }
}

/// Reads the bound a text stands for (`tempo_value`).
pub fn parse_tempo(s: &[char]) -> (r: Option<Tempo>)
    ensures
        r matches Some(t) ==> tempo_value(s@) == Some(t@),
        r is None ==> tempo_value(s@) is None,
{
    let n = s.len();
    let neg = n > 0 && s[0] == '-';
    let start: usize = if n > 0 && (s[0] == '-' || s[0] == '+') {
        1
    } else {
        0
    };
    let body = crate::text::slice_chars(s, start, n);
    assert(body@ == sign_and_body(s@).1);
    let word = crate::text::lower_ascii(body.as_slice());
    let nan: [char; 3] = ['n', 'a', 'n'];
    let inf: [char; 3] = ['i', 'n', 'f'];
    let infinity: [char; 8] = ['i', 'n', 'f', 'i', 'n', 'i', 't', 'y'];
    assert(nan@ == nan_word());
    assert(inf@ == inf_word());
    assert(infinity@ == infinity_word());
    if crate::text::chars_eq(word.as_slice(), nan.as_slice()) {
        return Some(Tempo::not_a_number(neg));
    }
    if crate::text::chars_eq(word.as_slice(), inf.as_slice()) || crate::text::chars_eq(
        word.as_slice(),
        infinity.as_slice(),
    ) {
        return Some(Tempo::infinity(neg));
    }
    let (_, start, point, f_start, mark) = crate::number::split_number(s);
    if (point - start) + (mark - f_start) == 0 {
        return None;
    }
    if !crate::number::digits_only(s, start, point) || !crate::number::digits_only(s, f_start, mark) {
        return None;
    }
    let e: i128 = if mark < n {
        match crate::number::read_exponent(s, mark + 1) {
            Some(e) => e,
            None => return None,
        }
    } else {
        0
    };
    let ghost exact_e: int = number_parts(s@).3->Some_0;
    assert(e == clamp_exponent(exact_e));
    let mut digits = crate::text::slice_chars(s, start, point);
    let frac = crate::text::slice_chars(s, f_start, mark);
    append_chars(&mut digits, frac.as_slice());
    let ghost fl = frac@.len();
    proof {
        lemma_all_digits_concat(number_parts(s@).1, number_parts(s@).2);
        lemma_decimal_bound(digits@);
        lemma_clamped_overflow(decimal_value(digits@), digits@.len(), fl, exact_e);
    }
    let stripped = crate::digits::strip_zeros(digits.as_slice());
    let k: i128 = e + 3 - ((mark - f_start) as i128);
    match scaled_tempo_digits(stripped.as_slice(), k) {
        Some(v) => Some(Tempo::finite(neg, v)),
        None => Some(Tempo::infinity(neg)),
    }
}

/// A whole number written in decimal reads back as that many thousands of
/// thousandths (below the size at which `f64` overflows).
pub proof fn law_whole_numbers_read_back(n: nat)
    requires
        n * 1000 < overflow_milli(),
    ensures
        tempo_value(decimal_text(n)) == Some((false, false, false, n * 1000)),
{
    let t = decimal_text(n);
    crate::number::lemma_decimal_text(n);
    assert(sign_and_body(t).1 == t);
    assert(is_digit(t[0]));
    let word = ascii_lower(t);
    assert(word[0] == t[0]);
    assert(word != nan_word() && word != inf_word() && word != infinity_word()) by {
        assert(nan_word()[0] == 'n');
        assert(inf_word()[0] == 'i');
        assert(infinity_word()[0] == 'i');
    }
    assert(t.take(t.len() as int) == t);
    assert(t + Seq::<char>::empty() == t);
    assert(all_digits(Seq::<char>::empty()));
    reveal_with_fuel(pow10, 4);
    assert(scaled(n, 3) == n * 1000);
}

} // verus!
