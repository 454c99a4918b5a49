//! Natural numbers of any size written as decimal digits, most significant
//! first and without leading zeros (zero has no digit at all): comparing
//! them, adding one, and dropping leading zeros.
use vstd::prelude::*;

use crate::key_format::{all_digits, decimal_value, is_digit};
use crate::number::{lemma_decimal_bound, lemma_pow10_monotonic, lemma_pow10_positive, pow10};
use crate::order::{int_order, Order};
use crate::text::{decimal_text, digit_char};

verus! {

/// Decimal digits without a leading zero.
pub open spec fn canonical(s: Seq<char>) -> bool {
    all_digits(s) && (s.len() == 0 || s[0] != '0')
}

/// The value of `a` followed by `b` is `a` shifted by the length of `b`, plus `b`.
pub proof fn lemma_concat_value(a: Seq<char>, b: Seq<char>)
    ensures
        decimal_value(a + b) == decimal_value(a) * pow10(b.len()) + decimal_value(b),
    decreases b.len(),
{
    if b.len() == 0 {
        assert(a + b == a);
        assert(decimal_value(a) * 1 == decimal_value(a));
    } else {
        let c = b.drop_last();
        lemma_concat_value(a, c);
        assert((a + b).drop_last() == a + c);
        assert((a + b).last() == b.last());
        let x = decimal_value(a);
        let y = decimal_value(c);
        let p = pow10(c.len());
        let d = ((b.last() as u32) - ('0' as u32)) as nat;
        assert(pow10(b.len()) == 10 * p);
        assert((x * p + y) * 10 + d == x * (10 * p) + (y * 10 + d)) by (nonlinear_arith);
    }
}

/// Digits that are all zeros have the value zero.
pub proof fn lemma_zeros_value(s: Seq<char>)
    requires
        forall|i: int| 0 <= i < s.len() ==> s[i] == '0',
    ensures
        decimal_value(s) == 0,
    decreases s.len(),
{
    if s.len() > 0 {
        lemma_zeros_value(s.drop_last());
        assert(s.last() == s[s.len() - 1]);
    }
}

/// Digits that are all nines have the value ten to their length, less one.
proof fn lemma_nines_value(s: Seq<char>)
    requires
        forall|i: int| 0 <= i < s.len() ==> s[i] == '9',
    ensures
        decimal_value(s) + 1 == pow10(s.len()),
    decreases s.len(),
{
    if s.len() > 0 {
        lemma_nines_value(s.drop_last());
        assert(s.last() == s[s.len() - 1]);
    }
}

/// A number written with `n` digits and no leading zero is at least ten to the `n - 1`.
pub proof fn lemma_canonical_lower(s: Seq<char>)
    requires
        canonical(s),
        s.len() > 0,
    ensures
        decimal_value(s) >= pow10((s.len() - 1) as nat),
{
    let head = s.take(1);
    let rest = s.skip(1);
    assert(head + rest == s);
    lemma_concat_value(head, rest);
    assert(head.drop_last() =~= Seq::<char>::empty());
    assert(is_digit(s[0]));
    assert(decimal_value(head) >= 1);
    let p = pow10(rest.len());
    assert(decimal_value(head) * p >= p) by (nonlinear_arith)
        requires
            decimal_value(head) >= 1,
    ;
}

proof fn lemma_digits_of_parts(s: Seq<char>, a: int, b: int)
    requires
        all_digits(s),
        0 <= a <= b <= s.len(),
    ensures
        all_digits(s.subrange(a, b)),
{
    assert forall|i: int| 0 <= i < b - a implies is_digit(#[trigger] s.subrange(a, b)[i]) by {
        assert(s.subrange(a, b)[i] == s[a + i]);
    }
}

/// Of two digit strings of the same length that agree before position `i`,
/// the one with the smaller digit at `i` is the smaller number.
proof fn lemma_first_difference(a: Seq<char>, b: Seq<char>, i: int)
    requires
        all_digits(a),
        all_digits(b),
        a.len() == b.len(),
        0 <= i < a.len(),
        a.take(i) == b.take(i),
        a[i] < b[i],
    ensures
        decimal_value(a) < decimal_value(b),
{
    let n = a.len() as int;
    lemma_digits_of_parts(a, i + 1, n);
    lemma_digits_of_parts(b, i + 1, n);
    let ha = a.take(i + 1);
    let hb = b.take(i + 1);
    let ra = a.skip(i + 1);
    let rb = b.skip(i + 1);
    assert(ha + ra == a);
    assert(hb + rb == b);
    lemma_concat_value(ha, ra);
    lemma_concat_value(hb, rb);
    assert(ha.drop_last() == a.take(i));
    assert(hb.drop_last() == b.take(i));
    assert(ra.subrange(0, ra.len() as int) == ra);
    lemma_decimal_bound(ra);
    let p = pow10(ra.len());
    let x = decimal_value(ha);
    let y = decimal_value(hb);
    assert(is_digit(a[i]) && is_digit(b[i]));
    assert(x < y);
    assert(x * p + decimal_value(ra) < y * p + decimal_value(rb)) by (nonlinear_arith)
        requires
            x < y,
            decimal_value(ra) < p,
    ;
}

/// Compares two numbers written without leading zeros.
pub fn compare_digits(a: &[char], b: &[char]) -> (r: Order)
    requires
        canonical(a@),
        canonical(b@),
    ensures
        r == int_order(decimal_value(a@) as int, decimal_value(b@) as int),
{
    if a.len() != b.len() {
        proof {
            if a@.len() < b@.len() {
                lemma_decimal_bound(a@);
                lemma_canonical_lower(b@);
                lemma_pow10_monotonic(a@.len(), (b@.len() - 1) as nat);
            } else {
                lemma_decimal_bound(b@);
                lemma_canonical_lower(a@);
                lemma_pow10_monotonic(b@.len(), (a@.len() - 1) as nat);
            }
        }
        if a.len() < b.len() {
            return Order::Less;
        } else {
            return Order::Greater;
        }
    }
    let n = a.len();
    let mut i: usize = 0;
    while i < n && a[i] == b[i]
        invariant
            n == a@.len() == b@.len(),
            i <= n,
            a@.take(i as int) == b@.take(i as int),
        decreases n - i,
    {
        assert(a@.take(i + 1) == a@.take(i as int).push(a@[i as int]));
        assert(b@.take(i + 1) == b@.take(i as int).push(b@[i as int]));
        i = i + 1;
    }
    if i == n {
        assert(a@ == a@.take(n as int));
        assert(b@ == b@.take(n as int));
        Order::Equal
    } else if a[i] < b[i] {
        proof {
            lemma_first_difference(a@, b@, i as int);
        }
        Order::Less
    } else {
        proof {
            lemma_first_difference(b@, a@, i as int);
        }
        Order::Greater
    }
}

/// `v` without its leading zeros.
pub fn strip_zeros(v: &[char]) -> (r: Vec<char>)
    requires
        all_digits(v@),
    ensures
        canonical(r@),
        decimal_value(r@) == decimal_value(v@),
{
    let n = v.len();
    let mut i: usize = 0;
    while i < n && v[i] == '0'
        invariant
            i <= n == v@.len(),
            forall|k: int| 0 <= k < i ==> v@[k] == '0',
        decreases n - i,
    {
        i = i + 1;
    }
    let r = crate::text::slice_chars(v, i, n);
    proof {
        let z = v@.take(i as int);
        assert(z + r@ == v@);
        lemma_concat_value(z, r@);
        lemma_zeros_value(z);
        lemma_digits_of_parts(v@, i as int, n as int);
    }
    r
}

/// `v` followed by `k` zeros.
pub fn append_zeros(v: &mut Vec<char>, k: usize)
    ensures
        final(v)@.len() == old(v)@.len() + k,
        decimal_value(final(v)@) == decimal_value(old(v)@) * pow10(k as nat),
        all_digits(old(v)@) ==> all_digits(final(v)@),
        old(v)@.len() > 0 ==> final(v)@[0] == old(v)@[0],
        forall|j: int| old(v)@.len() <= j < final(v)@.len() ==> final(v)@[j] == '0',
{
    let ghost start = v@;
    let mut i: usize = 0;
    while i < k
        invariant
            i <= k,
            v@.len() == start.len() + i,
            v@.subrange(0, start.len() as int) == start,
            forall|j: int| start.len() <= j < v@.len() ==> v@[j] == '0',
        decreases k - i,
    {
        v.push('0');
        i = i + 1;
    }
    proof {
        let z = v@.skip(start.len() as int);
        assert(start + z == v@);
        lemma_concat_value(start, z);
        lemma_zeros_value(z);
        if all_digits(start) {
            assert forall|j: int| 0 <= j < v@.len() implies is_digit(#[trigger] v@[j]) by {
                if j < start.len() {
                    assert(v@[j] == start[j]);
                }
            }
        }
        if start.len() > 0 {
            assert(v@[0] == start[0]);
        }
    }
}

/// The number after `v`, both written without leading zeros.
pub fn increment(v: &[char]) -> (r: Vec<char>)
    requires
        canonical(v@),
    ensures
        canonical(r@),
        decimal_value(r@) == decimal_value(v@) + 1,
{
    let n = v.len();
    let mut t: usize = n;
    while t > 0 && v[t - 1] == '9'
        invariant
            t <= n == v@.len(),
            forall|k: int| t <= k < n ==> v@[k] == '9',
        decreases t,
    {
        t = t - 1;
    }
    let nines: usize = n - t;
    let ghost tail = v@.skip(t as int);
    proof {
        lemma_nines_value(tail);
    }
    let mut r: Vec<char>;
    if t == 0 {
        r = Vec::new();
        r.push('1');
        proof {
            assert(r@.drop_last() =~= Seq::<char>::empty());
            assert(r@.last() == '1');
            assert(decimal_value(r@) == decimal_value(r@.drop_last()) * 10 + 1);
            assert(decimal_value(r@) == 1);
        }
        append_zeros(&mut r, nines);
        proof {
            assert(tail == v@);
            assert(is_digit(r@[0]));
            assert forall|k: int| 0 <= k < r@.len() implies is_digit(#[trigger] r@[k]) by {
                if k > 0 {
                    assert(r@[k] == '0');
                }
            }
        }
    } else {
        let d = v[t - 1];
        assert(is_digit(v@[t - 1]));
        let up = ((d as u8) + 1) as char;
        r = crate::text::slice_chars(v, 0, t - 1);
        let ghost head = r@;
        r.push(up);
        let ghost bumped = r@;
        proof {
            lemma_digits_of_parts(v@, 0, t - 1);
            assert(bumped.drop_last() == head);
            assert(all_digits(bumped)) by {
                assert forall|k: int| 0 <= k < bumped.len() implies is_digit(#[trigger] bumped[k]) by {
                    if k < head.len() {
                        assert(bumped[k] == v@[k]);
                    }
                }
            }
            let prefix = v@.take(t as int);
            assert(prefix.drop_last() == head);
            assert(prefix.last() == d);
            assert(decimal_value(bumped) == decimal_value(prefix) + 1);
            assert(prefix + tail == v@);
            lemma_concat_value(prefix, tail);
        }
        append_zeros(&mut r, nines);
        proof {
            let p = pow10(nines as nat);
            let x = decimal_value(v@.take(t as int));
            assert((x + 1) * p == x * p + (decimal_value(tail) + 1)) by (nonlinear_arith)
                requires
                    decimal_value(tail) + 1 == p,
            ;
            if head.len() == 0 {
                assert(r@[0] == up);
            } else {
                assert(r@[0] == v@[0]);
            }
        }
    }
    r
}

/// The digits of `n` (`decimal_text`), which have no leading zero when `n` is not zero.
pub proof fn lemma_decimal_text_canonical(n: nat)
    ensures
        n > 0 ==> canonical(decimal_text(n)),
        decimal_value(decimal_text(n)) == n,
        all_digits(decimal_text(n)),
    decreases n,
{
    crate::number::lemma_decimal_text(n);
    if n >= 10 {
        lemma_decimal_text_canonical(n / 10);
        assert(decimal_text(n)[0] == decimal_text(n / 10)[0]);
    }
}

/// A number written without leading zeros is written as `decimal_text` writes it.
pub proof fn lemma_canonical_is_decimal_text(s: Seq<char>)
    requires
        canonical(s),
        s.len() > 0,
    ensures
        s == decimal_text(decimal_value(s)),
    decreases s.len(),
{
    let n = decimal_value(s);
    let t = s.drop_last();
    crate::number::lemma_last_digit(s);
    let d = ((s.last() as u32) - ('0' as u32)) as nat;
    assert(is_digit(s[s.len() - 1]));
    assert(digit_char(d) == s.last());
    if t.len() == 0 {
        assert(n == d);
        assert(s =~= seq![s.last()]);
    } else {
        assert(t[0] == s[0]);
        lemma_canonical_lower(s);
        lemma_pow10_positive((s.len() - 2) as nat);
        assert(pow10((s.len() - 1) as nat) >= 10);
        lemma_canonical_is_decimal_text(t);
        assert(n / 10 == decimal_value(t));
        assert(n % 10 == d);
        assert(s =~= decimal_text(n / 10).push(digit_char(n % 10)));
    }
}

} // verus!
