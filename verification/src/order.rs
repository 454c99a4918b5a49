//! Three-way comparison results and the lexicographic order of texts.
use vstd::prelude::*;

verus! {

/// The result of comparing two values.
#[derive(Debug, Clone, Copy, PartialEq, Eq, Structural)]
pub enum Order {
    Less,
    Equal,
    Greater,
}

/// The comparison seen from the other side.
pub open spec fn reversed(o: Order) -> Order {
    match o {
        Order::Less => Order::Greater,
        Order::Equal => Order::Equal,
        Order::Greater => Order::Less,
    }
}

/// `o`, or `p` where `o` does not decide (`Ordering::then`).
pub open spec fn then_order(o: Order, p: Order) -> Order {
    if o == Order::Equal {
        p
    } else {
        o
    }
}

/// The order of two integers.
pub open spec fn int_order(a: int, b: int) -> Order {
    if a < b {
        Order::Less
    } else if a == b {
        Order::Equal
    } else {
        Order::Greater
    }
}

/// The lexicographic order of two texts by code point, which is the order
/// of `str` (UTF-8 preserves the order of code points).
pub open spec fn text_order(a: Seq<char>, b: Seq<char>) -> Order
    decreases a.len(),
{
    if a.len() == 0 {
        if b.len() == 0 {
            Order::Equal
        } else {
            Order::Less
        }
    } else if b.len() == 0 {
        Order::Greater
    } else if a[0] < b[0] {
        Order::Less
    } else if a[0] > b[0] {
        Order::Greater
    } else {
        text_order(a.drop_first(), b.drop_first())
    }
}


/// `a` is a proper prefix of `b`.
pub open spec fn proper_prefix(a: Seq<char>, b: Seq<char>) -> bool {
    a.len() < b.len() && b.take(a.len() as int) == a
}

/// `a` and `b` first differ at a position where `a` has the smaller character.
pub open spec fn first_difference_below(a: Seq<char>, b: Seq<char>) -> bool {
    exists|i: int| 0 <= i < a.len() && i < b.len() && a.take(i) == b.take(i) && #[trigger] a[i] < b[i]
}

/// The order of texts is the lexicographic order of `str`: `a` comes
/// before `b` exactly when it is a proper prefix of `b`, or when at the
/// first position where they differ `a` has the smaller character.
pub proof fn law_text_order_lexicographic(a: Seq<char>, b: Seq<char>)
    ensures
        (text_order(a, b) == Order::Less) <==> (proper_prefix(a, b) || first_difference_below(a, b)),
    decreases a.len(),
{
    if a.len() == 0 {
        if b.len() > 0 {
            assert(b.take(0) =~= a);
        }
        assert(!first_difference_below(a, b));
    } else if b.len() == 0 {
        assert(!first_difference_below(a, b));
    } else {
        let ta = a.drop_first();
        let tb = b.drop_first();
        law_text_order_lexicographic(ta, tb);
        if a[0] < b[0] {
            assert(a.take(0) =~= b.take(0));
            assert(first_difference_below(a, b));
        } else if a[0] > b[0] {
            if proper_prefix(a, b) {
                assert(b.take(a.len() as int)[0] == a[0]);
            }
            if first_difference_below(a, b) {
                let i = choose|i: int|
                    0 <= i < a.len() && i < b.len() && a.take(i) == b.take(i) && #[trigger] a[i] < b[i];
                if i > 0 {
                    assert(a.take(i)[0] == b.take(i)[0]);
                }
            }
        } else {
            // equal first characters: the order is that of the rests
            if proper_prefix(a, b) {
                assert(tb.take(ta.len() as int) =~= b.take(a.len() as int).drop_first());
                assert(proper_prefix(ta, tb));
            }
            if proper_prefix(ta, tb) {
                assert(b.take(a.len() as int) =~= seq![b[0]] + tb.take(ta.len() as int));
                assert(a =~= seq![a[0]] + ta);
                assert(proper_prefix(a, b));
            }
            if first_difference_below(a, b) {
                let i = choose|i: int|
                    0 <= i < a.len() && i < b.len() && a.take(i) == b.take(i) && #[trigger] a[i] < b[i];
                assert(i > 0);
                assert(ta.take(i - 1) =~= a.take(i).drop_first());
                assert(tb.take(i - 1) =~= b.take(i).drop_first());
                assert(ta[i - 1] == a[i] && tb[i - 1] == b[i]);
                assert(first_difference_below(ta, tb));
            }
            if first_difference_below(ta, tb) {
                let j = choose|j: int|
                    0 <= j < ta.len() && j < tb.len() && ta.take(j) == tb.take(j) && #[trigger] ta[j] < tb[j];
                assert(a.take(j + 1) =~= seq![a[0]] + ta.take(j));
                assert(b.take(j + 1) =~= seq![b[0]] + tb.take(j));
                assert(a[j + 1] == ta[j] && b[j + 1] == tb[j]);
                assert(first_difference_below(a, b));
            }
        }
    }
}

/// A text comes before every longer text that it begins.
pub proof fn law_prefix_comes_first(a: Seq<char>, s: Seq<char>)
    requires
        s.len() > 0,
    ensures
        text_order(a, a + s) == Order::Less,
        text_order(a + s, a) == Order::Greater,
{
    assert((a + s).take(a.len() as int) =~= a);
    law_text_order_lexicographic(a, a + s);
    lemma_text_order_antisymmetric(a + s, a);
}

pub proof fn lemma_text_order_antisymmetric(a: Seq<char>, b: Seq<char>)
    ensures
        text_order(a, b) == reversed(text_order(b, a)),
    decreases a.len(),
{
    if a.len() > 0 && b.len() > 0 && a[0] == b[0] {
        lemma_text_order_antisymmetric(a.drop_first(), b.drop_first());
    }
}

pub proof fn lemma_text_order_equal(a: Seq<char>, b: Seq<char>)
    ensures
        (text_order(a, b) == Order::Equal) == (a == b),
    decreases a.len(),
{
    if a.len() == 0 && b.len() == 0 {
        assert(a =~= b);
    }
    if a.len() > 0 && b.len() > 0 {
        if a[0] == b[0] {
            lemma_text_order_equal(a.drop_first(), b.drop_first());
            if a.drop_first() == b.drop_first() {
                assert forall|i: int| 0 <= i < a.len() implies a[i] == b[i] by {
                    if i > 0 {
                        assert(a[i] == a.drop_first()[i - 1]);
                        assert(b[i] == b.drop_first()[i - 1]);
                    }
                }
                assert(a =~= b);
            }
        }
    }
}

pub proof fn lemma_text_order_transitive(a: Seq<char>, b: Seq<char>, c: Seq<char>)
    requires
        text_order(a, b) != Order::Greater,
        text_order(b, c) != Order::Greater,
    ensures
        text_order(a, c) != Order::Greater,
        text_order(a, b) == Order::Less || text_order(b, c) == Order::Less ==> text_order(a, c)
            == Order::Less,
    decreases a.len(),
{
    if a.len() > 0 && b.len() > 0 && c.len() > 0 && a[0] == b[0] && b[0] == c[0] {
        lemma_text_order_transitive(a.drop_first(), b.drop_first(), c.drop_first());
    }
}

/// The three comparisons among `a`, `b` and `c` (`ab`, `bc`, `ac`) are those
/// of a total preorder: less-or-equal and strictly-less chain, and so does
/// equality.
pub open spec fn chains(ab: Order, bc: Order, ac: Order) -> bool {
    &&& (ab != Order::Greater && bc != Order::Greater ==> ac != Order::Greater)
    &&& ((ab == Order::Less && bc != Order::Greater) || (ab != Order::Greater && bc == Order::Less)
        ==> ac == Order::Less)
    &&& (ab == Order::Equal && bc == Order::Equal ==> ac == Order::Equal)
}

pub proof fn lemma_then_chains(
    pab: Order,
    pbc: Order,
    pac: Order,
    qab: Order,
    qbc: Order,
    qac: Order,
)
    requires
        chains(pab, pbc, pac),
        chains(qab, qbc, qac),
    ensures
        chains(then_order(pab, qab), then_order(pbc, qbc), then_order(pac, qac)),
{
}

pub proof fn lemma_int_chains(a: int, b: int, c: int)
    ensures
        chains(int_order(a, b), int_order(b, c), int_order(a, c)),
        int_order(a, b) == reversed(int_order(b, a)),
{
}

pub proof fn lemma_text_chains(a: Seq<char>, b: Seq<char>, c: Seq<char>)
    ensures
        chains(text_order(a, b), text_order(b, c), text_order(a, c)),
        text_order(a, b) == reversed(text_order(b, a)),
{
    lemma_text_order_antisymmetric(a, b);
    lemma_text_order_equal(a, b);
    lemma_text_order_equal(b, c);
    lemma_text_order_equal(a, c);
    if text_order(a, b) != Order::Greater && text_order(b, c) != Order::Greater {
        lemma_text_order_transitive(a, b, c);
    }
}

/// The lexicographic order of two byte strings.
pub open spec fn bytes_order(a: Seq<u8>, b: Seq<u8>) -> Order
    decreases a.len(),
{
    if a.len() == 0 {
        if b.len() == 0 {
            Order::Equal
        } else {
            Order::Less
        }
    } else if b.len() == 0 {
        Order::Greater
    } else if a[0] < b[0] {
        Order::Less
    } else if a[0] > b[0] {
        Order::Greater
    } else {
        bytes_order(a.drop_first(), b.drop_first())
    }
}


/// Names are ordered by their bytes as `[u8]` orders them: `a` comes before
/// `b` when it is a proper prefix of `b`, or when at the first position
/// where they differ `a` has the smaller byte.
pub proof fn law_bytes_order_lexicographic(a: Seq<u8>, b: Seq<u8>, i: int)
    requires
        0 <= i <= a.len(),
        i < b.len(),
        a.take(i) == b.take(i),
        i == a.len() || a[i] < b[i],
    ensures
        bytes_order(a, b) == Order::Less,
        bytes_order(b, a) == Order::Greater,
    decreases i,
{
    if i > 0 {
        assert(a.take(i)[0] == b.take(i)[0]);
        assert(a[0] == a.take(i)[0] && b[0] == b.take(i)[0]);
        if i < a.len() {
            assert(a.drop_first()[i - 1] == a[i]);
            assert(b.drop_first()[i - 1] == b[i]);
        }
        assert(a.drop_first().take(i - 1) =~= a.take(i).drop_first());
        assert(b.drop_first().take(i - 1) =~= b.take(i).drop_first());
        law_bytes_order_lexicographic(a.drop_first(), b.drop_first(), i - 1);
    }
}

pub proof fn lemma_bytes_chains(a: Seq<u8>, b: Seq<u8>, c: Seq<u8>)
    ensures
        chains(bytes_order(a, b), bytes_order(b, c), bytes_order(a, c)),
        bytes_order(a, b) == reversed(bytes_order(b, a)),
        (bytes_order(a, b) == Order::Equal) == (a == b),
    decreases a.len(),
{
    if a.len() == 0 && b.len() == 0 {
        assert(a =~= b);
    }
    if a.len() > 0 && b.len() > 0 && c.len() > 0 {
        lemma_bytes_chains(a.drop_first(), b.drop_first(), c.drop_first());
    } else if a.len() > 0 && b.len() > 0 {
        lemma_bytes_chains(a.drop_first(), b.drop_first(), b.drop_first());
    }
    if a.len() > 0 && b.len() > 0 && a[0] == b[0] && a.drop_first() == b.drop_first() {
        assert forall|i: int| 0 <= i < a.len() implies a[i] == b[i] by {
            if i > 0 {
                assert(a[i] == a.drop_first()[i - 1]);
                assert(b[i] == b.drop_first()[i - 1]);
            }
        }
        assert(a =~= b);
    }
}

/// Compares two byte strings lexicographically.
pub fn compare_bytes(a: &[u8], b: &[u8]) -> (r: Order)
    ensures
        r == bytes_order(a@, b@),
{
    let mut i: usize = 0;
    assert(a@.skip(0) == a@);
    assert(b@.skip(0) == b@);
    while i < a.len() && i < b.len() && a[i] == b[i]
        invariant
            i <= a@.len(),
            i <= b@.len(),
            bytes_order(a@, b@) == bytes_order(a@.skip(i as int), b@.skip(i as int)),
        decreases a@.len() - i,
    {
        assert(a@.skip(i as int).drop_first() == a@.skip(i + 1));
        assert(b@.skip(i as int).drop_first() == b@.skip(i + 1));
        i = i + 1;
    }
    let ghost sa = a@.skip(i as int);
    let ghost sb = b@.skip(i as int);
    if i == a.len() {
        if i == b.len() {
            Order::Equal
        } else {
            Order::Less
        }
    } else if i == b.len() {
        Order::Greater
    } else {
        assert(sa[0] == a@[i as int]);
        assert(sb[0] == b@[i as int]);
        if a[i] < b[i] {
            Order::Less
        } else {
            Order::Greater
        }
    }
}

/// Compares two texts lexicographically by code point.
pub fn compare_chars(a: &[char], b: &[char]) -> (r: Order)
    ensures
        r == text_order(a@, b@),
{
    let mut i: usize = 0;
    assert(a@.skip(0) == a@);
    assert(b@.skip(0) == b@);
    while i < a.len() && i < b.len() && a[i] == b[i]
        invariant
            i <= a@.len(),
            i <= b@.len(),
            text_order(a@, b@) == text_order(a@.skip(i as int), b@.skip(i as int)),
        decreases a@.len() - i,
    {
        assert(a@.skip(i as int).drop_first() == a@.skip(i + 1));
        assert(b@.skip(i as int).drop_first() == b@.skip(i + 1));
        i = i + 1;
    }
    let ghost sa = a@.skip(i as int);
    let ghost sb = b@.skip(i as int);
    if i == a.len() {
        if i == b.len() {
            Order::Equal
        } else {
            Order::Less
        }
    } else if i == b.len() {
        Order::Greater
    } else {
        assert(sa[0] == a@[i as int]);
        assert(sb[0] == b@[i as int]);
        if a[i] < b[i] {
            Order::Less
        } else {
            Order::Greater
        }
    }
}

/// Compares two integers.
pub fn compare_u64(a: u64, b: u64) -> (r: Order)
    ensures
        r == int_order(a as int, b as int),
{
    if a < b {
        Order::Less
    } else if a == b {
        Order::Equal
    } else {
        Order::Greater
    }
}

/// Compares two signed integers.
pub fn compare_i64(a: i64, b: i64) -> (r: Order)
    ensures
        r == int_order(a as int, b as int),
{
    if a < b {
        Order::Less
    } else if a == b {
        Order::Equal
    } else {
        Order::Greater
    }
}

/// `then_order` on executable values.
pub fn then(o: Order, p: Order) -> (r: Order)
    ensures
        r == then_order(o, p),
{
    match o {
        Order::Equal => p,
        _ => o,
    }
}

} // verus!
