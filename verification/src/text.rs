//! Character-level text helpers shared by the parsers and formatters.
//!
//! Text is handled as a sequence of `char`s: a `&str` or `String` is viewed
//! as its `Seq<char>`, and the parsers work on `Vec<char>` copies.
use vstd::prelude::*;

verus! {

/// `char::is_whitespace`: the code points with the Unicode `White_Space` property.
pub open spec fn is_space(c: char) -> bool {
    let u = c as u32;
    ||| 0x9 <= u <= 0xD
    ||| u == 0x20
    ||| u == 0x85
    ||| u == 0xA0
    ||| u == 0x1680
    ||| 0x2000 <= u <= 0x200A
    ||| u == 0x2028
    ||| u == 0x2029
    ||| u == 0x202F
    ||| u == 0x205F
    ||| u == 0x3000
}

/// Whether `c` is white space in the sense of `char::is_whitespace`.
pub fn is_whitespace(c: char) -> (b: bool)
    ensures
        b == is_space(c),
{
    let u = c as u32;
    (0x9 <= u && u <= 0xD) || u == 0x20 || u == 0x85 || u == 0xA0 || u == 0x1680 || (0x2000 <= u
        && u <= 0x200A) || u == 0x2028 || u == 0x2029 || u == 0x202F || u == 0x205F || u == 0x3000
}

/// `s` without its leading white space.
pub open spec fn trim_start(s: Seq<char>) -> Seq<char>
    decreases s.len(),
{
    if s.len() > 0 && is_space(s[0]) {
        trim_start(s.drop_first())
    } else {
        s
    }
}

/// `s` without its trailing white space.
pub open spec fn trim_end(s: Seq<char>) -> Seq<char>
    decreases s.len(),
{
    if s.len() > 0 && is_space(s.last()) {
        trim_end(s.drop_last())
    } else {
        s
    }
}

/// `str::trim`: `s` without leading and trailing white space.
pub open spec fn trim(s: Seq<char>) -> Seq<char> {
    trim_end(trim_start(s))
}

/// `char::to_ascii_lowercase`.
pub open spec fn lower_char(c: char) -> char {
    if 'A' <= c && c <= 'Z' {
        ((c as u32) + 32) as char
    } else {
        c
    }
}

/// `str::to_ascii_lowercase`: ASCII letters lowered, everything else kept.
pub open spec fn ascii_lower(s: Seq<char>) -> Seq<char> {
    s.map_values(|c: char| lower_char(c))
}


/// `char::to_ascii_uppercase`.
pub open spec fn upper_char(c: char) -> char {
    if 'a' <= c && c <= 'z' {
        ((c as u32) - 32) as char
    } else {
        c
    }
}

/// `str::to_ascii_uppercase`: ASCII letters raised, everything else kept.
pub open spec fn ascii_upper(s: Seq<char>) -> Seq<char> {
    s.map_values(|c: char| upper_char(c))
}

/// Raising ASCII letters keeps white space where it is.
pub proof fn lemma_trim_upper(s: Seq<char>)
    ensures
        trim(ascii_upper(s)) == ascii_upper(trim(s)),
        ascii_lower(ascii_upper(s)) == ascii_lower(s),
{
    lemma_trim_start_upper(s);
    lemma_trim_end_upper(trim_start(s));
    assert(ascii_lower(ascii_upper(s)) =~= ascii_lower(s));
}

proof fn lemma_trim_start_upper(s: Seq<char>)
    ensures
        trim_start(ascii_upper(s)) == ascii_upper(trim_start(s)),
    decreases s.len(),
{
    if s.len() > 0 {
        assert(ascii_upper(s)[0] == upper_char(s[0]));
        assert(ascii_upper(s).drop_first() =~= ascii_upper(s.drop_first()));
        if is_space(s[0]) {
            lemma_trim_start_upper(s.drop_first());
        }
    } else {
        assert(ascii_upper(s) =~= s);
    }
}

proof fn lemma_trim_end_upper(s: Seq<char>)
    ensures
        trim_end(ascii_upper(s)) == ascii_upper(trim_end(s)),
    decreases s.len(),
{
    if s.len() > 0 {
        assert(ascii_upper(s).last() == upper_char(s.last()));
        assert(ascii_upper(s).drop_last() =~= ascii_upper(s.drop_last()));
        if is_space(s.last()) {
            lemma_trim_end_upper(s.drop_last());
        }
    } else {
        assert(ascii_upper(s) =~= s);
    }
}

/// Trailing white space does not change where the text starts.
proof fn lemma_trim_start_append(s: Seq<char>, z: Seq<char>)
    ensures
        trim_start(s + z) == (if trim_start(s).len() > 0 {
            trim_start(s) + z
        } else {
            trim_start(z)
        }),
    decreases s.len(),
{
    if s.len() == 0 {
        assert(s + z =~= z);
    } else {
        assert((s + z)[0] == s[0]);
        assert((s + z).drop_first() =~= s.drop_first() + z);
        if is_space(s[0]) {
            lemma_trim_start_append(s.drop_first(), z);
        }
    }
}

/// Trailing white space is trimmed away.
proof fn lemma_trim_end_spaces(t: Seq<char>, z: Seq<char>)
    requires
        forall|i: int| 0 <= i < z.len() ==> is_space(#[trigger] z[i]),
    ensures
        trim_end(t + z) == trim_end(t),
    decreases z.len(),
{
    if z.len() == 0 {
        assert(t + z =~= t);
    } else {
        assert((t + z).last() == z.last());
        assert((t + z).drop_last() =~= t + z.drop_last());
        assert(is_space(z[z.len() - 1]));
        lemma_trim_end_spaces(t, z.drop_last());
    }
}

/// Surrounding a text with white space does not change it once trimmed.
pub proof fn lemma_trim_padded(s: Seq<char>)
    ensures
        trim(seq![' '] + s + seq![' ']) == trim(s),
{
    let z = seq![' '];
    let x = seq![' '] + s + z;
    assert(x[0] == ' ');
    assert(x.drop_first() =~= s + z);
    assert(trim_start(x) == trim_start(s + z));
    lemma_trim_start_append(s, z);
    if trim_start(s).len() > 0 {
        lemma_trim_end_spaces(trim_start(s), z);
    } else {
        assert(z.drop_first() =~= Seq::<char>::empty());
        assert(z[0] == ' ');
        assert(is_space(z[0]));
        assert(trim_start(z.drop_first()) == z.drop_first());
        assert(trim_start(z) =~= Seq::<char>::empty());
    }
}

/// `s` ends with `suffix`.
pub open spec fn ends_with(s: Seq<char>, suffix: Seq<char>) -> bool {
    suffix.len() <= s.len() && s.subrange(s.len() - suffix.len(), s.len() as int) == suffix
}

/// `s` starts with `prefix`.
pub open spec fn starts_with(s: Seq<char>, prefix: Seq<char>) -> bool {
    prefix.len() <= s.len() && s.subrange(0, prefix.len() as int) == prefix
}

/// `str::strip_suffix`.
pub open spec fn strip_suffix(s: Seq<char>, suffix: Seq<char>) -> Option<Seq<char>> {
    if ends_with(s, suffix) {
        Some(s.subrange(0, s.len() - suffix.len()))
    } else {
        None
    }
}

/// `str::strip_prefix`.
pub open spec fn strip_prefix(s: Seq<char>, prefix: Seq<char>) -> Option<Seq<char>> {
    if starts_with(s, prefix) {
        Some(s.subrange(prefix.len() as int, s.len() as int))
    } else {
        None
    }
}

/// The characters of `s`.
pub fn chars_of(s: &str) -> (v: Vec<char>)
    ensures
        v@ == s@,
{
    let mut v: Vec<char> = Vec::new();
    for c in it: s.chars()
        invariant
            v@ == it.seq().take(it.index() as int),
    {
        v.push(c);
        assert(v@ == it.seq().take(it.index() + 1));
    }
    v
}

/// Appends `c` to `s` (`String::push`).
#[verifier::external_body]
pub(crate) fn push_char(s: &mut String, c: char)
    ensures
        final(s)@ == old(s)@.push(c),
{
    s.push(c);
}

/// Appends the characters of `v` to `s`.
pub fn push_chars(s: &mut String, v: &[char])
    ensures
        final(s)@ == old(s)@ + v@,
{
    let mut i: usize = 0;
    while i < v.len()
        invariant
            i <= v@.len(),
            s@ == old(s)@ + v@.take(i as int),
        decreases v@.len() - i,
    {
        push_char(s, v[i]);
        assert(v@.take(i + 1) == v@.take(i as int).push(v@[i as int]));
        i = i + 1;
    }
    assert(v@.take(v@.len() as int) == v@);
}

proof fn lemma_trim_start_step(s: Seq<char>, i: int)
    requires
        0 <= i < s.len(),
        is_space(s[i]),
    ensures
        trim_start(s.subrange(i, s.len() as int)) == trim_start(s.subrange(i + 1, s.len() as int)),
{
    assert(s.subrange(i, s.len() as int).drop_first() == s.subrange(i + 1, s.len() as int));
}

proof fn lemma_trim_end_step(s: Seq<char>, j: int)
    requires
        0 < j <= s.len(),
        is_space(s[j - 1]),
    ensures
        trim_end(s.subrange(0, j)) == trim_end(s.subrange(0, j - 1)),
{
    assert(s.subrange(0, j).drop_last() == s.subrange(0, j - 1));
}

/// The characters of `v[from..to]`.
pub fn slice_chars(v: &[char], from: usize, to: usize) -> (r: Vec<char>)
    requires
        from <= to <= v@.len(),
    ensures
        r@ == v@.subrange(from as int, to as int),
{
    let mut r: Vec<char> = Vec::new();
    let mut i = from;
    while i < to
        invariant
            from <= i <= to <= v@.len(),
            r@ == v@.subrange(from as int, i as int),
        decreases to - i,
    {
        r.push(v[i]);
        assert(v@.subrange(from as int, i + 1) == v@.subrange(from as int, i as int).push(v@[i as int]));
        i = i + 1;
    }
    r
}

/// `str::trim` on characters.
pub fn trim_chars(v: &[char]) -> (r: Vec<char>)
    ensures
        r@ == trim(v@),
{
    let n = v.len();
    let mut i: usize = 0;
    assert(v@.subrange(0, n as int) == v@);
    while i < n && is_whitespace(v[i])
        invariant
            i <= n == v@.len(),
            trim_start(v@) == trim_start(v@.subrange(i as int, n as int)),
        decreases n - i,
    {
        proof { lemma_trim_start_step(v@, i as int); }
        i = i + 1;
    }
    let ghost t = v@.subrange(i as int, n as int);
    assert(trim_start(v@) == t);
    let mut j: usize = n;
    assert(t.subrange(0, t.len() as int) == t);
    while j > i && is_whitespace(v[j - 1])
        invariant
            i <= j <= n == v@.len(),
            t == v@.subrange(i as int, n as int),
            trim_end(t) == trim_end(v@.subrange(i as int, j as int)),
        decreases j - i,
    {
        proof {
            lemma_trim_end_step(v@.subrange(i as int, n as int), j - i);
            assert(t.subrange(0, j - i) == v@.subrange(i as int, j as int));
            assert(t.subrange(0, j - i - 1) == v@.subrange(i as int, j - 1));
        }
        j = j - 1;
    }
    slice_chars(v, i, j)
}

/// `str::to_ascii_lowercase` on characters.
pub fn lower_ascii(v: &[char]) -> (r: Vec<char>)
    ensures
        r@ == ascii_lower(v@),
{
    let mut r: Vec<char> = Vec::new();
    let mut i: usize = 0;
    while i < v.len()
        invariant
            i <= v@.len(),
            r@ == ascii_lower(v@.take(i as int)),
        decreases v@.len() - i,
    {
        let c = v[i];
        let l = if 'A' <= c && c <= 'Z' {
            ((c as u8) + 32) as char
        } else {
            c
        };
        r.push(l);
        assert(ascii_lower(v@.take(i + 1)) == ascii_lower(v@.take(i as int)).push(lower_char(c)));
        i = i + 1;
    }
    assert(v@.take(v@.len() as int) == v@);
    r
}

/// Whether `a` and `b` hold the same characters.
pub fn chars_eq(a: &[char], b: &[char]) -> (r: bool)
    ensures
        r == (a@ == b@),
{
    if a.len() != b.len() {
        return false;
    }
    let mut i: usize = 0;
    while i < a.len()
        invariant
            a@.len() == b@.len(),
            i <= a@.len(),
            forall|k: int| 0 <= k < i ==> a@[k] == b@[k],
        decreases a@.len() - i,
    {
        if a[i] != b[i] {
            return false;
        }
        i = i + 1;
    }
    assert(a@ == b@);
    true
}

/// `str::strip_suffix` on characters.
pub fn strip_suffix_chars(v: &[char], suffix: &[char]) -> (r: Option<Vec<char>>)
    ensures
        r matches Some(x) ==> strip_suffix(v@, suffix@) == Some(x@),
        r is None ==> strip_suffix(v@, suffix@) is None,
{
    if suffix.len() > v.len() {
        return None;
    }
    let tail = slice_chars(v, v.len() - suffix.len(), v.len());
    if chars_eq(tail.as_slice(), suffix) {
        Some(slice_chars(v, 0, v.len() - suffix.len()))
    } else {
        None
    }
}

/// `str::strip_prefix` on characters.
pub fn strip_prefix_chars(v: &[char], prefix: &[char]) -> (r: Option<Vec<char>>)
    ensures
        r matches Some(x) ==> strip_prefix(v@, prefix@) == Some(x@),
        r is None ==> strip_prefix(v@, prefix@) is None,
{
    if prefix.len() > v.len() {
        return None;
    }
    let head = slice_chars(v, 0, prefix.len());
    if chars_eq(head.as_slice(), prefix) {
        Some(slice_chars(v, prefix.len(), v.len()))
    } else {
        None
    }
}


/// The ASCII digit for `d` (`d` below ten).
pub open spec fn digit_char(d: nat) -> char {
    if d == 0 {
        '0'
    } else if d == 1 {
        '1'
    } else if d == 2 {
        '2'
    } else if d == 3 {
        '3'
    } else if d == 4 {
        '4'
    } else if d == 5 {
        '5'
    } else if d == 6 {
        '6'
    } else if d == 7 {
        '7'
    } else if d == 8 {
        '8'
    } else {
        '9'
    }
}

/// The decimal numeral of `n`, without leading zeros (`{}` formatting).
pub open spec fn decimal_text(n: nat) -> Seq<char>
    decreases n,
{
    if n < 10 {
        seq![digit_char(n)]
    } else {
        decimal_text(n / 10).push(digit_char(n % 10))
    }
}

/// The decimal numeral of `n`, zero-padded to at least two digits (`{:02}` formatting).
pub open spec fn two_digit_text(n: nat) -> Seq<char> {
    if n < 10 {
        seq!['0', digit_char(n)]
    } else {
        decimal_text(n)
    }
}

fn digit(d: u64) -> (c: char)
    requires
        d < 10,
    ensures
        c == digit_char(d as nat),
{
    match d {
        0 => '0',
        1 => '1',
        2 => '2',
        3 => '3',
        4 => '4',
        5 => '5',
        6 => '6',
        7 => '7',
        8 => '8',
        _ => '9',
    }
}

/// Appends the decimal numeral of `n`.
pub fn push_decimal(s: &mut String, n: u64)
    ensures
        final(s)@ == old(s)@ + decimal_text(n as nat),
    decreases n,
{
    if n >= 10 {
        push_decimal(s, n / 10);
    }
    push_char(s, digit(n % 10));
    proof {
        if n < 10 {
            assert(n % 10 == n);
        }
    }
}

/// Appends the decimal numeral of `n`, zero-padded to two digits.
pub fn push_two_digits(s: &mut String, n: u64)
    ensures
        final(s)@ == old(s)@ + two_digit_text(n as nat),
{
    if n < 10 {
        push_char(s, '0');
        push_char(s, digit(n));
    } else {
        push_decimal(s, n);
    }
}

} // verus!
