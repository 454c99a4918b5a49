//! Filtering the track table by tempo range and key, and reading a filter
//! from the query the user types (`120-128 Am`, `bpm=120-128, key=8A`).
use vstd::prelude::*;

use crate::key_format::{key_chars_readable, key_text_ok, normalize_key_chars, normalize_key_spec};
use crate::number::{find_char, lemma_find_char};
use crate::tempo::{
    milli_view, parse_tempo, tempo_less, tempo_max, tempo_min, tempo_text, tempo_value, Tempo,
    TempoView,
};
use crate::sort::{opt_text, TrackEntry};
use crate::text::{
    chars_eq, chars_of, is_space, is_whitespace, push_char, push_chars,
    slice_chars, strip_prefix, strip_prefix_chars, trim, trim_chars,
};

verus! {

/// A filter on the rows of the table: a tempo range (both ends included)
/// and a key in long form (`A minor`).
#[derive(Debug, PartialEq, Eq)]
pub struct TrackFilter {
    pub bpm_min: Option<Tempo>,
    pub bpm_max: Option<Tempo>,
    pub key: Option<String>,
}

/// What a filter holds: the tempo bounds and the text of the key.
pub type FilterView = (Option<TempoView>, Option<TempoView>, Option<Seq<char>>);

/// What an optional bound stands for.
pub open spec fn opt_tempo(t: Option<Tempo>) -> Option<TempoView> {
    match t {
        Some(x) => Some(x@),
        None => None,
    }
}

impl View for TrackFilter {
    type V = FilterView;

    open spec fn view(&self) -> FilterView {
        (opt_tempo(self.bpm_min), opt_tempo(self.bpm_max), opt_text(self.key))
    }
}

/// A row passes a filter when it is not analysed yet (or failed), or when
/// it has a tempo that is not below the lower bound nor above the upper
/// one (`tempo_less` on the thousandths held) and its key is the filter's key.
pub open spec fn filter_matches(f: FilterView, e: TrackEntry) -> bool {
    e.status_rank != 2 || {
        &&& (f.0 matches Some(min) ==> (e.bpm matches Some(b) && !tempo_less(
            milli_view(b as int),
            min,
        )))
        &&& (f.1 matches Some(max) ==> (e.bpm matches Some(b) && !tempo_less(
            max,
            milli_view(b as int),
        )))
        &&& (f.2 matches Some(k) ==> opt_text(e.standard_key) == Some(k))
    }
}

pub open spec fn bpm_word() -> Seq<char> {
    seq!['B', 'P', 'M', ' ']
}

pub open spec fn key_word() -> Seq<char> {
    seq!['K', 'e', 'y', ' ']
}

pub open spec fn part_separator() -> Seq<char> {
    seq![' ', ' ', '|', ' ', ' ']
}

pub open spec fn all_tracks_text() -> Seq<char> {
    seq!['A', 'l', 'l', ' ', 't', 'r', 'a', 'c', 'k', 's']
}

/// The tempo part of a description.
pub open spec fn bpm_part(min: Option<TempoView>, max: Option<TempoView>) -> Seq<char> {
    match (min, max) {
        (Some(a), Some(b)) => bpm_word() + tempo_text(a) + seq!['-'] + tempo_text(b),
        (Some(a), None) => bpm_word() + seq!['\u{2265}', ' '] + tempo_text(a),
        (None, Some(b)) => bpm_word() + seq!['\u{2264}', ' '] + tempo_text(b),
        (None, None) => Seq::<char>::empty(),
    }
}

/// How a filter is described: its tempo part and its key part, joined by
/// `  |  `, or `All tracks` when it has neither.
pub open spec fn describe_text(f: FilterView) -> Seq<char> {
    let has_bpm = f.0 is Some || f.1 is Some;
    match f.2 {
        None => if has_bpm {
            bpm_part(f.0, f.1)
        } else {
            all_tracks_text()
        },
        Some(k) => if has_bpm {
            bpm_part(f.0, f.1) + part_separator() + key_word() + k
        } else {
            key_word() + k
        },
    }
}

impl TrackFilter {
    /// Whether a row passes this filter (`filter_matches`).
    pub fn matches_entry(&self, entry: &TrackEntry) -> (r: bool)
        ensures
            r == filter_matches(self@, *entry),
    {
        if entry.status_rank != 2 {
            return true;
        }
        if let Some(min) = &self.bpm_min {
            match entry.bpm {
                None => return false,
                Some(bpm) => if Tempo::from_milli(bpm).less(min) {
                    return false;
                },
            }
        }
        if let Some(max) = &self.bpm_max {
            match entry.bpm {
                None => return false,
                Some(bpm) => if max.less(&Tempo::from_milli(bpm)) {
                    return false;
                },
            }
        }
        if let Some(expected_key) = &self.key {
            match &entry.standard_key {
                None => return false,
                Some(actual) => {
                    let e = chars_of(expected_key.as_str());
                    let a = chars_of(actual.as_str());
                    if !chars_eq(a.as_slice(), e.as_slice()) {
                        return false;
                    }
                },
            }
        }
        true
    }

    /// A short description of this filter (`describe_text`).
    pub fn describe(&self) -> (r: String)
        ensures
            r@ == describe_text(self@),
    {
        let has_bpm = self.bpm_min.is_some() || self.bpm_max.is_some();
        let mut s = String::new();
        if has_bpm {
            push_chars(&mut s, &['B', 'P', 'M', ' ']);
            match (&self.bpm_min, &self.bpm_max) {
                (Some(min), Some(max)) => {
                    min.push_text(&mut s);
                    push_char(&mut s, '-');
                    max.push_text(&mut s);
                },
                (Some(min), None) => {
                    push_chars(&mut s, &['\u{2265}', ' ']);
                    min.push_text(&mut s);
                },
                (None, Some(max)) => {
                    push_chars(&mut s, &['\u{2264}', ' ']);
                    max.push_text(&mut s);
                },
                (None, None) => {},
            }
        }
        match &self.key {
            Some(key) => {
                if has_bpm {
                    push_chars(&mut s, &[' ', ' ', '|', ' ', ' ']);
                }
                push_chars(&mut s, &['K', 'e', 'y', ' ']);
                let k = chars_of(key.as_str());
                push_chars(&mut s, k.as_slice());
            },
            None => {
                if !has_bpm {
                    push_chars(&mut s, &['A', 'l', 'l', ' ', 't', 'r', 'a', 'c', 'k', 's']);
                }
            },
        }
        s
    }
}



/// A tempo range `a-b` (split at the first `-`, each side trimmed and read
/// as a decimal number of thousandths), as (lower, upper) whichever way
/// round it was written.
pub open spec fn bpm_range_spec(t: Seq<char>) -> Option<(TempoView, TempoView)> {
    let d = find_char(t, '-');
    if d == t.len() {
        None
    } else {
        match (tempo_value(trim(t.take(d))), tempo_value(trim(t.skip(d + 1)))) {
            (Some(a), Some(b)) => Some((tempo_min(a, b), tempo_max(a, b))),
            _ => None,
        }
    }
}

/// Reads a tempo range (`bpm_range_spec`).
fn parse_bpm_range(t: &[char]) -> (r: Option<(Tempo, Tempo)>)
    ensures
        r matches Some((a, b)) ==> bpm_range_spec(t@) == Some((a@, b@)),
        r is None ==> bpm_range_spec(t@) is None,
{
    let n = t.len();
    let mut d: usize = 0;
    while d < n && t[d] != '-'
        invariant
            d <= n == t@.len(),
            forall|i: int| 0 <= i < d ==> t@[i] != '-',
        decreases n - d,
    {
        d = d + 1;
    }
    proof {
        lemma_find_char(t@, '-');
        let fd = find_char(t@, '-');
        if fd < d {
            assert(t@[fd] == '-');
        }
        if d < fd {
            assert(t@[d as int] == '-');
        }
    }
    if d == n {
        return None;
    }
    let left = slice_chars(t, 0, d);
    let right = slice_chars(t, d + 1, n);
    assert(left@ == t@.take(d as int));
    assert(right@ == t@.skip(d + 1));
    let left = trim_chars(left.as_slice());
    let right = trim_chars(right.as_slice());
    let a = match parse_tempo(left.as_slice()) {
        Some(a) => a,
        None => return None,
    };
    let b = match parse_tempo(right.as_slice()) {
        Some(b) => b,
        None => return None,
    };
    let lo = a.copy().min(b.copy());
    let hi = a.max(b);
    Some((lo, hi))
}

/// A character that separates the tokens of a query: white space or `,`.
pub open spec fn is_separator(c: char) -> bool {
    is_space(c) || c == ','
}

/// `str::split` on separators: the finished pieces and the one in progress.
pub open spec fn split_tokens(s: Seq<char>) -> (Seq<Seq<char>>, Seq<char>)
    decreases s.len(),
{
    if s.len() == 0 {
        (Seq::<Seq<char>>::empty(), Seq::<char>::empty())
    } else {
        let (done, cur) = split_tokens(s.drop_last());
        if is_separator(s.last()) {
            (done.push(cur), Seq::<char>::empty())
        } else {
            (done, cur.push(s.last()))
        }
    }
}

/// The pieces of a query between separators (possibly empty), in order.
pub open spec fn tokens(s: Seq<char>) -> Seq<Seq<char>> {
    split_tokens(s).0.push(split_tokens(s).1)
}

/// `t` without `p1`, or else without `p2`, or else unchanged.
pub open spec fn strip_either(t: Seq<char>, p1: Seq<char>, p2: Seq<char>) -> Seq<char> {
    match strip_prefix(t, p1) {
        Some(x) => x,
        None => match strip_prefix(t, p2) {
            Some(x) => x,
            None => t,
        },
    }
}

/// A token without its `bpm=`/`bpm:` and then its `key=`/`key:` prefix.
pub open spec fn token_body(raw: Seq<char>) -> Seq<char> {
    strip_either(
        strip_either(trim(raw), seq!['b', 'p', 'm', '='], seq!['b', 'p', 'm', ':']),
        seq!['k', 'e', 'y', '='],
        seq!['k', 'e', 'y', ':'],
    )
}

/// The filter read so far, and whether any token was understood.
pub type QueryState = (FilterView, bool);

/// The effect of one token: a tempo range narrows the tempo bounds
/// (the greater lower bound and the smaller upper bound win, as `f64`'s
/// `max` and `min` choose), a key
/// replaces the key, anything else is ignored.
pub open spec fn token_effect(st: QueryState, raw: Seq<char>) -> QueryState {
    let t = token_body(raw);
    if trim(raw).len() == 0 {
        st
    } else {
        match bpm_range_spec(t) {
            Some((lo, hi)) => {
                let new_min = match st.0.0 {
                    Some(c) => tempo_max(c, lo),
                    None => lo,
                };
                let new_max = match st.0.1 {
                    Some(c) => tempo_min(c, hi),
                    None => hi,
                };
                ((Some(new_min), Some(new_max), st.0.2), true)
            },
            None => match normalize_key_spec(t) {
                Some(k) => ((st.0.0, st.0.1, Some(k)), true),
                None => st,
            },
        }
    }
}

pub open spec fn token_step() -> spec_fn(QueryState, Seq<char>) -> QueryState {
    |st: QueryState, t: Seq<char>| token_effect(st, t)
}

pub open spec fn empty_query_state() -> QueryState {
    ((None, None, None), false)
}

/// The filter a query describes: its tokens applied in order to the empty
/// filter; `None` when no token was understood.
pub open spec fn query_filter(s: Seq<char>) -> Option<FilterView> {
    let st = tokens(s).fold_left(empty_query_state(), token_step());
    if st.1 {
        Some(st.0)
    } else {
        None
    }
}

/// The tokens on which reading a query does not panic: every token that is
/// read as a key has an ASCII last character (see `key_text_ok`).
pub open spec fn token_ok(raw: Seq<char>) -> bool {
    trim(raw).len() == 0 || bpm_range_spec(token_body(raw)) is Some || key_text_ok(
        token_body(raw),
    )
}

pub open spec fn query_ok(s: Seq<char>) -> bool {
    forall|i: int| 0 <= i < tokens(s).len() ==> token_ok(#[trigger] tokens(s)[i])
}

/// The texts of a list of tokens.
pub open spec fn texts_of(v: Seq<Vec<char>>) -> Seq<Seq<char>> {
    v.map_values(|t: Vec<char>| t@)
}

/// Splits a query into its tokens.
fn split_query(v: &[char]) -> (toks: Vec<Vec<char>>)
    ensures
        texts_of(toks@) == tokens(v@),
{
    let mut done: Vec<Vec<char>> = Vec::new();
    let mut cur: Vec<char> = Vec::new();
    let mut i: usize = 0;
    while i < v.len()
        invariant
            i <= v@.len(),
            (texts_of(done@), cur@) == split_tokens(v@.take(i as int)),
        decreases v@.len() - i,
    {
        let c = v[i];
        assert(v@.take(i + 1).drop_last() == v@.take(i as int));
        assert(v@.take(i + 1).last() == c);
        if is_whitespace(c) || c == ',' {
            let piece = cur;
            let ghost old_done = texts_of(done@);
            done.push(piece);
            assert(texts_of(done@) =~= old_done.push(piece@));
            cur = Vec::new();
        } else {
            cur.push(c);
        }
        i = i + 1;
    }
    assert(v@.take(v@.len() as int) == v@);
    let ghost old_done = texts_of(done@);
    done.push(cur);
    assert(texts_of(done@) =~= old_done.push(cur@));
    done
}

/// `strip_either` on characters.
fn strip_either_chars(t: Vec<char>, p1: &[char], p2: &[char]) -> (r: Vec<char>)
    ensures
        r@ == strip_either(t@, p1@, p2@),
{
    match strip_prefix_chars(t.as_slice(), p1) {
        Some(x) => x,
        None => match strip_prefix_chars(t.as_slice(), p2) {
            Some(x) => x,
            None => t,
        },
    }
}

/// Applies one token of a query (`token_effect`).
fn apply_token(filter: &mut TrackFilter, found: &mut bool, raw: &[char])
    requires
        token_ok(raw@),
    ensures
        (final(filter)@, *final(found)) == token_effect((old(filter)@, *old(found)), raw@),
{
    let t0 = trim_chars(raw);
    if t0.len() == 0 {
        return;
    }
    let bpm_eq: [char; 4] = ['b', 'p', 'm', '='];
    let bpm_colon: [char; 4] = ['b', 'p', 'm', ':'];
    let key_eq: [char; 4] = ['k', 'e', 'y', '='];
    let key_colon: [char; 4] = ['k', 'e', 'y', ':'];
    assert(bpm_eq@ == seq!['b', 'p', 'm', '=']);
    assert(bpm_colon@ == seq!['b', 'p', 'm', ':']);
    assert(key_eq@ == seq!['k', 'e', 'y', '=']);
    assert(key_colon@ == seq!['k', 'e', 'y', ':']);
    let t1 = strip_either_chars(t0, bpm_eq.as_slice(), bpm_colon.as_slice());
    let t2 = strip_either_chars(t1, key_eq.as_slice(), key_colon.as_slice());
    assert(t2@ == token_body(raw@));
    if let Some((lo, hi)) = parse_bpm_range(t2.as_slice()) {
        let new_min = match filter.bpm_min.take() {
            Some(c) => c.max(lo),
            None => lo,
        };
        let new_max = match filter.bpm_max.take() {
            Some(c) => c.min(hi),
            None => hi,
        };
        filter.bpm_min = Some(new_min);
        filter.bpm_max = Some(new_max);
        *found = true;
        return;
    }
    if let Some(k) = normalize_key_chars(t2.as_slice()) {
        filter.key = Some(k);
        *found = true;
    }
}

/// Reads a filter from a query (`query_filter`): tokens separated by white
/// space or commas, each a tempo range (`120-128`, optionally after `bpm=`
/// or `bpm:`) or a key in any notation (optionally after `key=` or `key:`).
/// `None` when no token was understood.
pub fn parse_filter_query(input: &str) -> (r: Option<TrackFilter>)
    requires
        query_ok(input@),
    ensures
        r matches Some(f) ==> query_filter(input@) == Some(f@),
        r is None ==> query_filter(input@) is None,
{
    let chars = chars_of(input);
    let toks = split_query(chars.as_slice());
    let ghost all = texts_of(toks@);
    let mut filter = TrackFilter { bpm_min: None, bpm_max: None, key: None };
    let mut found = false;
    let mut k: usize = 0;
    while k < toks.len()
        invariant
            k <= toks@.len(),
            all == texts_of(toks@),
            all == tokens(input@),
            query_ok(input@),
            (filter@, found) == all.take(k as int).fold_left(empty_query_state(), token_step()),
        decreases toks@.len() - k,
    {
        assert(all[k as int] == toks@[k as int]@);
        assert(token_ok(tokens(input@)[k as int]));
        apply_token(&mut filter, &mut found, toks[k].as_slice());
        assert(all.take(k + 1).drop_last() == all.take(k as int));
        k = k + 1;
    }
    assert(all.take(all.len() as int) == all);
    if found {
        Some(filter)
    } else {
        None
    }
}


/// Whether reading one token does not panic (`token_ok`).
fn token_readable(raw: &[char]) -> (r: bool)
    ensures
        r == token_ok(raw@),
{
    let t0 = trim_chars(raw);
    if t0.len() == 0 {
        return true;
    }
    let bpm_eq: [char; 4] = ['b', 'p', 'm', '='];
    let bpm_colon: [char; 4] = ['b', 'p', 'm', ':'];
    let key_eq: [char; 4] = ['k', 'e', 'y', '='];
    let key_colon: [char; 4] = ['k', 'e', 'y', ':'];
    assert(bpm_eq@ == seq!['b', 'p', 'm', '=']);
    assert(bpm_colon@ == seq!['b', 'p', 'm', ':']);
    assert(key_eq@ == seq!['k', 'e', 'y', '=']);
    assert(key_colon@ == seq!['k', 'e', 'y', ':']);
    let t1 = strip_either_chars(t0, bpm_eq.as_slice(), bpm_colon.as_slice());
    let t2 = strip_either_chars(t1, key_eq.as_slice(), key_colon.as_slice());
    parse_bpm_range(t2.as_slice()).is_some() || key_chars_readable(t2.as_slice())
}

/// Whether reading `input` as a query does not panic (`query_ok`).
pub fn query_readable(input: &str) -> (r: bool)
    ensures
        r == query_ok(input@),
{
    let chars = chars_of(input);
    let toks = split_query(chars.as_slice());
    let ghost all = texts_of(toks@);
    let mut k: usize = 0;
    while k < toks.len()
        invariant
            k <= toks@.len(),
            all == texts_of(toks@),
            all == tokens(input@),
            forall|i: int| 0 <= i < k ==> token_ok(#[trigger] all[i]),
        decreases toks@.len() - k,
    {
        assert(all[k as int] == toks@[k as int]@);
        if !token_readable(toks[k].as_slice()) {
            assert(!token_ok(tokens(input@)[k as int]));
            return false;
        }
        k = k + 1;
    }
    true
}


/// Rows that are not analysed yet, or whose analysis failed, pass every filter.
pub proof fn law_unfinished_rows_pass(f: FilterView, e: TrackEntry)
    requires
        e.status_rank != 2,
    ensures
        filter_matches(f, e),
{
}

/// A tempo range reads as (lower, upper) with the upper bound not below
/// the lower one, and a single range applied to an empty filter gives
/// exactly those bounds.
pub proof fn law_range_ordered(raw: Seq<char>)
    ensures
        bpm_range_spec(token_body(raw)) matches Some((lo, hi)) ==> !tempo_less(hi, lo) && (trim(
            raw,
        ).len() > 0 ==> token_effect(empty_query_state(), raw) == ((
            Some(lo),
            Some(hi),
            None::<Seq<char>>,
        ), true)),
{
}

/// The `key=` and `key:` prefixes are read alike and dropped, as are `bpm=`
/// and `bpm:`: a token written with one of them means what it means
/// without it.
pub proof fn law_prefixes_dropped(t: Seq<char>)
    requires
        t.len() == 0 || !is_space(t.last()),
    ensures
        token_body(seq!['k', 'e', 'y', '='] + t) == t,
        token_body(seq!['k', 'e', 'y', ':'] + t) == t,
        token_body(seq!['b', 'p', 'm', '='] + t) == strip_either(
            t,
            seq!['k', 'e', 'y', '='],
            seq!['k', 'e', 'y', ':'],
        ),
        token_body(seq!['b', 'p', 'm', ':'] + t) == strip_either(
            t,
            seq!['k', 'e', 'y', '='],
            seq!['k', 'e', 'y', ':'],
        ),
{
    lemma_prefixed(seq!['k', 'e', 'y', '='], t);
    lemma_prefixed(seq!['k', 'e', 'y', ':'], t);
    lemma_prefixed(seq!['b', 'p', 'm', '='], t);
    lemma_prefixed(seq!['b', 'p', 'm', ':'], t);
    let k1 = seq!['k', 'e', 'y', '='] + t;
    let k2 = seq!['k', 'e', 'y', ':'] + t;
    assert(k1.subrange(0, 4) != seq!['b', 'p', 'm', '=']) by { assert(k1.subrange(0, 4)[0] == 'k'); }
    assert(k1.subrange(0, 4) != seq!['b', 'p', 'm', ':']) by { assert(k1.subrange(0, 4)[0] == 'k'); }
    assert(k2.subrange(0, 4) != seq!['b', 'p', 'm', '=']) by { assert(k2.subrange(0, 4)[0] == 'k'); }
    assert(k2.subrange(0, 4) != seq!['b', 'p', 'm', ':']) by { assert(k2.subrange(0, 4)[0] == 'k'); }
    assert(k2.subrange(0, 4) != seq!['k', 'e', 'y', '=']) by { assert(k2.subrange(0, 4)[3] == ':'); }
    assert(k1.subrange(0, 4) =~= seq!['k', 'e', 'y', '=']);
    assert(k1.subrange(4, k1.len() as int) =~= t);
    assert(k2.subrange(0, 4) =~= seq!['k', 'e', 'y', ':']);
    assert(k2.subrange(4, k2.len() as int) =~= t);
    let b1 = seq!['b', 'p', 'm', '='] + t;
    let b2 = seq!['b', 'p', 'm', ':'] + t;
    assert(b1.subrange(0, 4) =~= seq!['b', 'p', 'm', '=']);
    assert(b1.subrange(4, b1.len() as int) =~= t);
    assert(b2.subrange(0, 4) =~= seq!['b', 'p', 'm', ':']);
    assert(b2.subrange(4, b2.len() as int) =~= t);
    assert(b2.subrange(0, 4) != seq!['b', 'p', 'm', '=']) by { assert(b2.subrange(0, 4)[3] == ':'); }
}

/// A token written with `key=`, `key:`, `bpm=` or `bpm:` before it does to
/// the filter what the bare token does, whatever was read before it.
pub proof fn law_prefixed_token_as_bare(st: QueryState, t: Seq<char>)
    requires
        t.len() > 0,
        !is_space(t[0]),
        !is_space(t.last()),
        strip_prefix(t, seq!['b', 'p', 'm', '=']) is None,
        strip_prefix(t, seq!['b', 'p', 'm', ':']) is None,
        strip_prefix(t, seq!['k', 'e', 'y', '=']) is None,
        strip_prefix(t, seq!['k', 'e', 'y', ':']) is None,
    ensures
        token_effect(st, seq!['k', 'e', 'y', '='] + t) == token_effect(st, t),
        token_effect(st, seq!['k', 'e', 'y', ':'] + t) == token_effect(st, t),
        token_effect(st, seq!['b', 'p', 'm', '='] + t) == token_effect(st, t),
        token_effect(st, seq!['b', 'p', 'm', ':'] + t) == token_effect(st, t),
{
    law_prefixes_dropped(t);
    assert(crate::text::trim_start(t) == t);
    assert(crate::text::trim_end(t) == t);
    assert(token_body(t) == t);
    lemma_prefixed(seq!['k', 'e', 'y', '='], t);
    lemma_prefixed(seq!['k', 'e', 'y', ':'], t);
    lemma_prefixed(seq!['b', 'p', 'm', '='], t);
    lemma_prefixed(seq!['b', 'p', 'm', ':'], t);
}

/// A four-letter prefix with no white space, before a text that does not
/// end in white space, is not trimmed away.
proof fn lemma_prefixed(p: Seq<char>, t: Seq<char>)
    requires
        p.len() == 4,
        !is_space(p[0]),
        !is_space(p[3]),
        t.len() == 0 || !is_space(t.last()),
    ensures
        trim(p + t) == p + t,
{
    let x = p + t;
    assert(x[0] == p[0]);
    assert(x.last() == (if t.len() == 0 { p[3] } else { t.last() }));
    assert(crate::text::trim_start(x) == x);
    assert(crate::text::trim_end(x) == x);
}

/// With finite bounds of `lo` and `hi` thousandths, a done row passes
/// exactly when it has a tempo from `lo` to `hi`, both included.
pub proof fn law_finite_range(lo: i64, hi: i64, e: TrackEntry)
    requires
        e.status_rank == 2,
    ensures
        filter_matches(
            (Some(milli_view(lo as int)), Some(milli_view(hi as int)), None::<Seq<char>>),
            e,
        ) <==> (e.bpm matches Some(b) && lo <= b && b <= hi),
{
}

/// With a key filter alone, a done row passes exactly when its key, in long
/// form, is the filter's key.
pub proof fn law_key_filter(k: Seq<char>, e: TrackEntry)
    requires
        e.status_rank == 2,
    ensures
        filter_matches((None, None, Some(k)), e) <==> (e.standard_key matches Some(s) && s@ == k),
{
}

} // verus!
