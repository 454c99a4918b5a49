//! Ordering the rows of the track table by a chosen column.
use vstd::prelude::*;

use crate::analysis::TrackDuration;
use crate::order::{
    chains, compare_chars, compare_i64, compare_u64, int_order, lemma_int_chains,
    lemma_text_chains, lemma_text_order_antisymmetric, lemma_then_chains, reversed, text_order,
    then, then_order, Order,
};
use crate::positions::{permute, sort_positions, strict_total_on};
use crate::text::chars_of;

verus! {

/// The column by which the table is ordered.
#[derive(Debug, Clone, Copy, PartialEq, Eq, Structural)]
pub enum SortColumn {
    Filename,
    Status,
    Bpm,
    Key,
    Length,
    Format,
}

/// Ascending or descending order.
#[derive(Debug, Clone, Copy, PartialEq, Eq, Structural)]
pub enum SortDirection {
    Asc,
    Desc,
}

/// The column the table is ordered by, and in which direction.
#[derive(Debug, Clone, Copy, PartialEq, Eq, Structural)]
pub struct SortState {
    pub column: SortColumn,
    pub direction: SortDirection,
}

/// The other direction.
pub open spec fn flipped(d: SortDirection) -> SortDirection {
    match d {
        SortDirection::Asc => SortDirection::Desc,
        SortDirection::Desc => SortDirection::Asc,
    }
}

/// The state after asking to sort by `column`: the same column flips its
/// direction, another column starts ascending.
pub open spec fn toggled(s: SortState, column: SortColumn) -> SortState {
    if s.column == column {
        SortState { column, direction: flipped(s.direction) }
    } else {
        SortState { column, direction: SortDirection::Asc }
    }
}

impl SortState {
    /// Sorting by `column`, ascending.
    pub fn new(column: SortColumn) -> (s: Self)
        ensures
            s == (SortState { column, direction: SortDirection::Asc }),
    {
        SortState { column, direction: SortDirection::Asc }
    }

    /// Asks to sort by `column` (see `toggled`).
    pub fn toggle(&mut self, column: SortColumn)
        ensures
            *final(self) == toggled(*old(self), column),
    {
        if self.column == column {
            self.direction = match self.direction {
                SortDirection::Asc => SortDirection::Desc,
                SortDirection::Desc => SortDirection::Asc,
            };
        } else {
            self.column = column;
            self.direction = SortDirection::Asc;
        }
    }
}

/// Asking twice for the same column returns to the state after the first
/// request; asking for a new column always starts ascending.
pub proof fn law_toggle_twice(s: SortState, column: SortColumn)
    ensures
        toggled(toggled(toggled(s, column), column), column) == toggled(s, column),
        toggled(s, column).column == column,
        s.column != column ==> toggled(s, column).direction == SortDirection::Asc,
{
}

/// One row of the track table, as it is shown and sorted: the file name,
/// its status (label, and rank: 0 pending, 1 analysing, 2 done, 3 failed),
/// its tempo in thousandths of a beat per minute, its key as shown and in
/// long form, its length and its format.
#[derive(Debug, Clone)]
pub struct TrackEntry {
    pub filename: String,
    pub status_label: String,
    pub status_rank: u8,
    pub bpm: Option<i64>,
    pub key: Option<String>,
    pub standard_key: Option<String>,
    pub length: Option<TrackDuration>,
    pub format: String,
}

/// `str::to_lowercase`: the Unicode lower-case mapping of a text.
pub uninterp spec fn unicode_lowercase(s: Seq<char>) -> Seq<char>;

/// Calls `str::to_lowercase`, whose result is named `unicode_lowercase`
/// (the Unicode case tables are not restated here).
#[verifier::external_body]
pub(crate) fn to_lowercase(s: &str) -> (r: String)
    ensures
        r@ == unicode_lowercase(s@),
{
    s.to_lowercase()
}

/// The text of an optional string.
pub open spec fn opt_text(o: Option<String>) -> Option<Seq<char>> {
    match o {
        Some(s) => Some(s@),
        None => None,
    }
}

/// Case-insensitive order of two texts, in a direction.
pub open spec fn text_order_in(a: Seq<char>, b: Seq<char>, d: SortDirection) -> Order {
    match d {
        SortDirection::Asc => text_order(unicode_lowercase(a), unicode_lowercase(b)),
        SortDirection::Desc => text_order(unicode_lowercase(b), unicode_lowercase(a)),
    }
}

/// Order of two integers, in a direction.
pub open spec fn int_order_in(a: int, b: int, d: SortDirection) -> Order {
    match d {
        SortDirection::Asc => int_order(a, b),
        SortDirection::Desc => int_order(b, a),
    }
}

/// Order of two lengths.
pub open spec fn duration_order(a: TrackDuration, b: TrackDuration) -> Order {
    then_order(int_order(a.secs as int, b.secs as int), int_order(a.nanos as int, b.nanos as int))
}

/// Order of two optional tempos: present values in the direction, and
/// missing values after present ones in either direction.
pub open spec fn option_bpm_order(a: Option<i64>, b: Option<i64>, d: SortDirection) -> Order {
    match (a, b) {
        (Some(x), Some(y)) => int_order_in(x as int, y as int, d),
        (Some(_), None) => Order::Less,
        (None, Some(_)) => Order::Greater,
        (None, None) => Order::Equal,
    }
}

/// Order of two optional texts, case-insensitive; missing values last.
pub open spec fn option_text_order(a: Option<Seq<char>>, b: Option<Seq<char>>, d: SortDirection) -> Order {
    match (a, b) {
        (Some(x), Some(y)) => text_order_in(x, y, d),
        (Some(_), None) => Order::Less,
        (None, Some(_)) => Order::Greater,
        (None, None) => Order::Equal,
    }
}

/// Order of two optional lengths; missing values last.
pub open spec fn option_duration_order(
    a: Option<TrackDuration>,
    b: Option<TrackDuration>,
    d: SortDirection,
) -> Order {
    match (a, b) {
        (Some(x), Some(y)) => match d {
            SortDirection::Asc => duration_order(x, y),
            SortDirection::Desc => duration_order(y, x),
        },
        (Some(_), None) => Order::Less,
        (None, Some(_)) => Order::Greater,
        (None, None) => Order::Equal,
    }
}

/// Order of two statuses: by rank, then by label (case-sensitive).
pub open spec fn status_order(a: TrackEntry, b: TrackEntry) -> Order {
    then_order(
        int_order(a.status_rank as int, b.status_rank as int),
        text_order(a.status_label@, b.status_label@),
    )
}

/// How two rows compare in the chosen column and direction.
pub open spec fn column_order(a: TrackEntry, b: TrackEntry, c: SortColumn, d: SortDirection) -> Order {
    match c {
        SortColumn::Filename => text_order_in(a.filename@, b.filename@, d),
        SortColumn::Status => match d {
            SortDirection::Asc => status_order(a, b),
            SortDirection::Desc => status_order(b, a),
        },
        SortColumn::Bpm => option_bpm_order(a.bpm, b.bpm, d),
        SortColumn::Key => option_text_order(opt_text(a.key), opt_text(b.key), d),
        SortColumn::Length => option_duration_order(a.length, b.length, d),
        SortColumn::Format => text_order_in(a.format@, b.format@, d),
    }
}

/// The order of the table: the chosen column, then the file name
/// (case-sensitive, always ascending).
pub open spec fn entry_order(a: TrackEntry, b: TrackEntry, s: SortState) -> Order {
    then_order(column_order(a, b, s.column, s.direction), text_order(a.filename@, b.filename@))
}

/// `cmp_text`: case-insensitive comparison of two texts in a direction.
fn cmp_text(a: &str, b: &str, direction: SortDirection) -> (r: Order)
    ensures
        r == text_order_in(a@, b@, direction),
{
    let la = to_lowercase(a);
    let lb = to_lowercase(b);
    let ca = chars_of(la.as_str());
    let cb = chars_of(lb.as_str());
    match direction {
        SortDirection::Asc => compare_chars(ca.as_slice(), cb.as_slice()),
        SortDirection::Desc => compare_chars(cb.as_slice(), ca.as_slice()),
    }
}

/// Compares two texts case-sensitively.
fn compare_strings(a: &String, b: &String) -> (r: Order)
    ensures
        r == text_order(a@, b@),
{
    let ca = chars_of(a.as_str());
    let cb = chars_of(b.as_str());
    compare_chars(ca.as_slice(), cb.as_slice())
}

fn compare_option_bpm(a: Option<i64>, b: Option<i64>, direction: SortDirection) -> (r: Order)
    ensures
        r == option_bpm_order(a, b, direction),
{
    match (a, b) {
        (Some(x), Some(y)) => match direction {
            SortDirection::Asc => compare_i64(x, y),
            SortDirection::Desc => compare_i64(y, x),
        },
        (Some(_), None) => Order::Less,
        (None, Some(_)) => Order::Greater,
        (None, None) => Order::Equal,
    }
}

fn compare_option_string(a: &Option<String>, b: &Option<String>, direction: SortDirection) -> (r:
    Order)
    ensures
        r == option_text_order(opt_text(*a), opt_text(*b), direction),
{
    match (a, b) {
        (Some(x), Some(y)) => cmp_text(x.as_str(), y.as_str(), direction),
        (Some(_), None) => Order::Less,
        (None, Some(_)) => Order::Greater,
        (None, None) => Order::Equal,
    }
}

fn compare_duration(a: TrackDuration, b: TrackDuration) -> (r: Order)
    ensures
        r == duration_order(a, b),
{
    then(compare_u64(a.secs, b.secs), compare_u64(a.nanos as u64, b.nanos as u64))
}

fn compare_option_duration(
    a: Option<TrackDuration>,
    b: Option<TrackDuration>,
    direction: SortDirection,
) -> (r: Order)
    ensures
        r == option_duration_order(a, b, direction),
{
    match (a, b) {
        (Some(x), Some(y)) => match direction {
            SortDirection::Asc => compare_duration(x, y),
            SortDirection::Desc => compare_duration(y, x),
        },
        (Some(_), None) => Order::Less,
        (None, Some(_)) => Order::Greater,
        (None, None) => Order::Equal,
    }
}

fn compare_status(a: &TrackEntry, b: &TrackEntry) -> (r: Order)
    ensures
        r == status_order(*a, *b),
{
    then(
        compare_u64(a.status_rank as u64, b.status_rank as u64),
        compare_strings(&a.status_label, &b.status_label),
    )
}

/// How two rows compare in the chosen column and direction.
fn compare_entries(a: &TrackEntry, b: &TrackEntry, column: SortColumn, direction: SortDirection) -> (r:
    Order)
    ensures
        r == column_order(*a, *b, column, direction),
{
    match column {
        SortColumn::Filename => cmp_text(a.filename.as_str(), b.filename.as_str(), direction),
        SortColumn::Status => match direction {
            SortDirection::Asc => compare_status(a, b),
            SortDirection::Desc => compare_status(b, a),
        },
        SortColumn::Bpm => compare_option_bpm(a.bpm, b.bpm, direction),
        SortColumn::Key => compare_option_string(&a.key, &b.key, direction),
        SortColumn::Length => compare_option_duration(a.length, b.length, direction),
        SortColumn::Format => cmp_text(a.format.as_str(), b.format.as_str(), direction),
    }
}

/// The order of the table (`entry_order`) on two rows.
fn compare_rows(a: &TrackEntry, b: &TrackEntry, state: SortState) -> (r: Order)
    ensures
        r == entry_order(*a, *b, state),
{
    let primary = compare_entries(a, b, state.column, state.direction);
    match primary {
        Order::Equal => compare_strings(&a.filename, &b.filename),
        _ => primary,
    }
}


proof fn lemma_text_in_chains(a: Seq<char>, b: Seq<char>, c: Seq<char>, d: SortDirection)
    ensures
        chains(text_order_in(a, b, d), text_order_in(b, c, d), text_order_in(a, c, d)),
        text_order_in(a, b, d) == reversed(text_order_in(b, a, d)),
{
    let (la, lb, lc) = (unicode_lowercase(a), unicode_lowercase(b), unicode_lowercase(c));
    lemma_text_chains(la, lb, lc);
    lemma_text_chains(lc, lb, la);
}

proof fn lemma_duration_chains(a: TrackDuration, b: TrackDuration, c: TrackDuration)
    ensures
        chains(duration_order(a, b), duration_order(b, c), duration_order(a, c)),
        duration_order(a, b) == reversed(duration_order(b, a)),
{
    lemma_int_chains(a.secs as int, b.secs as int, c.secs as int);
    lemma_int_chains(a.nanos as int, b.nanos as int, c.nanos as int);
    lemma_then_chains(
        int_order(a.secs as int, b.secs as int),
        int_order(b.secs as int, c.secs as int),
        int_order(a.secs as int, c.secs as int),
        int_order(a.nanos as int, b.nanos as int),
        int_order(b.nanos as int, c.nanos as int),
        int_order(a.nanos as int, c.nanos as int),
    );
}

proof fn lemma_status_chains(a: TrackEntry, b: TrackEntry, c: TrackEntry)
    ensures
        chains(status_order(a, b), status_order(b, c), status_order(a, c)),
        status_order(a, b) == reversed(status_order(b, a)),
{
    lemma_int_chains(a.status_rank as int, b.status_rank as int, c.status_rank as int);
    lemma_text_chains(a.status_label@, b.status_label@, c.status_label@);
    lemma_then_chains(
        int_order(a.status_rank as int, b.status_rank as int),
        int_order(b.status_rank as int, c.status_rank as int),
        int_order(a.status_rank as int, c.status_rank as int),
        text_order(a.status_label@, b.status_label@),
        text_order(b.status_label@, c.status_label@),
        text_order(a.status_label@, c.status_label@),
    );
}

proof fn lemma_column_chains(a: TrackEntry, b: TrackEntry, c: TrackEntry, col: SortColumn, d: SortDirection)
    ensures
        chains(column_order(a, b, col, d), column_order(b, c, col, d), column_order(a, c, col, d)),
        column_order(a, b, col, d) == reversed(column_order(b, a, col, d)),
{
    match col {
        SortColumn::Filename => lemma_text_in_chains(a.filename@, b.filename@, c.filename@, d),
        SortColumn::Format => lemma_text_in_chains(a.format@, b.format@, c.format@, d),
        SortColumn::Status => {
            lemma_status_chains(a, b, c);
            lemma_status_chains(c, b, a);
        },
        SortColumn::Bpm => {
            if a.bpm is Some && b.bpm is Some && c.bpm is Some {
                let (x, y, z) = (a.bpm->0 as int, b.bpm->0 as int, c.bpm->0 as int);
                lemma_int_chains(x, y, z);
                lemma_int_chains(z, y, x);
            }
            if a.bpm is Some && b.bpm is Some {
                lemma_int_chains(a.bpm->0 as int, b.bpm->0 as int, b.bpm->0 as int);
            }
        },
        SortColumn::Key => {
            let (x, y, z) = (opt_text(a.key), opt_text(b.key), opt_text(c.key));
            if x is Some && y is Some && z is Some {
                lemma_text_in_chains(x->0, y->0, z->0, d);
            }
            if x is Some && y is Some {
                lemma_text_in_chains(x->0, y->0, y->0, d);
            }
        },
        SortColumn::Length => {
            if a.length is Some && b.length is Some && c.length is Some {
                let (x, y, z) = (a.length->0, b.length->0, c.length->0);
                lemma_duration_chains(x, y, z);
                lemma_duration_chains(z, y, x);
            }
            if a.length is Some && b.length is Some {
                lemma_duration_chains(a.length->0, b.length->0, b.length->0);
            }
        },
    }
}

/// The order of the table is a total preorder (it chains), and comparing
/// the other way round gives the reversed result.
pub proof fn lemma_entry_chains(a: TrackEntry, b: TrackEntry, c: TrackEntry, s: SortState)
    ensures
        chains(entry_order(a, b, s), entry_order(b, c, s), entry_order(a, c, s)),
        entry_order(a, b, s) == reversed(entry_order(b, a, s)),
{
    lemma_column_chains(a, b, c, s.column, s.direction);
    lemma_text_chains(a.filename@, b.filename@, c.filename@);
    lemma_then_chains(
        column_order(a, b, s.column, s.direction),
        column_order(b, c, s.column, s.direction),
        column_order(a, c, s.column, s.direction),
        text_order(a.filename@, b.filename@),
        text_order(b.filename@, c.filename@),
        text_order(a.filename@, c.filename@),
    );
}


/// Row `i` of `es` comes before row `j` in the sorted table: it is ordered
/// before it, or the two tie and row `i` came first (the sort is stable).
pub open spec fn goes_before(es: Seq<TrackEntry>, s: SortState, i: int, j: int) -> bool {
    entry_order(es[i], es[j], s) == Order::Less || (entry_order(es[i], es[j], s) == Order::Equal
        && i < j)
}

/// `p` lists the positions of `es` in sorted order: each position once,
/// every earlier one going before every later one.
pub open spec fn is_sorted_order(es: Seq<TrackEntry>, s: SortState, p: Seq<usize>) -> bool {
    &&& p.len() == es.len()
    &&& forall|k: int| 0 <= k < p.len() ==> #[trigger] p[k] < es.len()
    &&& forall|k: int, l: int|
        0 <= k < l < p.len() ==> goes_before(es, s, #[trigger] p[k] as int, #[trigger] p[l] as int)
}

/// `goes_before` is a strict total order on the positions of `es`.
pub proof fn lemma_goes_before(es: Seq<TrackEntry>, s: SortState, i: int, j: int, k: int)
    requires
        0 <= i < es.len(),
        0 <= j < es.len(),
        0 <= k < es.len(),
    ensures
        !goes_before(es, s, i, i),
        i != j ==> goes_before(es, s, i, j) || goes_before(es, s, j, i),
        goes_before(es, s, i, j) ==> !goes_before(es, s, j, i),
        goes_before(es, s, i, j) && goes_before(es, s, j, k) ==> goes_before(es, s, i, k),
{
    lemma_entry_chains(es[i], es[j], es[k], s);
    lemma_entry_chains(es[i], es[i], es[i], s);
}

/// Sorts the rows by `state` (`entry_order`), keeping rows that tie in
/// their initial order. The result is `old` rearranged by the one
/// permutation that lists positions in sorted order.
pub fn sort_entries(entries: &mut Vec<TrackEntry>, state: SortState)
    ensures
        exists|p: Seq<usize>|
            is_sorted_order(old(entries)@, state, p) && final(entries)@ == rows_at(old(entries)@, p),
{
    let ghost initial = entries@;
    let n = entries.len();
    let ghost rel = |i: int, j: int| goes_before(initial, state, i, j);
    proof {
        assert forall|i: int| 0 <= i < n implies !#[trigger] rel(i, i) by {
            lemma_goes_before(initial, state, i, i, i);
        }
        assert forall|i: int, j: int|
            0 <= i < n && 0 <= j < n && i != j implies #[trigger] rel(i, j) || #[trigger] rel(
            j,
            i,
        ) by {
            lemma_goes_before(initial, state, i, j, j);
        }
        assert forall|i: int, j: int, k: int|
            0 <= i < n && 0 <= j < n && 0 <= k < n && #[trigger] rel(i, j) && #[trigger] rel(
                j,
                k,
            ) implies rel(i, k) by {
            lemma_goes_before(initial, state, i, j, k);
        }
        assert(strict_total_on(rel, n as int));
    }
    let rows: &Vec<TrackEntry> = entries;
    let before = |i: usize, j: usize| -> (r: bool)
        requires
            i < rows@.len(),
            j < rows@.len(),
        ensures
            r == goes_before(rows@, state, i as int, j as int),
        {
            match compare_rows(&rows[i], &rows[j], state) {
                Order::Less => true,
                Order::Equal => i < j,
                Order::Greater => false,
            }
        };
    let order = sort_positions(&before, n, Ghost(rel));
    let ghost perm = order@;
    let mut taken: Vec<TrackEntry> = Vec::new();
    std::mem::swap(&mut taken, entries);
    *entries = permute(taken, &order);
    assert(is_sorted_order(initial, state, perm));
    assert(entries@ == rows_at(initial, perm));
}



/// The rows of `es` at the positions `p`, in that order.
pub open spec fn rows_at(es: Seq<TrackEntry>, p: Seq<usize>) -> Seq<TrackEntry> {
    p.map_values(|x: usize| es[x as int])
}

/// Sorting neither drops nor repeats a row: every row of the table is at
/// exactly one position of the sorted table.
pub proof fn law_sort_keeps_rows(es: Seq<TrackEntry>, s: SortState, p: Seq<usize>, i: int)
    requires
        is_sorted_order(es, s, p),
        0 <= i < es.len(),
    ensures
        exists|k: int|
            0 <= k < p.len() && #[trigger] p[k] == i && rows_at(es, p)[k] == es[i],
        forall|k: int, l: int| 0 <= k < l < p.len() ==> p[k] != p[l],
{
    lemma_sorted_order_distinct(es, s, p);
    crate::positions::lemma_positions_cover(p, es.len() as int, i);
    let k = choose|k: int| 0 <= k < es.len() && p[k] == i;
    assert(rows_at(es, p)[k] == es[i]);
}


/// The positions listed in a sorted order are distinct.
proof fn lemma_sorted_order_distinct(es: Seq<TrackEntry>, s: SortState, p: Seq<usize>)
    requires
        is_sorted_order(es, s, p),
    ensures
        forall|k: int, l: int| 0 <= k < l < p.len() ==> p[k] != p[l],
{
    assert forall|k: int, l: int| 0 <= k < l < p.len() implies p[k] != p[l] by {
        assert(goes_before(es, s, p[k] as int, p[l] as int));
        lemma_goes_before(es, s, p[k] as int, p[k] as int, p[k] as int);
    }
}

/// Two sorted orders of the same rows agree on their first `k` positions.
proof fn lemma_sorted_orders_agree(es: Seq<TrackEntry>, s: SortState, p: Seq<usize>, q: Seq<usize>, k: int)
    requires
        is_sorted_order(es, s, p),
        is_sorted_order(es, s, q),
        0 <= k <= p.len(),
    ensures
        forall|j: int| 0 <= j < k ==> p[j] == q[j],
    decreases k,
{
    if k > 0 {
        let m = k - 1;
        lemma_sorted_orders_agree(es, s, p, q, m);
        if p[m] != q[m] {
            let n = es.len() as int;
            lemma_sorted_order_distinct(es, s, p);
            lemma_sorted_order_distinct(es, s, q);
            crate::positions::lemma_positions_cover(q, n, p[m] as int);
            let j = choose|j: int| 0 <= j < n && q[j] == p[m];
            crate::positions::lemma_positions_cover(p, n, q[m] as int);
            let i = choose|i: int| 0 <= i < n && p[i] == q[m];
            if j < m {
                assert(p[j] == q[j]);
            } else if i < m {
                assert(p[i] == q[i]);
            } else {
                assert(goes_before(es, s, q[m] as int, q[j] as int));
                assert(goes_before(es, s, p[m] as int, p[i] as int));
                lemma_goes_before(es, s, p[m] as int, q[m] as int, p[m] as int);
            }
        }
    }
}

/// Sorting a sorted table again by the same order changes nothing.
pub proof fn law_sort_idempotent(es: Seq<TrackEntry>, s: SortState, p: Seq<usize>, q: Seq<usize>)
    requires
        es.len() <= usize::MAX,
        is_sorted_order(es, s, p),
        is_sorted_order(rows_at(es, p), s, q),
    ensures
        rows_at(rows_at(es, p), q) == rows_at(es, p),
{
    let t = rows_at(es, p);
    let id = Seq::new(t.len(), |k: int| k as usize);
    assert(is_sorted_order(t, s, id)) by {
        assert forall|k: int, l: int| 0 <= k < l < id.len() implies goes_before(
            t,
            s,
            #[trigger] id[k] as int,
            #[trigger] id[l] as int,
        ) by {
            assert(id[k] as int == k && id[l] as int == l);
            assert(goes_before(es, s, p[k] as int, p[l] as int));
            assert(t[k] == es[p[k] as int]);
            assert(t[l] == es[p[l] as int]);
        }
    }
    lemma_sorted_orders_agree(t, s, q, id, t.len() as int);
    assert forall|k: int| 0 <= k < t.len() implies rows_at(t, q)[k] == t[k] by {
        assert(q[k] == id[k]);
    }
    assert(rows_at(t, q) =~= t);
}

/// Whether a row has a value in a column (every row has a file name,
/// status and format; tempo, key and length may be missing).
pub open spec fn has_value(e: TrackEntry, c: SortColumn) -> bool {
    match c {
        SortColumn::Bpm => e.bpm is Some,
        SortColumn::Key => e.key is Some,
        SortColumn::Length => e.length is Some,
        _ => true,
    }
}

/// In the sorted table, rows never go out of order, and rows missing a value
/// in the sort column come after all rows that have one, in either direction.
pub proof fn law_sorted_rows(es: Seq<TrackEntry>, s: SortState, p: Seq<usize>, k: int, l: int)
    requires
        is_sorted_order(es, s, p),
        0 <= k < l < p.len(),
    ensures
        entry_order(es[p[k] as int], es[p[l] as int], s) != Order::Greater,
        has_value(es[p[l] as int], s.column) ==> has_value(es[p[k] as int], s.column),
{
    assert(goes_before(es, s, p[k] as int, p[l] as int));
}


/// Between two rows that both have a value in the sort column, or both
/// lack one, descending order is ascending order reversed.
pub proof fn law_descending_reverses(a: TrackEntry, b: TrackEntry, c: SortColumn)
    requires
        has_value(a, c) == has_value(b, c),
    ensures
        column_order(a, b, c, SortDirection::Desc) == column_order(b, a, c, SortDirection::Asc),
{
}

/// A row with a value in the sort column comes before a row without one,
/// in either direction.
pub proof fn law_missing_values_last(a: TrackEntry, b: TrackEntry, c: SortColumn, d: SortDirection)
    requires
        has_value(a, c),
        !has_value(b, c),
    ensures
        column_order(a, b, c, d) == Order::Less,
        column_order(b, a, c, d) == Order::Greater,
{
}

/// Ascending order puts the smaller value first and descending order the
/// larger: the slower tempo, the shorter length, the lower status rank, and
/// the text that comes first once both are lowered (file name, key, format).
pub proof fn law_ascending_smaller_first(a: TrackEntry, b: TrackEntry)
    ensures
        (a.bpm matches Some(x) && b.bpm matches Some(y) && x < y) ==> column_order(
            a,
            b,
            SortColumn::Bpm,
            SortDirection::Asc,
        ) == Order::Less && column_order(a, b, SortColumn::Bpm, SortDirection::Desc)
            == Order::Greater,
        (a.length matches Some(x) && b.length matches Some(y) && (x.secs < y.secs || (x.secs
            == y.secs && x.nanos < y.nanos))) ==> column_order(
            a,
            b,
            SortColumn::Length,
            SortDirection::Asc,
        ) == Order::Less && column_order(a, b, SortColumn::Length, SortDirection::Desc)
            == Order::Greater,
        a.status_rank < b.status_rank ==> column_order(a, b, SortColumn::Status, SortDirection::Asc)
            == Order::Less && column_order(a, b, SortColumn::Status, SortDirection::Desc)
            == Order::Greater,
        text_order(unicode_lowercase(a.filename@), unicode_lowercase(b.filename@)) == Order::Less
            ==> column_order(a, b, SortColumn::Filename, SortDirection::Asc) == Order::Less
            && column_order(a, b, SortColumn::Filename, SortDirection::Desc) == Order::Greater,
        text_order(unicode_lowercase(a.format@), unicode_lowercase(b.format@)) == Order::Less
            ==> column_order(a, b, SortColumn::Format, SortDirection::Asc) == Order::Less
            && column_order(a, b, SortColumn::Format, SortDirection::Desc) == Order::Greater,
        (a.key matches Some(x) && b.key matches Some(y) && text_order(
            unicode_lowercase(x@),
            unicode_lowercase(y@),
        ) == Order::Less) ==> column_order(a, b, SortColumn::Key, SortDirection::Asc)
            == Order::Less && column_order(a, b, SortColumn::Key, SortDirection::Desc)
            == Order::Greater,
{
    lemma_text_order_antisymmetric(unicode_lowercase(a.filename@), unicode_lowercase(b.filename@));
    lemma_text_order_antisymmetric(unicode_lowercase(a.format@), unicode_lowercase(b.format@));
    if a.key is Some && b.key is Some {
        lemma_text_order_antisymmetric(
            unicode_lowercase(a.key.unwrap()@),
            unicode_lowercase(b.key.unwrap()@),
        );
    }
}

/// Rows that tie in the sort column are ordered by file name, ascending and
/// case-sensitive, whatever the direction; rows that differ in the sort
/// column are ordered by it alone.
pub proof fn law_ties_by_filename(a: TrackEntry, b: TrackEntry, s: SortState)
    ensures
        column_order(a, b, s.column, s.direction) == Order::Equal ==> entry_order(a, b, s)
            == text_order(a.filename@, b.filename@),
        column_order(a, b, s.column, s.direction) != Order::Equal ==> entry_order(a, b, s)
            == column_order(a, b, s.column, s.direction),
{
}

} // verus!
