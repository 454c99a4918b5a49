//! The state of the track browser: the rows and their analysis, the
//! selection, the sort order, the key notation and the filter, and how
//! worker messages and key presses change it.
use vstd::prelude::*;

use crate::analysis::{bpm_text, duration_text, format_bpm, format_duration, TrackAnalysis};
use crate::filter::{
    filter_matches, parse_filter_query, query_ok, query_readable, FilterView, TrackFilter,
};
use crate::key_format::{format_key, format_key_spec, key_text_ok, KeyFormat};
use crate::sort::{
    is_sorted_order, opt_text, rows_at, sort_entries, SortColumn, SortDirection, SortState, TrackEntry,
};
use crate::text::{chars_of, push_char, push_chars, push_decimal, trim, trim_chars, decimal_text};

verus! {

/// Where a row is in its analysis.
#[derive(Debug, Clone)]
pub enum RowStatus {
    Pending,
    Analyzing,
    Done,
    Error(String),
}

/// How a status is shown.
pub open spec fn status_label_text(s: RowStatus) -> Seq<char> {
    match s {
        RowStatus::Pending => seq!['p', 'e', 'n', 'd', 'i', 'n', 'g'],
        RowStatus::Analyzing => seq!['a', 'n', 'a', 'l', 'y', 'z', 'i', 'n', 'g'],
        RowStatus::Done => seq!['d', 'o', 'n', 'e'],
        RowStatus::Error(m) => seq!['e', 'r', 'r', 'o', 'r', ':', ' '] + m@,
    }
}

/// The rank of a status when sorting by status.
pub open spec fn status_rank_of(s: RowStatus) -> u8 {
    match s {
        RowStatus::Pending => 0,
        RowStatus::Analyzing => 1,
        RowStatus::Done => 2,
        RowStatus::Error(_) => 3,
    }
}

impl RowStatus {
    /// How this status is shown (`status_label_text`).
    pub fn label(&self) -> (r: String)
        ensures
            r@ == status_label_text(*self),
    {
        let mut s = String::new();
        match self {
            RowStatus::Pending => push_chars(&mut s, &['p', 'e', 'n', 'd', 'i', 'n', 'g']),
            RowStatus::Analyzing => push_chars(
                &mut s,
                &['a', 'n', 'a', 'l', 'y', 'z', 'i', 'n', 'g'],
            ),
            RowStatus::Done => push_chars(&mut s, &['d', 'o', 'n', 'e']),
            RowStatus::Error(message) => {
                push_chars(&mut s, &['e', 'r', 'r', 'o', 'r', ':', ' ']);
                let m = chars_of(message.as_str());
                push_chars(&mut s, m.as_slice());
            },
        }
        s
    }

    /// The rank of this status (`status_rank_of`).
    pub fn rank(&self) -> (r: u8)
        ensures
            r == status_rank_of(*self),
    {
        match self {
            RowStatus::Pending => 0,
            RowStatus::Analyzing => 1,
            RowStatus::Done => 2,
            RowStatus::Error(_) => 3,
        }
    }
}

/// A track's path as the table shows it, and its extension (when the file
/// name has one that is valid text).
#[derive(Debug, Clone)]
pub struct TrackPath {
    pub display: String,
    pub extension: Option<String>,
}

/// One row of the browser: a track, its status and, once done, its analysis.
#[derive(Debug, Clone)]
pub struct TrackRow {
    pub path: TrackPath,
    pub status: RowStatus,
    pub analysis: Option<TrackAnalysis>,
}

/// `str::to_uppercase`: the Unicode upper-case mapping of a text.
pub uninterp spec fn unicode_uppercase(s: Seq<char>) -> Seq<char>;

/// Calls `str::to_uppercase`, whose result is named `unicode_uppercase`
/// (the Unicode case tables are not restated here).
#[verifier::external_body]
fn to_uppercase(s: &str) -> (r: String)
    ensures
        r@ == unicode_uppercase(s@),
{
    s.to_uppercase()
}

/// The format column of a row: the extension in upper case, or `UNKNOWN`.
pub open spec fn format_label_text(ext: Option<String>) -> Seq<char> {
    match ext {
        Some(e) => unicode_uppercase(e@),
        None => seq!['U', 'N', 'K', 'N', 'O', 'W', 'N'],
    }
}

/// The key column of an analysed row: the key in the chosen notation, or,
/// when the analyser's key name is not understood, both of the analyser's
/// names (`name (numerical)`).
pub open spec fn key_column_text(a: TrackAnalysis, f: KeyFormat) -> Seq<char> {
    match format_key_spec(a.key_name@, f) {
        Some(t) => t,
        None => a.key_name@ + seq![' ', '('] + a.key_numerical@ + seq![')'],
    }
}

/// The analyses whose key name can be read without panicking.
pub open spec fn analysis_ok(a: Option<TrackAnalysis>) -> bool {
    a matches Some(x) ==> key_text_ok(x.key_name@)
}

/// `e` is the table entry of `row` in key notation `f`.
pub open spec fn entry_of(row: TrackRow, f: KeyFormat, e: TrackEntry) -> bool {
    &&& e.filename@ == row.path.display@
    &&& e.status_label@ == status_label_text(row.status)
    &&& e.status_rank == status_rank_of(row.status)
    &&& e.format@ == format_label_text(row.path.extension)
    &&& match row.analysis {
        Some(a) => {
            &&& e.bpm == Some(a.bpm)
            &&& opt_text(e.key) == Some(key_column_text(a, f))
            &&& opt_text(e.standard_key) == Some(a.key_name@)
            &&& e.length == Some(a.duration)
        },
        None => {
            &&& e.bpm is None
            &&& e.key is None
            &&& e.standard_key is None
            &&& e.length is None
        },
    }
}

impl TrackRow {
    /// A row for a track not analysed yet.
    pub fn new(path: TrackPath) -> (r: Self)
        ensures
            r.path == path,
            r.status == RowStatus::Pending,
            r.analysis is None,
    {
        TrackRow { path, status: RowStatus::Pending, analysis: None }
    }

    /// The format column (`format_label_text`).
    fn format_label(&self) -> (r: String)
        ensures
            r@ == format_label_text(self.path.extension),
    {
        match &self.path.extension {
            Some(ext) => to_uppercase(ext.as_str()),
            None => {
                let mut s = String::new();
                push_chars(&mut s, &['U', 'N', 'K', 'N', 'O', 'W', 'N']);
                s
            },
        }
    }

    /// The table entry of this row in key notation `key_format` (`entry_of`).
    pub fn to_entry(&self, key_format: KeyFormat) -> (e: TrackEntry)
        requires
            analysis_ok(self.analysis),
        ensures
            entry_of(*self, key_format, e),
    {
        let (bpm, key, standard_key, length) = match &self.analysis {
            Some(analysis) => {
                let formatted = format_key(analysis.key_name.as_str(), key_format);
                let key = match formatted {
                    Some(k) => {
                        assert(format_key_spec(analysis.key_name@, key_format) == Some(k@));
                        k
                    },
                    None => {
                        let mut s = analysis.key_name.clone();
                        push_chars(&mut s, &[' ', '(']);
                        let n = chars_of(analysis.key_numerical.as_str());
                        push_chars(&mut s, n.as_slice());
                        push_char(&mut s, ')');
                        assert(s@ == key_column_text(*analysis, key_format));
                        s
                    },
                };
                assert(key@ == key_column_text(*analysis, key_format));
                (Some(analysis.bpm), Some(key), Some(analysis.key_name.clone()), Some(analysis.duration))
            },
            None => (None, None, None, None),
        };
        TrackEntry {
            filename: self.path.display.clone(),
            status_label: self.status.label(),
            status_rank: self.status.rank(),
            bpm,
            key,
            standard_key,
            length,
            format: self.format_label(),
        }
    }
}

/// What the analysis workers report: a track's analysis started, or it
/// finished (with its analysis, or with an error message).
pub enum WorkerMessage {
    Started(usize),
    Finished { index: usize, result: Result<TrackAnalysis, String> },
}


/// A key press, as the browser reads it.
#[derive(Debug, Clone, Copy, PartialEq, Eq, Structural)]
pub enum KeyInput {
    Char(char),
    Esc,
    Enter,
    Backspace,
    Up,
    Down,
    Home,
    End,
    PageUp,
    PageDown,
    Other,
}

/// The browser: its rows, the selected position among the visible rows,
/// whether it should quit, how many analyses finished out of how many
/// tracks, the sort order, the key notation, the filter being typed (if
/// `filter_mode`), the filter in force, and how many rows the last drawing
/// showed.
pub struct App {
    pub rows: Vec<TrackRow>,
    pub selected: Option<usize>,
    pub should_quit: bool,
    pub completed: usize,
    pub total: usize,
    pub sort_state: SortState,
    pub key_format: KeyFormat,
    pub filter_mode: bool,
    pub filter_input: String,
    pub active_filter: Option<TrackFilter>,
    pub visible_count: usize,
}

/// Every analysis held by the rows has a key name that can be read.
pub open spec fn rows_ok(rows: Seq<TrackRow>) -> bool {
    forall|i: int| 0 <= i < rows.len() ==> analysis_ok(#[trigger] rows[i].analysis)
}

/// The row after a worker message about it.
pub open spec fn message_row(row: TrackRow, m: WorkerMessage) -> TrackRow {
    match m {
        WorkerMessage::Started(_) => TrackRow { status: RowStatus::Analyzing, ..row },
        WorkerMessage::Finished { index: _, result } => match result {
            Ok(a) => TrackRow { analysis: Some(a), status: RowStatus::Done, ..row },
            Err(e) => TrackRow { status: RowStatus::Error(e), ..row },
        },
    }
}

/// The row a worker message is about.
pub open spec fn message_index(m: WorkerMessage) -> usize {
    match m {
        WorkerMessage::Started(i) => i,
        WorkerMessage::Finished { index, result: _ } => index,
    }
}

/// A worker message whose analysis (if any) has a readable key name.
pub open spec fn message_ok(m: WorkerMessage) -> bool {
    m matches WorkerMessage::Finished { index: _, result: Ok(a) } ==> key_text_ok(a.key_name@)
}

/// The selection after moving `by` rows down (at most to the last row).
pub open spec fn moved_down(sel: Option<usize>, visible: usize, by: usize) -> Option<usize> {
    let max: int = if visible == 0 {
        0
    } else {
        visible - 1
    };
    match sel {
        Some(i) => {
            let j: int = if i + by > usize::MAX {
                usize::MAX as int
            } else {
                i + by
            };
            Some(
                if j > max {
                    max as usize
                } else {
                    j as usize
                },
            )
        },
        None => Some(0usize),
    }
}

/// The selection after moving `by` rows up (at most to the first row).
pub open spec fn moved_up(sel: Option<usize>, by: usize) -> Option<usize> {
    match sel {
        Some(i) => Some(
            if i >= by {
                (i - by) as usize
            } else {
                0usize
            },
        ),
        None => Some(0usize),
    }
}

/// The selection kept within `len` visible rows.
pub open spec fn clamped(sel: Option<usize>, len: usize) -> Option<usize> {
    match sel {
        Some(i) => if len == 0 {
            None
        } else if i >= len {
            Some((len - 1) as usize)
        } else {
            Some(i)
        },
        None => if len > 0 {
            Some(0usize)
        } else {
            None
        },
    }
}

impl App {
    /// A browser for `paths`, none analysed yet, the first row selected,
    /// sorted by file name, keys in standard notation, no filter.
    pub fn new(paths: Vec<TrackPath>) -> (app: Self)
        ensures
            app.rows@.len() == paths@.len(),
            forall|i: int|
                0 <= i < paths@.len() ==> (#[trigger] app.rows@[i]).path == paths@[i]
                    && app.rows@[i].status == RowStatus::Pending && app.rows@[i].analysis is None,
            app.selected == (if paths@.len() > 0 {
                Some(0usize)
            } else {
                None
            }),
            !app.should_quit,
            app.completed == 0,
            app.total == paths@.len(),
            app.sort_state == (SortState { column: SortColumn::Filename, direction: SortDirection::Asc }),
            app.key_format == KeyFormat::Standard,
            !app.filter_mode,
            app.filter_input@ == Seq::<char>::empty(),
            app.active_filter is None,
            app.visible_count == paths@.len(),
            rows_ok(app.rows@),
    {
        let total = paths.len();
        let ghost initial = paths@;
        let mut rows: Vec<TrackRow> = Vec::new();
        for p in it: paths
            invariant
                it.seq() == initial,
                rows@.len() == it.index(),
                forall|i: int|
                    0 <= i < rows@.len() ==> (#[trigger] rows@[i]).path == initial[i]
                        && rows@[i].status == RowStatus::Pending && rows@[i].analysis is None,
        {
            rows.push(TrackRow::new(p));
        }
        App {
            rows,
            selected: if total > 0 {
                Some(0)
            } else {
                None
            },
            should_quit: false,
            completed: 0,
            total,
            sort_state: SortState::new(SortColumn::Filename),
            key_format: KeyFormat::Standard,
            filter_mode: false,
            filter_input: String::new(),
            active_filter: None,
            visible_count: total,
        }
    }

    /// Records a worker message: the row it is about (if there is one)
    /// starts analysing, or takes the analysis or the error; a finished
    /// analysis counts as completed (the count saturates).
    pub fn apply_message(&mut self, message: WorkerMessage)
        ensures
            final(self).rows@ == (if message_index(message) < old(self).rows@.len() {
                old(self).rows@.update(
                    message_index(message) as int,
                    message_row(old(self).rows@[message_index(message) as int], message),
                )
            } else {
                old(self).rows@
            }),
            final(self).completed == (if message is Finished {
                if old(self).completed == usize::MAX {
                    usize::MAX
                } else {
                    (old(self).completed + 1) as usize
                }
            } else {
                old(self).completed
            }),
            rows_ok(old(self).rows@) && message_ok(message) ==> rows_ok(final(self).rows@),
            final(self).selected == old(self).selected,
            final(self).should_quit == old(self).should_quit,
            final(self).total == old(self).total,
            final(self).sort_state == old(self).sort_state,
            final(self).key_format == old(self).key_format,
            final(self).filter_mode == old(self).filter_mode,
            final(self).filter_input == old(self).filter_input,
            final(self).active_filter == old(self).active_filter,
            final(self).visible_count == old(self).visible_count,
    {
        match message {
            WorkerMessage::Started(index) => {
                if index < self.rows.len() {
                    self.rows[index].status = RowStatus::Analyzing;
                }
            },
            WorkerMessage::Finished { index, result } => {
                if index < self.rows.len() {
                    match result {
                        Ok(analysis) => {
                            self.rows[index].analysis = Some(analysis);
                            self.rows[index].status = RowStatus::Done;
                        },
                        Err(err) => {
                            self.rows[index].status = RowStatus::Error(err);
                        },
                    }
                }
                self.completed = self.completed.saturating_add(1);
            },
        }
    }

    /// Keeps the selection within `len` visible rows (`clamped`).
    pub fn clamp_selection(&mut self, len: usize)
        ensures
            *final(self) == (App { selected: clamped(old(self).selected, len), ..*old(self) }),
    {
        match self.selected {
            Some(index) => {
                if len == 0 {
                    self.selected = None;
                } else if index >= len {
                    self.selected = Some(len - 1);
                }
            },
            None => {
                if len > 0 {
                    self.selected = Some(0);
                }
            },
        }
    }

    /// Selects the next row (staying on the last).
    pub fn move_next(&mut self)
        ensures
            *final(self) == (App {
                selected: moved_down(old(self).selected, old(self).visible_count, 1),
                ..*old(self)
            }),
    {
        let max = self.visible_count.saturating_sub(1);
        self.selected = Some(
            match self.selected {
                Some(index) => {
                    let next = index.saturating_add(1);
                    if next > max {
                        max
                    } else {
                        next
                    }
                },
                None => 0,
            },
        );
    }

    /// Selects the previous row (staying on the first).
    pub fn move_previous(&mut self)
        ensures
            *final(self) == (App { selected: moved_up(old(self).selected, 1), ..*old(self) }),
    {
        self.selected = Some(
            match self.selected {
                Some(index) => index.saturating_sub(1),
                None => 0,
            },
        );
    }

    /// Selects the first row, if any row is visible.
    pub fn move_first(&mut self)
        ensures
            *final(self) == (App {
                selected: if old(self).visible_count > 0 {
                    Some(0usize)
                } else {
                    old(self).selected
                },
                ..*old(self)
            }),
    {
        if self.visible_count > 0 {
            self.selected = Some(0);
        }
    }

    /// Selects the last row; nothing when no row is visible.
    pub fn move_last(&mut self)
        ensures
            *final(self) == (App {
                selected: if old(self).visible_count == 0 {
                    None
                } else {
                    Some((old(self).visible_count - 1) as usize)
                },
                ..*old(self)
            }),
    {
        self.selected = if self.visible_count == 0 {
            None
        } else {
            Some(self.visible_count - 1)
        };
    }

    /// Moves the selection ten rows up.
    pub fn page_up(&mut self)
        ensures
            *final(self) == (App { selected: moved_up(old(self).selected, 10), ..*old(self) }),
    {
        self.selected = Some(
            match self.selected {
                Some(index) => index.saturating_sub(10),
                None => 0,
            },
        );
    }

    /// Moves the selection ten rows down.
    pub fn page_down(&mut self)
        ensures
            *final(self) == (App {
                selected: moved_down(old(self).selected, old(self).visible_count, 10),
                ..*old(self)
            }),
    {
        let max = self.visible_count.saturating_sub(1);
        self.selected = Some(
            match self.selected {
                Some(index) => {
                    let next = index.saturating_add(10);
                    if next > max {
                        max
                    } else {
                        next
                    }
                },
                None => 0,
            },
        );
    }

    /// Asks to sort by `column` (see `SortState::toggle`).
    pub fn sort_by_column(&mut self, column: SortColumn)
        ensures
            *final(self) == (App {
                sort_state: crate::sort::toggled(old(self).sort_state, column),
                ..*old(self)
            }),
    {
        self.sort_state.toggle(column);
    }

    /// Shows keys in the next notation.
    pub fn cycle_key_format(&mut self)
        ensures
            *final(self) == (App {
                key_format: crate::key_format::next_format(old(self).key_format),
                ..*old(self)
            }),
    {
        self.key_format = self.key_format.next();
    }

    /// Starts typing a new filter.
    pub fn open_filter(&mut self)
        ensures
            after_open(*old(self), *final(self)),
    {
        self.filter_mode = true;
        self.filter_input = String::new();
    }

    /// Removes the filter in force and any filter being typed.
    pub fn clear_filter(&mut self)
        ensures
            after_clear(*old(self), *final(self)),
    {
        self.active_filter = None;
        self.filter_input = String::new();
        self.filter_mode = false;
    }

    /// Stops typing the filter and puts it in force: a blank filter removes
    /// the one in force, a filter that is understood replaces it, and one
    /// that is not understood leaves it.
    pub fn apply_filter(&mut self)
        requires
            query_ok(old(self).filter_input@),
        ensures
            after_apply(*old(self), *final(self)),
    {
        let chars = chars_of(self.filter_input.as_str());
        let trimmed = trim_chars(chars.as_slice());
        if trimmed.len() == 0 {
            self.active_filter = None;
        } else if let Some(filter) = parse_filter_query(self.filter_input.as_str()) {
            self.active_filter = Some(filter);
        }
        self.filter_mode = false;
    }

    /// Stops typing the filter, dropping what was typed.
    pub fn cancel_filter(&mut self)
        ensures
            after_cancel(*old(self), *final(self)),
    {
        self.filter_mode = false;
        self.filter_input = String::new();
    }
}

/// `b` is `a` after starting to type a new filter.
pub open spec fn after_open(a: App, b: App) -> bool {
    &&& b.filter_input@ == Seq::<char>::empty()
    &&& b == (App { filter_mode: true, filter_input: b.filter_input, ..a })
}

/// `b` is `a` after removing the filter in force and the one being typed.
pub open spec fn after_clear(a: App, b: App) -> bool {
    &&& b.filter_input@ == Seq::<char>::empty()
    &&& b == (App { active_filter: None, filter_mode: false, filter_input: b.filter_input, ..a })
}

/// `b` is `a` after dropping the filter being typed.
pub open spec fn after_cancel(a: App, b: App) -> bool {
    &&& b.filter_input@ == Seq::<char>::empty()
    &&& b == (App { filter_mode: false, filter_input: b.filter_input, ..a })
}

/// `b` is `a` after putting the typed filter in force: a blank filter
/// removes the one in force, a filter that is understood replaces it, and
/// one that is not understood leaves it.
pub open spec fn after_apply(a: App, b: App) -> bool {
    &&& trim(a.filter_input@).len() == 0 ==> b.active_filter is None
    &&& trim(a.filter_input@).len() > 0 ==> match crate::filter::query_filter(a.filter_input@) {
        Some(fv) => b.active_filter matches Some(f) && f@ == fv,
        None => b.active_filter == a.active_filter,
    }
    &&& b == (App { active_filter: b.active_filter, filter_mode: false, ..a })
}

/// `b` is `a` after a key press while typing a filter.
pub open spec fn filter_key_effect(a: App, b: App, key: KeyInput) -> bool {
    match key {
        KeyInput::Esc => after_cancel(a, b),
        KeyInput::Enter => after_apply(a, b),
        KeyInput::Backspace => {
            &&& b.filter_input@ == (if a.filter_input@.len() > 0 {
                a.filter_input@.drop_last()
            } else {
                a.filter_input@
            })
            &&& b == (App { filter_input: b.filter_input, ..a })
        },
        KeyInput::Char(c) => {
            &&& b.filter_input@ == a.filter_input@.push(c)
            &&& b == (App { filter_input: b.filter_input, ..a })
        },
        _ => b == a,
    }
}

/// `b` is `a` after a key press while browsing: `q`/Esc quit, `j`/Down and
/// `k`/Up move by one row, `g`/Home and `G`/End go to the first and last
/// rows, Page Up/Down move by ten, `1`..`6` sort by a column, `t` cycles
/// the key notation, `/` starts a filter and `c` clears it.
pub open spec fn browse_key_effect(a: App, b: App, key: KeyInput) -> bool {
    match key {
        KeyInput::Char('q') | KeyInput::Esc => b == (App { should_quit: true, ..a }),
        KeyInput::Char('j') | KeyInput::Down => b == (App {
            selected: moved_down(a.selected, a.visible_count, 1),
            ..a
        }),
        KeyInput::Char('k') | KeyInput::Up => b == (App { selected: moved_up(a.selected, 1), ..a }),
        KeyInput::Char('g') | KeyInput::Home => b == (App {
            selected: if a.visible_count > 0 {
                Some(0usize)
            } else {
                a.selected
            },
            ..a
        }),
        KeyInput::Char('G') | KeyInput::End => b == (App {
            selected: if a.visible_count == 0 {
                None
            } else {
                Some((a.visible_count - 1) as usize)
            },
            ..a
        }),
        KeyInput::PageUp => b == (App { selected: moved_up(a.selected, 10), ..a }),
        KeyInput::PageDown => b == (App {
            selected: moved_down(a.selected, a.visible_count, 10),
            ..a
        }),
        KeyInput::Char('1') => b == (App {
            sort_state: crate::sort::toggled(a.sort_state, SortColumn::Filename),
            ..a
        }),
        KeyInput::Char('2') => b == (App {
            sort_state: crate::sort::toggled(a.sort_state, SortColumn::Status),
            ..a
        }),
        KeyInput::Char('3') => b == (App {
            sort_state: crate::sort::toggled(a.sort_state, SortColumn::Bpm),
            ..a
        }),
        KeyInput::Char('4') => b == (App {
            sort_state: crate::sort::toggled(a.sort_state, SortColumn::Key),
            ..a
        }),
        KeyInput::Char('5') => b == (App {
            sort_state: crate::sort::toggled(a.sort_state, SortColumn::Length),
            ..a
        }),
        KeyInput::Char('6') => b == (App {
            sort_state: crate::sort::toggled(a.sort_state, SortColumn::Format),
            ..a
        }),
        KeyInput::Char('t') => b == (App {
            key_format: crate::key_format::next_format(a.key_format),
            ..a
        }),
        KeyInput::Char('/') => after_open(a, b),
        KeyInput::Char('c') => after_clear(a, b),
        _ => b == a,
    }
}

/// The key presses that do not panic: pressing Enter while typing a filter
/// reads it, which needs `query_ok`.
pub open spec fn key_ok(a: App, key: KeyInput) -> bool {
    a.filter_mode && key == KeyInput::Enter ==> query_ok(a.filter_input@)
}

impl App {
    /// Handles a key press while typing a filter (`filter_key_effect`).
    pub fn handle_filter_key(&mut self, key: KeyInput)
        requires
            key == KeyInput::Enter ==> query_ok(old(self).filter_input@),
        ensures
            filter_key_effect(*old(self), *final(self), key),
    {
        match key {
            KeyInput::Esc => self.cancel_filter(),
            KeyInput::Enter => self.apply_filter(),
            KeyInput::Backspace => {
                pop_char(&mut self.filter_input);
            },
            KeyInput::Char(c) => {
                push_char(&mut self.filter_input, c);
            },
            _ => {},
        }
    }

    /// Handles a key press: while typing a filter it edits the filter
    /// (`filter_key_effect`), otherwise it browses (`browse_key_effect`).
    pub fn on_key(&mut self, key: KeyInput)
        requires
            key_ok(*old(self), key),
        ensures
            old(self).filter_mode ==> filter_key_effect(*old(self), *final(self), key),
            !old(self).filter_mode ==> browse_key_effect(*old(self), *final(self), key),
    {
        if self.filter_mode {
            self.handle_filter_key(key);
            return;
        }
        match key {
            KeyInput::Char('q') | KeyInput::Esc => self.should_quit = true,
            KeyInput::Char('j') | KeyInput::Down => self.move_next(),
            KeyInput::Char('k') | KeyInput::Up => self.move_previous(),
            KeyInput::Char('g') | KeyInput::Home => self.move_first(),
            KeyInput::Char('G') | KeyInput::End => self.move_last(),
            KeyInput::PageUp => self.page_up(),
            KeyInput::PageDown => self.page_down(),
            KeyInput::Char('1') => self.sort_by_column(SortColumn::Filename),
            KeyInput::Char('2') => self.sort_by_column(SortColumn::Status),
            KeyInput::Char('3') => self.sort_by_column(SortColumn::Bpm),
            KeyInput::Char('4') => self.sort_by_column(SortColumn::Key),
            KeyInput::Char('5') => self.sort_by_column(SortColumn::Length),
            KeyInput::Char('6') => self.sort_by_column(SortColumn::Format),
            KeyInput::Char('t') => self.cycle_key_format(),
            KeyInput::Char('/') => self.open_filter(),
            KeyInput::Char('c') => self.clear_filter(),
            _ => {},
        }
    }
}

/// The number of rows whose analysis failed.
pub open spec fn count_errors(rows: Seq<TrackRow>) -> nat
    decreases rows.len(),
{
    if rows.len() == 0 {
        0
    } else {
        count_errors(rows.drop_last()) + (if rows.last().status is Error {
            1nat
        } else {
            0nat
        })
    }
}

/// The line at the foot of the browser: progress, failures, key notation,
/// filter, and the selected row's file name.
pub open spec fn status_line_text(app: App, entries: Seq<TrackEntry>) -> Seq<char> {
    seq!['A', 'n', 'a', 'l', 'y', 'z', 'e', 'd', ' '] + decimal_text(app.completed as nat) + seq!['/'] + decimal_text(app.total as nat)
        + seq![' ', 'f', 'i', 'l', 'e', 's', ' ', ' ', '|', ' ', ' '] + decimal_text(count_errors(app.rows@)) + seq![' ', 'e', 'r', 'r', 'o', 'r', 's', ' ', ' ', '|', ' ', ' ', 'K', 'e', 'y', ':', ' '] + crate::key_format::format_label(
        app.key_format,
    ) + seq![' ', ' ', '|', ' ', ' ', 'F', 'i', 'l', 't', 'e', 'r', ':', ' '] + (match app.active_filter {
        Some(f) => crate::filter::describe_text(f@),
        None => crate::filter::all_tracks_text(),
    }) + seq![' ', ' ', '|', ' ', ' ', 'S', 'e', 'l', 'e', 'c', 't', 'e', 'd', ':', ' '] + (match app.selected {
        Some(i) => if i < entries.len() {
            entries[i as int].filename@
        } else {
            seq!['n', 'o', ' ', 's', 'e', 'l', 'e', 'c', 't', 'i', 'o', 'n']
        },
        None => seq!['n', 'o', ' ', 's', 'e', 'l', 'e', 'c', 't', 'i', 'o', 'n'],
    })
}

impl App {
    /// The line at the foot of the browser (`status_line_text`).
    pub fn status_line(&self, entries: &Vec<TrackEntry>) -> (r: String)
        ensures
            r@ == status_line_text(*self, entries@),
    {
        let errors = self.error_count();
        let mut s = String::new();
        push_chars(&mut s, &['A', 'n', 'a', 'l', 'y', 'z', 'e', 'd', ' ']);
        push_decimal(&mut s, self.completed as u64);
        push_char(&mut s, '/');
        push_decimal(&mut s, self.total as u64);
        push_chars(&mut s, &[' ', 'f', 'i', 'l', 'e', 's', ' ', ' ', '|', ' ', ' ']);
        push_decimal(&mut s, errors as u64);
        push_chars(&mut s, &[' ', 'e', 'r', 'r', 'o', 'r', 's', ' ', ' ', '|', ' ', ' ', 'K', 'e', 'y', ':', ' ']);
        let label = chars_of(self.key_format.label());
        push_chars(&mut s, label.as_slice());
        push_chars(&mut s, &[' ', ' ', '|', ' ', ' ', 'F', 'i', 'l', 't', 'e', 'r', ':', ' ']);
        match &self.active_filter {
            Some(filter) => {
                let d = filter.describe();
                let dc = chars_of(d.as_str());
                push_chars(&mut s, dc.as_slice());
            },
            None => push_chars(&mut s, &['A', 'l', 'l', ' ', 't', 'r', 'a', 'c', 'k', 's']),
        }
        push_chars(&mut s, &[' ', ' ', '|', ' ', ' ', 'S', 'e', 'l', 'e', 'c', 't', 'e', 'd', ':', ' ']);
        let mut shown = false;
        if let Some(i) = self.selected {
            if i < entries.len() {
                let name = chars_of(entries[i].filename.as_str());
                push_chars(&mut s, name.as_slice());
                shown = true;
            }
        }
        if !shown {
            push_chars(&mut s, &['n', 'o', ' ', 's', 'e', 'l', 'e', 'c', 't', 'i', 'o', 'n']);
        }
        s
    }
}

/// A row passes a filter (`filter_matches` on its entry, which reads only
/// the status, tempo and key of the row).
pub open spec fn row_passes(row: TrackRow, filter: Option<FilterView>) -> bool {
    match filter {
        None => true,
        Some(f) => status_rank_of(row.status) != 2 || match row.analysis {
            Some(a) => {
                &&& (f.0 matches Some(min) ==> !crate::tempo::tempo_less(
                    crate::tempo::milli_view(a.bpm as int),
                    min,
                ))
                &&& (f.1 matches Some(max) ==> !crate::tempo::tempo_less(
                    max,
                    crate::tempo::milli_view(a.bpm as int),
                ))
                &&& (f.2 matches Some(k) ==> a.key_name@ == k)
            },
            None => f.0 is None && f.1 is None && f.2 is None,
        },
    }
}

/// The view of the filter in force.
pub open spec fn filter_view(f: Option<TrackFilter>) -> Option<FilterView> {
    match f {
        Some(x) => Some(x@),
        None => None,
    }
}

/// `es` holds, in row order, the entries (in notation `f`) of exactly the
/// rows that pass `filter`; `idx` gives the row of each entry.
pub open spec fn lists_visible(
    rows: Seq<TrackRow>,
    f: KeyFormat,
    filter: Option<FilterView>,
    idx: Seq<int>,
    es: Seq<TrackEntry>,
) -> bool {
    &&& es.len() == idx.len()
    &&& forall|k: int|
        0 <= k < idx.len() ==> 0 <= #[trigger] idx[k] < rows.len() && entry_of(
            rows[idx[k]],
            f,
            es[k],
        )
    &&& forall|k: int, l: int| 0 <= k < l < idx.len() ==> #[trigger] idx[k] < #[trigger] idx[l]
    &&& forall|i: int|
        0 <= i < rows.len() ==> (row_passes(#[trigger] rows[i], filter) <==> exists|k: int|
            0 <= k < idx.len() && idx[k] == i)
}

proof fn lemma_entry_passes(row: TrackRow, f: KeyFormat, e: TrackEntry, fv: FilterView)
    requires
        entry_of(row, f, e),
    ensures
        filter_matches(fv, e) == row_passes(row, Some(fv)),
{
}

/// `r` is what the browser draws for `app`: the entries of the rows that
/// pass the filter in force, in the current key notation, sorted by the
/// current order.
pub open spec fn shows(app: App, r: Seq<TrackEntry>) -> bool {
    exists|idx: Seq<int>, es: Seq<TrackEntry>, p: Seq<usize>|
        lists_visible(app.rows@, app.key_format, filter_view(app.active_filter), idx, es)
            && is_sorted_order(es, app.sort_state, p) && r == rows_at(es, p)
}

impl App {
    /// The rows to draw: the entries of the rows that pass the filter in
    /// force, in the current key notation, sorted by the current order.
    pub fn entries_for_render(&self) -> (r: Vec<TrackEntry>)
        requires
            rows_ok(self.rows@),
        ensures
            shows(*self, r@),
    {
        let mut entries: Vec<TrackEntry> = Vec::new();
        let ghost mut idx: Seq<int> = Seq::empty();
        let ghost fv = filter_view(self.active_filter);
        let mut i: usize = 0;
        while i < self.rows.len()
            invariant
                i <= self.rows@.len(),
                rows_ok(self.rows@),
                fv == filter_view(self.active_filter),
                entries@.len() == idx.len(),
                forall|k: int|
                    0 <= k < idx.len() ==> 0 <= #[trigger] idx[k] < i && entry_of(
                        self.rows@[idx[k]],
                        self.key_format,
                        entries@[k],
                    ),
                forall|k: int, l: int| 0 <= k < l < idx.len() ==> #[trigger] idx[k] < #[trigger] idx[l],
                forall|j: int|
                    0 <= j < i ==> (row_passes(#[trigger] self.rows@[j], fv) <==> exists|k: int|
                        0 <= k < idx.len() && idx[k] == j),
            decreases self.rows@.len() - i,
        {
            assert(analysis_ok(self.rows@[i as int].analysis));
            let entry = self.rows[i].to_entry(self.key_format);
            let keep = match &self.active_filter {
                Some(filter) => filter.matches_entry(&entry),
                None => true,
            };
            proof {
                if let Some(f) = fv {
                    lemma_entry_passes(self.rows@[i as int], self.key_format, entry, f);
                }
            }
            let ghost old_idx = idx;
            if keep {
                entries.push(entry);
                proof {
                    idx = idx.push(i as int);
                }
            }
            proof {
                assert forall|j: int|
                    0 <= j < i + 1 implies (row_passes(#[trigger] self.rows@[j], fv) <==> exists|k: int|
                    0 <= k < idx.len() && idx[k] == j) by {
                    if j < i {
                        if row_passes(self.rows@[j], fv) {
                            let k = choose|k: int| 0 <= k < old_idx.len() && old_idx[k] == j;
                            assert(idx[k] == j);
                        } else {
                            if exists|k: int| 0 <= k < idx.len() && idx[k] == j {
                                let k = choose|k: int| 0 <= k < idx.len() && idx[k] == j;
                                if k < old_idx.len() {
                                    assert(old_idx[k] == j);
                                }
                            }
                        }
                    } else {
                        if keep {
                            assert(idx[idx.len() - 1] == j);
                        } else {
                            if exists|k: int| 0 <= k < idx.len() && idx[k] == j {
                                let k = choose|k: int| 0 <= k < idx.len() && idx[k] == j;
                                assert(old_idx[k] < i);
                            }
                        }
                    }
                }
            }
            i = i + 1;
        }
        let ghost es = entries@;
        assert(lists_visible(self.rows@, self.key_format, fv, idx, es));
        sort_entries(&mut entries, self.sort_state);
        entries
    }
}


impl App {
    /// Prepares a drawing: computes the rows to draw (`entries_for_render`),
    /// records how many there are, and keeps the selection within them.
    pub fn refresh_view(&mut self) -> (r: Vec<TrackEntry>)
        requires
            rows_ok(old(self).rows@),
        ensures
            shows(*old(self), r@),
            *final(self) == (App {
                visible_count: r@.len() as usize,
                selected: clamped(old(self).selected, r@.len() as usize),
                ..*old(self)
            }),
            final(self).selected matches Some(i) ==> i < r@.len(),
            r@.len() > 0 ==> final(self).selected is Some,
    {
        let entries = self.entries_for_render();
        let visible = entries.len();
        self.visible_count = visible;
        self.clamp_selection(visible);
        entries
    }

    /// What the filter box shows while a filter is typed: what was typed,
    /// or a hint when nothing was.
    pub fn filter_prompt(&self) -> (r: String)
        ensures
            r@ == filter_prompt_text(self.filter_input@),
    {
        let typed = chars_of(self.filter_input.as_str());
        if typed.len() == 0 {
            let mut s = String::new();
            push_chars(
                &mut s,
                &[
                    't', 'y', 'p', 'e', ' ', 'B', 'P', 'M', ' ', 'r', 'a', 'n', 'g', 'e', ' ', 'o',
                    'r', ' ', 'k', 'e', 'y',
                ],
            );
            s
        } else {
            self.filter_input.clone()
        }
    }

    /// The values of the summary line (`summary_values`), for `visible`
    /// rows on screen.
    pub fn summary(&self, visible: usize) -> (r: Summary)
        ensures
            r.view() == summary_values(*self, visible),
    {
        let mut progress = String::new();
        push_decimal(&mut progress, self.completed as u64);
        push_char(&mut progress, '/');
        push_decimal(&mut progress, self.total as u64);
        let mut shown = String::new();
        push_decimal(&mut shown, visible as u64);
        let mut errors = String::new();
        push_decimal(&mut errors, self.error_count() as u64);
        let mut direction = String::new();
        match self.sort_state.direction {
            SortDirection::Asc => push_chars(&mut direction, &['a', 's', 'c']),
            SortDirection::Desc => push_chars(&mut direction, &['d', 'e', 's', 'c']),
        }
        let mut key_format = String::new();
        let label = chars_of(self.key_format.label());
        push_chars(&mut key_format, label.as_slice());
        let filter = match &self.active_filter {
            Some(f) => Some(f.describe()),
            None => None,
        };
        Summary { progress, visible: shown, errors, direction, key_format, filter }
    }
}

/// The hint shown in an empty filter box.
pub open spec fn filter_hint() -> Seq<char> {
    seq![
        't', 'y', 'p', 'e', ' ', 'B', 'P', 'M', ' ', 'r', 'a', 'n', 'g', 'e', ' ', 'o', 'r', ' ', 'k',
        'e', 'y',
    ]
}

/// What the filter box shows: the typed text, or the hint when it is empty.
pub open spec fn filter_prompt_text(input: Seq<char>) -> Seq<char> {
    if input.len() == 0 {
        filter_hint()
    } else {
        input
    }
}

/// The values of the summary line: analyses finished out of all tracks
/// (`3/10`), rows on screen, failed rows, the sort direction (`asc` or
/// `desc`), the key notation, and the description of the filter in force.
pub struct Summary {
    pub progress: String,
    pub visible: String,
    pub errors: String,
    pub direction: String,
    pub key_format: String,
    pub filter: Option<String>,
}

/// The texts of a summary line, in the order of its fields.
pub type SummaryView = (Seq<char>, Seq<char>, Seq<char>, Seq<char>, Seq<char>, Option<Seq<char>>);

impl Summary {
    pub open spec fn view(&self) -> SummaryView {
        (
            self.progress@,
            self.visible@,
            self.errors@,
            self.direction@,
            self.key_format@,
            opt_text(self.filter),
        )
    }
}

/// The summary line of `app` with `visible` rows on screen.
pub open spec fn summary_values(app: App, visible: usize) -> SummaryView {
    (
        decimal_text(app.completed as nat) + seq!['/'] + decimal_text(app.total as nat),
        decimal_text(visible as nat),
        decimal_text(count_errors(app.rows@)),
        match app.sort_state.direction {
            SortDirection::Asc => seq!['a', 's', 'c'],
            SortDirection::Desc => seq!['d', 'e', 's', 'c'],
        },
        crate::key_format::format_label(app.key_format),
        match app.active_filter {
            Some(f) => Some(crate::filter::describe_text(f@)),
            None => None,
        },
    )
}

/// The cells of a table row: file name, status, tempo (two decimals),
/// key, length (`mm:ss`) and format, with `-` for a missing value.
pub open spec fn cell_texts(e: TrackEntry) -> Seq<Seq<char>> {
    seq![
        e.filename@,
        e.status_label@,
        match e.bpm {
            Some(b) => bpm_text(b as int),
            None => seq!['-'],
        },
        match opt_text(e.key) {
            Some(k) => k,
            None => seq!['-'],
        },
        match e.length {
            Some(d) => duration_text(d.secs as nat),
            None => seq!['-'],
        },
        e.format@,
    ]
}

/// The cells of a table row (`cell_texts`).
pub fn table_cells(entry: &TrackEntry) -> (r: Vec<String>)
    ensures
        r@.len() == 6,
        forall|k: int| 0 <= k < 6 ==> #[trigger] r@[k]@ == cell_texts(*entry)[k],
{
    let mut cells: Vec<String> = Vec::new();
    cells.push(entry.filename.clone());
    cells.push(entry.status_label.clone());
    cells.push(
        match entry.bpm {
            Some(b) => format_bpm(b),
            None => dash(),
        },
    );
    cells.push(
        match &entry.key {
            Some(k) => k.clone(),
            None => dash(),
        },
    );
    cells.push(
        match entry.length {
            Some(d) => format_duration(d),
            None => dash(),
        },
    );
    cells.push(entry.format.clone());
    cells
}

/// `-`, shown for a missing value.
fn dash() -> (r: String)
    ensures
        r@ == seq!['-'],
{
    let mut s = String::new();
    push_char(&mut s, '-');
    s
}

impl App {
    /// The number of rows whose analysis failed.
    pub fn error_count(&self) -> (n: usize)
        ensures
            n == count_errors(self.rows@),
    {
        let mut errors: usize = 0;
        let mut i: usize = 0;
        while i < self.rows.len()
            invariant
                i <= self.rows@.len(),
                errors == count_errors(self.rows@.take(i as int)),
                errors <= i,
            decreases self.rows@.len() - i,
        {
            assert(self.rows@.take(i + 1).drop_last() == self.rows@.take(i as int));
            match &self.rows[i].status {
                RowStatus::Error(_) => errors = errors + 1,
                _ => {},
            }
            i = i + 1;
        }
        assert(self.rows@.take(self.rows@.len() as int) == self.rows@);
        errors
    }

    /// Whether the rows can be drawn without panicking: every analysis
    /// has a key name that can be read (`rows_ok`).
    pub fn rows_readable(&self) -> (r: bool)
        ensures
            r == rows_ok(self.rows@),
    {
        let mut i: usize = 0;
        while i < self.rows.len()
            invariant
                i <= self.rows@.len(),
                forall|j: int| 0 <= j < i ==> analysis_ok(#[trigger] self.rows@[j].analysis),
            decreases self.rows@.len() - i,
        {
            if let Some(a) = &self.rows[i].analysis {
                if !crate::key_format::key_text_readable(a.key_name.as_str()) {
                    return false;
                }
            }
            i = i + 1;
        }
        true
    }

    /// Whether pressing Enter now would read the typed filter without
    /// panicking (`query_ok`).
    pub fn filter_input_readable(&self) -> (r: bool)
        ensures
            r == query_ok(self.filter_input@),
    {
        query_readable(self.filter_input.as_str())
    }
}

/// The heading of a column.
pub open spec fn column_title(c: SortColumn) -> Seq<char> {
    match c {
        SortColumn::Filename => seq!['F', 'i', 'l', 'e', 'n', 'a', 'm', 'e'],
        SortColumn::Status => seq!['S', 't', 'a', 't', 'u', 's'],
        SortColumn::Bpm => seq!['B', 'P', 'M'],
        SortColumn::Key => seq!['K', 'e', 'y'],
        SortColumn::Length => seq!['L', 'e', 'n', 'g', 't', 'h'],
        SortColumn::Format => seq!['F', 'o', 'r', 'm', 'a', 't'],
    }
}

/// The heading of a column in the table: its title, and an arrow for the
/// direction when the table is sorted by it.
pub open spec fn column_header_text(c: SortColumn, s: SortState) -> Seq<char> {
    if c == s.column {
        column_title(c) + seq![
            ' ',
            match s.direction {
                SortDirection::Asc => '\u{2191}',
                SortDirection::Desc => '\u{2193}',
            },
        ]
    } else {
        column_title(c)
    }
}

/// The heading of a column (`column_header_text`).
pub fn column_header(column: SortColumn, state: SortState) -> (r: String)
    ensures
        r@ == column_header_text(column, state),
{
    let mut s = String::new();
    match column {
        SortColumn::Filename => push_chars(&mut s, &['F', 'i', 'l', 'e', 'n', 'a', 'm', 'e']),
        SortColumn::Status => push_chars(&mut s, &['S', 't', 'a', 't', 'u', 's']),
        SortColumn::Bpm => push_chars(&mut s, &['B', 'P', 'M']),
        SortColumn::Key => push_chars(&mut s, &['K', 'e', 'y']),
        SortColumn::Length => push_chars(&mut s, &['L', 'e', 'n', 'g', 't', 'h']),
        SortColumn::Format => push_chars(&mut s, &['F', 'o', 'r', 'm', 'a', 't']),
    }
    if column == state.column {
        push_char(&mut s, ' ');
        match state.direction {
            SortDirection::Asc => push_char(&mut s, '\u{2191}'),
            SortDirection::Desc => push_char(&mut s, '\u{2193}'),
        }
    }
    s
}

/// Moving keeps a selection that lies within the visible rows there (and
/// makes one where there was none); keeping the selection within `len` rows
/// leaves no selection only when no row is visible, and leaves a selection
/// that was already within them unchanged.
pub proof fn law_selection_in_range(sel: Option<usize>, visible: usize, by: usize, len: usize)
    requires
        visible > 0,
        sel matches Some(i) ==> i < visible,
    ensures
        moved_down(sel, visible, by) matches Some(j) && j < visible,
        moved_up(sel, by) matches Some(j) && j < visible,
        len == 0 ==> clamped(sel, len) is None,
        len > 0 ==> (clamped(sel, len) matches Some(j) && j < len),
        (sel matches Some(i) && i < len) ==> clamped(sel, len) == sel,
{
}

/// Without a filter in force every row is visible.
pub proof fn law_no_filter_shows_all(row: TrackRow)
    ensures
        row_passes(row, None),
{
}


/// While typing a filter, deleting a character just typed gives back what
/// was typed before, and changes nothing else.
pub proof fn law_backspace_undoes_typing(a: App, b: App, d: App, c: char)
    requires
        filter_key_effect(a, b, KeyInput::Char(c)),
        filter_key_effect(b, d, KeyInput::Backspace),
    ensures
        d.filter_input@ == a.filter_input@,
        d == (App { filter_input: d.filter_input, ..a }),
{
    assert(b.filter_input@.drop_last() =~= a.filter_input@);
}

/// After clearing the filter (`c` while browsing), every row is visible.
pub proof fn law_clear_shows_all(a: App, b: App, row: TrackRow)
    requires
        !a.filter_mode,
        browse_key_effect(a, b, KeyInput::Char('c')),
    ensures
        b.active_filter is None,
        row_passes(row, filter_view(b.active_filter)),
{
}


/// Statuses are ranked in the order a track goes through them (pending,
/// analysing, done, failed), each with its own rank; only a done row has
/// the rank that filters look at.
pub proof fn law_status_ranks(s: RowStatus, t: RowStatus)
    ensures
        status_rank_of(RowStatus::Pending) < status_rank_of(RowStatus::Analyzing),
        status_rank_of(RowStatus::Analyzing) < status_rank_of(RowStatus::Done),
        status_rank_of(RowStatus::Done) < status_rank_of(s) <==> s is Error,
        (status_rank_of(s) == 2) <==> (s is Done),
        status_rank_of(s) == status_rank_of(t) <==> ((s is Pending && t is Pending) || (s is Analyzing
            && t is Analyzing) || (s is Done && t is Done) || (s is Error && t is Error)),
{
}

/// A row whose analysis failed (or that is not done yet) passes every
/// filter, and so is always drawn.
pub proof fn law_unfinished_rows_shown(row: TrackRow, f: FilterView, e: TrackEntry, k: KeyFormat)
    requires
        !(row.status is Done),
        entry_of(row, k, e),
    ensures
        row_passes(row, Some(f)),
        filter_matches(f, e),
{
}

/// Browsing keys move the selection as their names say: Down and `j`
/// select the next row, Up and `k` the previous one, Page Down and Page Up
/// move ten rows, Home and `g` the first row and End and `G` the last,
/// always within the visible rows; nothing else changes.
pub proof fn law_browse_moves(a: App, b: App, key: KeyInput, i: usize)
    requires
        !a.filter_mode,
        a.selected == Some(i),
        i < a.visible_count,
        browse_key_effect(a, b, key),
    ensures
        (key == KeyInput::Down || key == KeyInput::Char('j')) ==> b.selected == Some(
            (if i + 1 < a.visible_count { i + 1 } else { i as int }) as usize,
        ),
        (key == KeyInput::Up || key == KeyInput::Char('k')) ==> b.selected == Some(
            (if i > 0 { i - 1 } else { 0int }) as usize,
        ),
        key == KeyInput::PageDown ==> b.selected == Some(
            (if i + 10 < a.visible_count { i + 10 } else { a.visible_count - 1 }) as usize,
        ),
        key == KeyInput::PageUp ==> b.selected == Some((if i >= 10 { i - 10 } else { 0int }) as usize),
        (key == KeyInput::Home || key == KeyInput::Char('g')) ==> b.selected == Some(0usize),
        (key == KeyInput::End || key == KeyInput::Char('G')) ==> b.selected == Some(
            (a.visible_count - 1) as usize,
        ),
        (key == KeyInput::Down || key == KeyInput::Char('j') || key == KeyInput::Up || key
            == KeyInput::Char('k') || key == KeyInput::PageDown || key == KeyInput::PageUp || key
            == KeyInput::Home || key == KeyInput::Char('g') || key == KeyInput::End || key
            == KeyInput::Char('G')) ==> b == (App { selected: b.selected, ..a }),
{
}

/// The other browsing keys: `q` and Esc quit, `1` to `6` sort by file
/// name, status, tempo, key, length and format (in that order), `t`
/// shows keys in the next notation, `/` starts a filter and `c` removes
/// the filter; any other key changes nothing.
pub proof fn law_browse_commands(a: App, b: App, key: KeyInput)
    requires
        !a.filter_mode,
        browse_key_effect(a, b, key),
    ensures
        (key == KeyInput::Char('q') || key == KeyInput::Esc) ==> b.should_quit,
        key == KeyInput::Char('1') ==> b.sort_state.column == SortColumn::Filename,
        key == KeyInput::Char('2') ==> b.sort_state.column == SortColumn::Status,
        key == KeyInput::Char('3') ==> b.sort_state.column == SortColumn::Bpm,
        key == KeyInput::Char('4') ==> b.sort_state.column == SortColumn::Key,
        key == KeyInput::Char('5') ==> b.sort_state.column == SortColumn::Length,
        key == KeyInput::Char('6') ==> b.sort_state.column == SortColumn::Format,
        key == KeyInput::Char('t') ==> b.key_format != a.key_format,
        key == KeyInput::Char('/') ==> b.filter_mode && b.filter_input@.len() == 0,
        key == KeyInput::Char('c') ==> b.active_filter is None && !b.filter_mode,
        (key == KeyInput::Other || key == KeyInput::Enter || key == KeyInput::Backspace
            || key == KeyInput::Char('x')) ==> b == a,
{
}


/// Worker messages update the row they name: a start marks it analysing, a
/// finished analysis marks it done and stores the analysis, a failure marks
/// it failed with the message; only a finish counts as completed, and a
/// message for a row that does not exist changes no row.
pub proof fn law_worker_messages(row: TrackRow, a: TrackAnalysis, message: String, i: usize)
    ensures
        message_row(row, WorkerMessage::Started(i)).status is Analyzing,
        message_row(row, WorkerMessage::Started(i)).analysis == row.analysis,
        message_row(row, WorkerMessage::Finished { index: i, result: Ok(a) }).status is Done,
        message_row(row, WorkerMessage::Finished { index: i, result: Ok(a) }).analysis == Some(a),
        message_row(row, WorkerMessage::Finished { index: i, result: Err(message) }).status
            == RowStatus::Error(message),
        message_row(row, WorkerMessage::Finished { index: i, result: Err(message) }).analysis
            == row.analysis,
        message_row(row, WorkerMessage::Started(i)).path == row.path,
        message_index(WorkerMessage::Started(i)) == i,
        message_index(WorkerMessage::Finished { index: i, result: Ok(a) }) == i,
{
}

/// While typing a filter, a character is added at the end, Backspace
/// removes the last one, Esc drops the typed text and leaves the filter in
/// force, and Enter puts a query that is understood in force.
pub proof fn law_filter_typing(a: App, b: App, key: KeyInput, c: char)
    requires
        filter_key_effect(a, b, key),
    ensures
        key == KeyInput::Char(c) ==> b.filter_input@.len() == a.filter_input@.len() + 1
            && b.filter_input@.last() == c && b.filter_input@.drop_last() == a.filter_input@
            && b.filter_mode == a.filter_mode,
        key == KeyInput::Backspace && a.filter_input@.len() > 0 ==> b.filter_input@
            == a.filter_input@.take(a.filter_input@.len() - 1),
        key == KeyInput::Esc ==> !b.filter_mode && b.filter_input@.len() == 0 && b.active_filter
            == a.active_filter,
        key == KeyInput::Enter ==> !b.filter_mode,
        key == KeyInput::Enter && trim(a.filter_input@).len() > 0 ==> (crate::filter::query_filter(
            a.filter_input@,
        ) matches Some(fv) ==> (b.active_filter matches Some(f) && f@ == fv)),
{
    if key == KeyInput::Char(c) {
        assert(b.filter_input@.drop_last() =~= a.filter_input@);
    }
    if key == KeyInput::Backspace && a.filter_input@.len() > 0 {
        assert(a.filter_input@.drop_last() =~= a.filter_input@.take(a.filter_input@.len() - 1));
    }
}

/// Removes the last character of `s`, if any (`String::pop`).
#[verifier::external_body]
fn pop_char(s: &mut String)
    ensures
        final(s)@ == (if old(s)@.len() > 0 {
            old(s)@.drop_last()
        } else {
            old(s)@
        }),
{
    s.pop();
}

} // verus!
