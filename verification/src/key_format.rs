//! Musical key notation: reading a key written in standard, Camelot or
//! Open Key notation, and writing it back in any of the three.
use vstd::prelude::*;

use crate::text::{
    ascii_lower, chars_of, lower_ascii, push_char, push_chars, strip_suffix, strip_suffix_chars,
    trim, trim_chars,
};

verus! {

/// The notation in which keys are shown.
#[derive(Debug, Clone, Copy, PartialEq, Eq, Structural)]
pub enum KeyFormat {
    Standard,
    Camelot,
    OpenKey,
}

/// The twelve pitch classes, under the names this notation uses for them.
#[derive(Debug, Clone, Copy, PartialEq, Eq, Structural)]
pub enum Note {
    C,
    Db,
    D,
    Eb,
    E,
    F,
    Fs,
    G,
    Ab,
    A,
    Bb,
    B,
}

/// Major or minor.
#[derive(Debug, Clone, Copy, PartialEq, Eq, Structural)]
pub enum Mode {
    Major,
    Minor,
}

/// The format that follows `f` in the cycle Standard, Camelot, Open Key.
pub open spec fn next_format(f: KeyFormat) -> KeyFormat {
    match f {
        KeyFormat::Standard => KeyFormat::Camelot,
        KeyFormat::Camelot => KeyFormat::OpenKey,
        KeyFormat::OpenKey => KeyFormat::Standard,
    }
}

/// The name under which a format is shown.
pub open spec fn format_label(f: KeyFormat) -> Seq<char> {
    match f {
        KeyFormat::Standard => seq!['S', 't', 'a', 'n', 'd', 'a', 'r', 'd'],
        KeyFormat::Camelot => seq!['C', 'a', 'm', 'e', 'l', 'o', 't'],
        KeyFormat::OpenKey => seq!['O', 'p', 'e', 'n', ' ', 'K', 'e', 'y'],
    }
}

impl KeyFormat {
    /// The next format in the cycle Standard, Camelot, Open Key, Standard.
    pub fn next(self) -> (r: Self)
        ensures
            r == next_format(self),
    {
        match self {
            KeyFormat::Standard => KeyFormat::Camelot,
            KeyFormat::Camelot => KeyFormat::OpenKey,
            KeyFormat::OpenKey => KeyFormat::Standard,
        }
    }

    /// The name under which this format is shown.
    pub fn label(self) -> (r: &'static str)
        ensures
            r@ == format_label(self),
    {
        match self {
            KeyFormat::Standard => {
                proof {
                    reveal_strlit("Standard");
                }
                "Standard"
            },
            KeyFormat::Camelot => {
                proof {
                    reveal_strlit("Camelot");
                }
                "Camelot"
            },
            KeyFormat::OpenKey => {
                proof {
                    reveal_strlit("Open Key");
                }
                "Open Key"
            },
        }
    }
}

/// The written name of a note.
pub open spec fn note_name(n: Note) -> Seq<char> {
    match n {
        Note::C => seq!['C'],
        Note::Db => seq!['D', 'b'],
        Note::D => seq!['D'],
        Note::Eb => seq!['E', 'b'],
        Note::E => seq!['E'],
        Note::F => seq!['F'],
        Note::Fs => seq!['F', '#'],
        Note::G => seq!['G'],
        Note::Ab => seq!['A', 'b'],
        Note::A => seq!['A'],
        Note::Bb => seq!['B', 'b'],
        Note::B => seq!['B'],
    }
}

/// The note that a (lower-case) note name denotes, after trimming white space.
/// Sharps and flats of the same pitch class are both accepted.
pub open spec fn canonical_note_spec(s: Seq<char>) -> Option<Note> {
    let t = trim(s);
    if t == seq!['c'] {
        Some(Note::C)
    } else if t == seq!['c', '#'] || t == seq!['d', 'b'] {
        Some(Note::Db)
    } else if t == seq!['d'] {
        Some(Note::D)
    } else if t == seq!['d', '#'] || t == seq!['e', 'b'] {
        Some(Note::Eb)
    } else if t == seq!['e'] {
        Some(Note::E)
    } else if t == seq!['f'] {
        Some(Note::F)
    } else if t == seq!['f', '#'] || t == seq!['g', 'b'] {
        Some(Note::Fs)
    } else if t == seq!['g'] {
        Some(Note::G)
    } else if t == seq!['g', '#'] || t == seq!['a', 'b'] {
        Some(Note::Ab)
    } else if t == seq!['a'] {
        Some(Note::A)
    } else if t == seq!['a', '#'] || t == seq!['b', 'b'] {
        Some(Note::Bb)
    } else if t == seq!['b'] {
        Some(Note::B)
    } else {
        None
    }
}

/// The hour of a key on the Camelot wheel.
pub open spec fn camelot_hour(n: Note, m: Mode) -> u8 {
    match m {
        Mode::Major => match n {
            Note::C => 8,
            Note::Db => 3,
            Note::D => 10,
            Note::Eb => 5,
            Note::E => 12,
            Note::F => 7,
            Note::Fs => 2,
            Note::G => 9,
            Note::Ab => 4,
            Note::A => 11,
            Note::Bb => 6,
            Note::B => 1,
        },
        Mode::Minor => match n {
            Note::A => 8,
            Note::Bb => 3,
            Note::B => 10,
            Note::C => 5,
            Note::Db => 12,
            Note::D => 7,
            Note::Eb => 2,
            Note::E => 9,
            Note::F => 4,
            Note::Fs => 11,
            Note::G => 6,
            Note::Ab => 1,
        },
    }
}

/// The hour of a key in Open Key notation.
pub open spec fn open_key_hour(n: Note, m: Mode) -> u8 {
    match m {
        Mode::Major => match n {
            Note::C => 1,
            Note::G => 2,
            Note::D => 3,
            Note::A => 4,
            Note::E => 5,
            Note::B => 6,
            Note::Fs => 7,
            Note::Db => 8,
            Note::Ab => 9,
            Note::Eb => 10,
            Note::Bb => 11,
            Note::F => 12,
        },
        Mode::Minor => match n {
            Note::A => 1,
            Note::E => 2,
            Note::B => 3,
            Note::Fs => 4,
            Note::Db => 5,
            Note::Ab => 6,
            Note::Eb => 7,
            Note::Bb => 8,
            Note::F => 9,
            Note::C => 10,
            Note::G => 11,
            Note::D => 12,
        },
    }
}

/// The key at an hour of the Camelot wheel, in the given mode.
pub open spec fn camelot_key(h: u8, m: Mode) -> Option<(Note, Mode)> {
    match m {
        Mode::Minor => match h {
            1 => Some((Note::Ab, m)),
            2 => Some((Note::Eb, m)),
            3 => Some((Note::Bb, m)),
            4 => Some((Note::F, m)),
            5 => Some((Note::C, m)),
            6 => Some((Note::G, m)),
            7 => Some((Note::D, m)),
            8 => Some((Note::A, m)),
            9 => Some((Note::E, m)),
            10 => Some((Note::B, m)),
            11 => Some((Note::Fs, m)),
            12 => Some((Note::Db, m)),
            _ => None,
        },
        Mode::Major => match h {
            1 => Some((Note::B, m)),
            2 => Some((Note::Fs, m)),
            3 => Some((Note::Db, m)),
            4 => Some((Note::Ab, m)),
            5 => Some((Note::Eb, m)),
            6 => Some((Note::Bb, m)),
            7 => Some((Note::F, m)),
            8 => Some((Note::C, m)),
            9 => Some((Note::G, m)),
            10 => Some((Note::D, m)),
            11 => Some((Note::A, m)),
            12 => Some((Note::E, m)),
            _ => None,
        },
    }
}

/// The key at an hour of the Open Key wheel, in the given mode.
pub open spec fn open_key_key(h: u8, m: Mode) -> Option<(Note, Mode)> {
    match m {
        Mode::Major => match h {
            1 => Some((Note::C, m)),
            2 => Some((Note::G, m)),
            3 => Some((Note::D, m)),
            4 => Some((Note::A, m)),
            5 => Some((Note::E, m)),
            6 => Some((Note::B, m)),
            7 => Some((Note::Fs, m)),
            8 => Some((Note::Db, m)),
            9 => Some((Note::Ab, m)),
            10 => Some((Note::Eb, m)),
            11 => Some((Note::Bb, m)),
            12 => Some((Note::F, m)),
            _ => None,
        },
        Mode::Minor => match h {
            1 => Some((Note::A, m)),
            2 => Some((Note::E, m)),
            3 => Some((Note::B, m)),
            4 => Some((Note::Fs, m)),
            5 => Some((Note::Db, m)),
            6 => Some((Note::Ab, m)),
            7 => Some((Note::Eb, m)),
            8 => Some((Note::Bb, m)),
            9 => Some((Note::F, m)),
            10 => Some((Note::C, m)),
            11 => Some((Note::G, m)),
            12 => Some((Note::D, m)),
            _ => None,
        },
    }
}

/// An ASCII decimal digit.
pub open spec fn is_digit(c: char) -> bool {
    '0' <= c && c <= '9'
}

/// The value of the decimal numeral `s` (all of whose characters are digits).
pub open spec fn decimal_value(s: Seq<char>) -> nat
    decreases s.len(),
{
    if s.len() == 0 {
        0
    } else {
        decimal_value(s.drop_last()) * 10 + ((s.last() as u32) - ('0' as u32)) as nat
    }
}

/// The digits of a `u8` numeral: the text without a leading `+` (when more follows).
pub open spec fn u8_digits(s: Seq<char>) -> Seq<char> {
    if s.len() > 1 && s[0] == '+' {
        s.drop_first()
    } else {
        s
    }
}

/// All characters of `s` are ASCII decimal digits.
pub open spec fn all_digits(s: Seq<char>) -> bool {
    forall|i: int| 0 <= i < s.len() ==> is_digit(#[trigger] s[i])
}

/// `<u8 as FromStr>::from_str`: an optional `+`, then one or more decimal
/// digits whose value is at most 255.
pub open spec fn parse_u8_spec(s: Seq<char>) -> Option<u8> {
    let digits = u8_digits(s);
    if digits.len() > 0 && all_digits(digits) && decimal_value(digits) <= 255 {
        Some(decimal_value(digits) as u8)
    } else {
        None
    }
}

/// Camelot notation (`8a`, `12b`, lower case): an hour, then `a` (minor) or `b` (major).
pub open spec fn parse_camelot_spec(s: Seq<char>) -> Option<(Note, Mode)> {
    if s.len() == 0 {
        None
    } else {
        match parse_u8_spec(s.drop_last()) {
            None => None,
            Some(h) => if s.last() == 'a' {
                camelot_key(h, Mode::Minor)
            } else if s.last() == 'b' {
                camelot_key(h, Mode::Major)
            } else {
                None
            },
        }
    }
}

/// Open Key notation (`1d`, `10m`, lower case): an hour, then `m` (minor) or `d` (major).
pub open spec fn parse_open_key_spec(s: Seq<char>) -> Option<(Note, Mode)> {
    if s.len() == 0 {
        None
    } else {
        match parse_u8_spec(s.drop_last()) {
            None => None,
            Some(h) => if s.last() == 'm' {
                open_key_key(h, Mode::Minor)
            } else if s.last() == 'd' {
                open_key_key(h, Mode::Major)
            } else {
                None
            },
        }
    }
}

/// The note of `s` in the given mode.
pub open spec fn with_mode(n: Option<Note>, m: Mode) -> Option<(Note, Mode)> {
    match n {
        Some(n) => Some((n, m)),
        None => None,
    }
}

pub open spec fn major_suffix() -> Seq<char> {
    seq![' ', 'm', 'a', 'j', 'o', 'r']
}

pub open spec fn minor_suffix() -> Seq<char> {
    seq![' ', 'm', 'i', 'n', 'o', 'r']
}

/// The key that a text denotes, in any notation, ignoring ASCII case and
/// surrounding white space. The forms are tried in this order:
/// `<note> major`, `<note> minor`, `<note>m`, Camelot, Open Key, `<note>`.
/// A text that has one of the first three forms denotes a key only if its
/// note part names one.
pub open spec fn parse_any_key_spec(input: Seq<char>) -> Option<(Note, Mode)> {
    let lower = ascii_lower(trim(input));
    match strip_suffix(lower, major_suffix()) {
        Some(note) => with_mode(canonical_note_spec(note), Mode::Major),
        None => match strip_suffix(lower, minor_suffix()) {
            Some(note) => with_mode(canonical_note_spec(note), Mode::Minor),
            None => match strip_suffix(lower, seq!['m']) {
                Some(note) => with_mode(canonical_note_spec(note), Mode::Minor),
                None => match parse_camelot_spec(lower) {
                    Some(k) => Some(k),
                    None => match parse_open_key_spec(lower) {
                        Some(k) => Some(k),
                        None => with_mode(canonical_note_spec(lower), Mode::Major),
                    },
                },
            },
        },
    }
}

/// The texts on which reading a key does not panic: those whose last
/// non-space character is ASCII (the Camelot and Open Key readers split the
/// text one byte before its end).
pub open spec fn key_text_ok(input: Seq<char>) -> bool {
    trim(input).len() == 0 || (trim(input).last() as u32) < 0x80
}

/// The decimal numeral of an hour of a key wheel.
pub open spec fn hour_text(h: u8) -> Seq<char> {
    match h {
        1 => seq!['1'],
        2 => seq!['2'],
        3 => seq!['3'],
        4 => seq!['4'],
        5 => seq!['5'],
        6 => seq!['6'],
        7 => seq!['7'],
        8 => seq!['8'],
        9 => seq!['9'],
        10 => seq!['1', '0'],
        11 => seq!['1', '1'],
        _ => seq!['1', '2'],
    }
}

/// Standard shorthand: the note, followed by `m` for minor keys.
pub open spec fn standard_text(n: Note, m: Mode) -> Seq<char> {
    match m {
        Mode::Major => note_name(n),
        Mode::Minor => note_name(n).push('m'),
    }
}

/// Camelot code: the hour, then `A` (minor) or `B` (major).
pub open spec fn camelot_text(n: Note, m: Mode) -> Seq<char> {
    hour_text(camelot_hour(n, m)).push(
        match m {
            Mode::Minor => 'A',
            Mode::Major => 'B',
        },
    )
}

/// Open Key code: the hour, then `m` (minor) or `d` (major).
pub open spec fn open_key_text(n: Note, m: Mode) -> Seq<char> {
    hour_text(open_key_hour(n, m)).push(
        match m {
            Mode::Minor => 'm',
            Mode::Major => 'd',
        },
    )
}

/// A key written in a format.
pub open spec fn key_text(n: Note, m: Mode, f: KeyFormat) -> Seq<char> {
    match f {
        KeyFormat::Standard => standard_text(n, m),
        KeyFormat::Camelot => camelot_text(n, m),
        KeyFormat::OpenKey => open_key_text(n, m),
    }
}

/// The long form of a key: the note, then ` major` or ` minor`.
pub open spec fn long_text(n: Note, m: Mode) -> Seq<char> {
    match m {
        Mode::Major => note_name(n) + major_suffix(),
        Mode::Minor => note_name(n) + minor_suffix(),
    }
}

/// What `format_key` gives: the key that `input` denotes, written in `f`.
pub open spec fn format_key_spec(input: Seq<char>, f: KeyFormat) -> Option<Seq<char>> {
    match parse_any_key_spec(input) {
        Some((n, m)) => Some(key_text(n, m, f)),
        None => None,
    }
}

/// What `normalize_key_label` gives: the key that `input` denotes, in long form.
pub open spec fn normalize_key_spec(input: Seq<char>) -> Option<Seq<char>> {
    match parse_any_key_spec(input) {
        Some((n, m)) => Some(long_text(n, m)),
        None => None,
    }
}


/// The note named by `note` (lower case, surrounding white space ignored).
fn canonical_note(note: &[char]) -> (r: Option<Note>)
    ensures
        r == canonical_note_spec(note@),
{
    let t = trim_chars(note);
    if t.len() == 1 {
        let c = t[0];
        assert(t@ == seq![c]);
        if c == 'c' {
            Some(Note::C)
        } else if c == 'd' {
            Some(Note::D)
        } else if c == 'e' {
            Some(Note::E)
        } else if c == 'f' {
            Some(Note::F)
        } else if c == 'g' {
            Some(Note::G)
        } else if c == 'a' {
            Some(Note::A)
        } else if c == 'b' {
            Some(Note::B)
        } else {
            None
        }
    } else if t.len() == 2 {
        let a = t[0];
        let b = t[1];
        assert(t@ == seq![a, b]);
        if (a == 'c' && b == '#') || (a == 'd' && b == 'b') {
            Some(Note::Db)
        } else if (a == 'd' && b == '#') || (a == 'e' && b == 'b') {
            Some(Note::Eb)
        } else if (a == 'f' && b == '#') || (a == 'g' && b == 'b') {
            Some(Note::Fs)
        } else if (a == 'g' && b == '#') || (a == 'a' && b == 'b') {
            Some(Note::Ab)
        } else if (a == 'a' && b == '#') || (a == 'b' && b == 'b') {
            Some(Note::Bb)
        } else {
            None
        }
    } else {
        None
    }
}

/// `<u8 as FromStr>::from_str` on characters.
fn parse_u8(s: &[char]) -> (r: Option<u8>)
    ensures
        r == parse_u8_spec(s@),
{
    let start: usize = if s.len() > 1 && s[0] == '+' {
        1
    } else {
        0
    };
    let ghost digits = s@.subrange(start as int, s@.len() as int);
    assert(digits == u8_digits(s@));
    if start == s.len() {
        return None;
    }
    let mut acc: u32 = 0;
    let mut i = start;
    assert(s@.subrange(start as int, start as int) == Seq::<char>::empty());
    while i < s.len()
        invariant
            start <= i <= s@.len(),
            digits == s@.subrange(start as int, s@.len() as int),
            digits == u8_digits(s@),
            forall|k: int| start <= k < i ==> is_digit(#[trigger] s@[k]),
            acc == (if decimal_value(s@.subrange(start as int, i as int)) < 256 {
                decimal_value(s@.subrange(start as int, i as int))
            } else {
                256
            }),
        decreases s@.len() - i,
    {
        let c = s[i];
        if !('0' <= c && c <= '9') {
            assert(digits[i - start] == c);
            assert(!is_digit(digits[i - start]));
            return None;
        }
        let d = (c as u32) - ('0' as u32);
        assert(s@.subrange(start as int, i + 1).drop_last() == s@.subrange(start as int, i as int));
        assert(s@.subrange(start as int, i + 1).last() == c);
        if acc < 256 {
            acc = acc * 10 + d;
            if acc > 256 {
                acc = 256;
            }
        }
        i = i + 1;
    }
    assert(s@.subrange(start as int, i as int) == digits);
    assert forall|k: int| 0 <= k < digits.len() implies is_digit(#[trigger] digits[k]) by {
        assert(digits[k] == s@[k + start]);
    }
    if acc <= 255 {
        Some(acc as u8)
    } else {
        None
    }
}

fn camelot_key_of(h: u8, m: Mode) -> (r: Option<(Note, Mode)>)
    ensures
        r == camelot_key(h, m),
{
    match m {
        Mode::Minor => match h {
            1 => Some((Note::Ab, m)),
            2 => Some((Note::Eb, m)),
            3 => Some((Note::Bb, m)),
            4 => Some((Note::F, m)),
            5 => Some((Note::C, m)),
            6 => Some((Note::G, m)),
            7 => Some((Note::D, m)),
            8 => Some((Note::A, m)),
            9 => Some((Note::E, m)),
            10 => Some((Note::B, m)),
            11 => Some((Note::Fs, m)),
            12 => Some((Note::Db, m)),
            _ => None,
        },
        Mode::Major => match h {
            1 => Some((Note::B, m)),
            2 => Some((Note::Fs, m)),
            3 => Some((Note::Db, m)),
            4 => Some((Note::Ab, m)),
            5 => Some((Note::Eb, m)),
            6 => Some((Note::Bb, m)),
            7 => Some((Note::F, m)),
            8 => Some((Note::C, m)),
            9 => Some((Note::G, m)),
            10 => Some((Note::D, m)),
            11 => Some((Note::A, m)),
            12 => Some((Note::E, m)),
            _ => None,
        },
    }
}

fn open_key_key_of(h: u8, m: Mode) -> (r: Option<(Note, Mode)>)
    ensures
        r == open_key_key(h, m),
{
    match m {
        Mode::Major => match h {
            1 => Some((Note::C, m)),
            2 => Some((Note::G, m)),
            3 => Some((Note::D, m)),
            4 => Some((Note::A, m)),
            5 => Some((Note::E, m)),
            6 => Some((Note::B, m)),
            7 => Some((Note::Fs, m)),
            8 => Some((Note::Db, m)),
            9 => Some((Note::Ab, m)),
            10 => Some((Note::Eb, m)),
            11 => Some((Note::Bb, m)),
            12 => Some((Note::F, m)),
            _ => None,
        },
        Mode::Minor => match h {
            1 => Some((Note::A, m)),
            2 => Some((Note::E, m)),
            3 => Some((Note::B, m)),
            4 => Some((Note::Fs, m)),
            5 => Some((Note::Db, m)),
            6 => Some((Note::Ab, m)),
            7 => Some((Note::Eb, m)),
            8 => Some((Note::Bb, m)),
            9 => Some((Note::F, m)),
            10 => Some((Note::C, m)),
            11 => Some((Note::G, m)),
            12 => Some((Note::D, m)),
            _ => None,
        },
    }
}

/// Reads Camelot notation (lower case, already trimmed).
fn parse_camelot(input: &[char]) -> (r: Option<(Note, Mode)>)
    ensures
        r == parse_camelot_spec(input@),
{
    if input.len() == 0 {
        return None;
    }
    let number = crate::text::slice_chars(input, 0, input.len() - 1);
    assert(number@ == input@.drop_last());
    let mode_char = input[input.len() - 1];
    let hour = match parse_u8(number.as_slice()) {
        Some(h) => h,
        None => return None,
    };
    if mode_char == 'a' {
        camelot_key_of(hour, Mode::Minor)
    } else if mode_char == 'b' {
        camelot_key_of(hour, Mode::Major)
    } else {
        None
    }
}

/// Reads Open Key notation (lower case, already trimmed).
fn parse_open_key(input: &[char]) -> (r: Option<(Note, Mode)>)
    ensures
        r == parse_open_key_spec(input@),
{
    if input.len() == 0 {
        return None;
    }
    let number = crate::text::slice_chars(input, 0, input.len() - 1);
    assert(number@ == input@.drop_last());
    let mode_char = input[input.len() - 1];
    let hour = match parse_u8(number.as_slice()) {
        Some(h) => h,
        None => return None,
    };
    if mode_char == 'm' {
        open_key_key_of(hour, Mode::Minor)
    } else if mode_char == 'd' {
        open_key_key_of(hour, Mode::Major)
    } else {
        None
    }
}

fn note_in_mode(note: &[char], m: Mode) -> (r: Option<(Note, Mode)>)
    ensures
        r == with_mode(canonical_note_spec(note@), m),
{
    match canonical_note(note) {
        Some(n) => Some((n, m)),
        None => None,
    }
}

/// Reads a key in any notation (see `parse_any_key_spec`).
fn parse_any_key(input: &[char]) -> (r: Option<(Note, Mode)>)
    requires
        key_text_ok(input@),
    ensures
        r == parse_any_key_spec(input@),
{
    let trimmed = trim_chars(input);
    let lower = lower_ascii(trimmed.as_slice());
    let major: [char; 6] = [' ', 'm', 'a', 'j', 'o', 'r'];
    let minor: [char; 6] = [' ', 'm', 'i', 'n', 'o', 'r'];
    let m: [char; 1] = ['m'];
    assert(major@ == major_suffix());
    assert(minor@ == minor_suffix());
    assert(m@ == seq!['m']);
    if let Some(note) = strip_suffix_chars(lower.as_slice(), major.as_slice()) {
        return note_in_mode(note.as_slice(), Mode::Major);
    }
    if let Some(note) = strip_suffix_chars(lower.as_slice(), minor.as_slice()) {
        return note_in_mode(note.as_slice(), Mode::Minor);
    }
    if let Some(note) = strip_suffix_chars(lower.as_slice(), m.as_slice()) {
        return note_in_mode(note.as_slice(), Mode::Minor);
    }
    if let Some(code) = parse_camelot(lower.as_slice()) {
        return Some(code);
    }
    if let Some(code) = parse_open_key(lower.as_slice()) {
        return Some(code);
    }
    note_in_mode(lower.as_slice(), Mode::Major)
}


/// The written name of a note.
fn note_string(n: Note) -> (r: String)
    ensures
        r@ == note_name(n),
{
    let mut s = String::new();
    match n {
        Note::C => push_chars(&mut s, &['C']),
        Note::Db => push_chars(&mut s, &['D', 'b']),
        Note::D => push_chars(&mut s, &['D']),
        Note::Eb => push_chars(&mut s, &['E', 'b']),
        Note::E => push_chars(&mut s, &['E']),
        Note::F => push_chars(&mut s, &['F']),
        Note::Fs => push_chars(&mut s, &['F', '#']),
        Note::G => push_chars(&mut s, &['G']),
        Note::Ab => push_chars(&mut s, &['A', 'b']),
        Note::A => push_chars(&mut s, &['A']),
        Note::Bb => push_chars(&mut s, &['B', 'b']),
        Note::B => push_chars(&mut s, &['B']),
    }
    s
}

/// Appends the numeral of a wheel hour.
fn push_hour(s: &mut String, h: u8)
    requires
        1 <= h <= 12,
    ensures
        final(s)@ == old(s)@ + hour_text(h),
{
    match h {
        1 => push_chars(s, &['1']),
        2 => push_chars(s, &['2']),
        3 => push_chars(s, &['3']),
        4 => push_chars(s, &['4']),
        5 => push_chars(s, &['5']),
        6 => push_chars(s, &['6']),
        7 => push_chars(s, &['7']),
        8 => push_chars(s, &['8']),
        9 => push_chars(s, &['9']),
        10 => push_chars(s, &['1', '0']),
        11 => push_chars(s, &['1', '1']),
        _ => push_chars(s, &['1', '2']),
    }
}

fn camelot_hour_of(n: Note, m: Mode) -> (h: u8)
    ensures
        h == camelot_hour(n, m),
        1 <= h <= 12,
{
    match m {
        Mode::Major => match n {
            Note::C => 8,
            Note::Db => 3,
            Note::D => 10,
            Note::Eb => 5,
            Note::E => 12,
            Note::F => 7,
            Note::Fs => 2,
            Note::G => 9,
            Note::Ab => 4,
            Note::A => 11,
            Note::Bb => 6,
            Note::B => 1,
        },
        Mode::Minor => match n {
            Note::A => 8,
            Note::Bb => 3,
            Note::B => 10,
            Note::C => 5,
            Note::Db => 12,
            Note::D => 7,
            Note::Eb => 2,
            Note::E => 9,
            Note::F => 4,
            Note::Fs => 11,
            Note::G => 6,
            Note::Ab => 1,
        },
    }
}

fn open_key_hour_of(n: Note, m: Mode) -> (h: u8)
    ensures
        h == open_key_hour(n, m),
        1 <= h <= 12,
{
    match m {
        Mode::Major => match n {
            Note::C => 1,
            Note::G => 2,
            Note::D => 3,
            Note::A => 4,
            Note::E => 5,
            Note::B => 6,
            Note::Fs => 7,
            Note::Db => 8,
            Note::Ab => 9,
            Note::Eb => 10,
            Note::Bb => 11,
            Note::F => 12,
        },
        Mode::Minor => match n {
            Note::A => 1,
            Note::E => 2,
            Note::B => 3,
            Note::Fs => 4,
            Note::Db => 5,
            Note::Ab => 6,
            Note::Eb => 7,
            Note::Bb => 8,
            Note::F => 9,
            Note::C => 10,
            Note::G => 11,
            Note::D => 12,
        },
    }
}

/// Standard shorthand: `Db`, `Dbm`.
fn standard_shorthand(n: Note, m: Mode) -> (r: String)
    ensures
        r@ == standard_text(n, m),
{
    let mut s = note_string(n);
    match m {
        Mode::Major => {},
        Mode::Minor => push_char(&mut s, 'm'),
    }
    s
}

/// Camelot code: `3B`, `12A`.
fn camelot_code(n: Note, m: Mode) -> (r: String)
    ensures
        r@ == camelot_text(n, m),
{
    let mut s = String::new();
    push_hour(&mut s, camelot_hour_of(n, m));
    match m {
        Mode::Minor => push_char(&mut s, 'A'),
        Mode::Major => push_char(&mut s, 'B'),
    }
    s
}

/// Open Key code: `8d`, `5m`.
fn open_key_code(n: Note, m: Mode) -> (r: String)
    ensures
        r@ == open_key_text(n, m),
{
    let mut s = String::new();
    push_hour(&mut s, open_key_hour_of(n, m));
    match m {
        Mode::Minor => push_char(&mut s, 'm'),
        Mode::Major => push_char(&mut s, 'd'),
    }
    s
}

/// Writes the key that `standard_name` denotes (in any notation) in the
/// requested format; `None` when the text denotes no key.
pub fn format_key(standard_name: &str, format: KeyFormat) -> (r: Option<String>)
    requires
        key_text_ok(standard_name@),
    ensures
        r.deep_view() == format_key_spec(standard_name@, format),
{
    let input = chars_of(standard_name);
    let (n, m) = match parse_any_key(input.as_slice()) {
        Some(k) => k,
        None => return None,
    };
    match format {
        KeyFormat::Standard => Some(standard_shorthand(n, m)),
        KeyFormat::Camelot => Some(camelot_code(n, m)),
        KeyFormat::OpenKey => Some(open_key_code(n, m)),
    }
}

/// The long form (`Db major`, `A minor`) of the key that `input` denotes;
/// `None` when the text denotes no key.
pub fn normalize_key_label(input: &str) -> (r: Option<String>)
    requires
        key_text_ok(input@),
    ensures
        r.deep_view() == normalize_key_spec(input@),
{
    let chars = chars_of(input);
    normalize_key_chars(chars.as_slice())
}

/// `normalize_key_label` on characters.
pub fn normalize_key_chars(input: &[char]) -> (r: Option<String>)
    requires
        key_text_ok(input@),
    ensures
        r.deep_view() == normalize_key_spec(input@),
{
    let (n, m) = match parse_any_key(input) {
        Some(k) => k,
        None => return None,
    };
    let mut s = note_string(n);
    match m {
        Mode::Major => push_chars(&mut s, &[' ', 'm', 'a', 'j', 'o', 'r']),
        Mode::Minor => push_chars(&mut s, &[' ', 'm', 'i', 'n', 'o', 'r']),
    }
    Some(s)
}

/// Whether `input` can be read as a key without panicking (`key_text_ok`).
pub fn key_text_readable(input: &str) -> (r: bool)
    ensures
        r == key_text_ok(input@),
{
    let chars = chars_of(input);
    key_chars_readable(chars.as_slice())
}

/// `key_text_readable` on characters.
pub fn key_chars_readable(input: &[char]) -> (r: bool)
    ensures
        r == key_text_ok(input@),
{
    let t = trim_chars(input);
    t.len() == 0 || (t[t.len() - 1] as u32) < 0x80
}

/// The lower-case name of a note.
pub open spec fn lower_note_name(n: Note) -> Seq<char> {
    match n {
        Note::C => seq!['c'],
        Note::Db => seq!['d', 'b'],
        Note::D => seq!['d'],
        Note::Eb => seq!['e', 'b'],
        Note::E => seq!['e'],
        Note::F => seq!['f'],
        Note::Fs => seq!['f', '#'],
        Note::G => seq!['g'],
        Note::Ab => seq!['a', 'b'],
        Note::A => seq!['a'],
        Note::Bb => seq!['b', 'b'],
        Note::B => seq!['b'],
    }
}

proof fn lemma_trim_clean(s: Seq<char>)
    requires
        s.len() > 0,
        !crate::text::is_space(s[0]),
        !crate::text::is_space(s.last()),
    ensures
        trim(s) == s,
{
    assert(crate::text::trim_start(s) == s);
    assert(crate::text::trim_end(s) == s);
}

proof fn lemma_ascii_lower_concat(a: Seq<char>, b: Seq<char>)
    ensures
        ascii_lower(a + b) == ascii_lower(a) + ascii_lower(b),
{
    assert(ascii_lower(a + b) =~= ascii_lower(a) + ascii_lower(b));
}

proof fn lemma_lower_note_name(n: Note)
    ensures
        ascii_lower(note_name(n)) == lower_note_name(n),
        canonical_note_spec(lower_note_name(n)) == Some(n),
        1 <= note_name(n).len() <= 2,
        note_name(n).len() == lower_note_name(n).len(),
        'A' <= note_name(n)[0] <= 'G',
        'a' <= lower_note_name(n)[0] <= 'g',
        lower_note_name(n).last() != 'm',
        !is_digit(lower_note_name(n).last()),
        !is_digit(lower_note_name(n)[0]),
        (lower_note_name(n).last() as u32) < 0x80,
        !crate::text::is_space(lower_note_name(n).last()),
        !crate::text::is_space(note_name(n).last()),
{
    assert(ascii_lower(note_name(n)) =~= lower_note_name(n));
    lemma_trim_clean(lower_note_name(n));
}

proof fn lemma_parse_hour(h: u8)
    requires
        1 <= h <= 12,
    ensures
        parse_u8_spec(hour_text(h)) == Some(h),
        ascii_lower(hour_text(h)) == hour_text(h),
        hour_text(h).len() >= 1,
        all_digits(hour_text(h)),
{
    let t = hour_text(h);
    if h < 10 {
        assert(t.drop_last() =~= Seq::<char>::empty());
        assert(decimal_value(t.drop_last()) == 0);
        assert(decimal_value(t) == h);
    } else {
        let u = t.drop_last();
        assert(u =~= seq!['1']);
        assert(u.drop_last() =~= Seq::<char>::empty());
        assert(decimal_value(u.drop_last()) == 0);
        assert(decimal_value(u) == 1);
        assert(decimal_value(t) == h);
    }
    assert(u8_digits(t) == t);
    assert(ascii_lower(t) =~= t);
}

/// A note name, alone: the note in major.
proof fn lemma_read_bare_note(n: Note)
    ensures
        parse_any_key_spec(note_name(n)) == Some((n, Mode::Major)),
        key_text_ok(note_name(n)),
{
    lemma_lower_note_name(n);
    let s = note_name(n);
    let l = lower_note_name(n);
    lemma_trim_clean(s);
    assert(trim(s) == s);
    assert(l.subrange(l.len() - 1, l.len() as int)[0] == l.last());
    assert(!crate::text::ends_with(l, seq!['m']));
    // the Camelot and Open Key readers need digits before the last character
    assert(parse_u8_spec(l.drop_last()) is None) by {
        let d = u8_digits(l.drop_last());
        if l.len() == 2 {
            assert(l.drop_last() =~= seq![l[0]]);
            assert(d == l.drop_last());
            assert(!is_digit(d[0]));
        } else {
            assert(l.drop_last().len() == 0);
        }
    }
}


/// A note name followed by `m`: the note in minor.
proof fn lemma_read_minor_shorthand(n: Note)
    ensures
        parse_any_key_spec(note_name(n).push('m')) == Some((n, Mode::Minor)),
        key_text_ok(note_name(n).push('m')),
{
    lemma_lower_note_name(n);
    let s = note_name(n).push('m');
    let l = lower_note_name(n).push('m');
    lemma_trim_clean(s);
    lemma_ascii_lower_concat(note_name(n), seq!['m']);
    assert(note_name(n).push('m') == note_name(n) + seq!['m']);
    assert(ascii_lower(seq!['m']) =~= seq!['m']);
    assert(ascii_lower(s) == l);
    assert(l.subrange(0, l.len() - 1) =~= lower_note_name(n));
    assert(l.subrange(l.len() - 1, l.len() as int) =~= seq!['m']);
}

/// The long form of a key names it.
proof fn lemma_read_long(n: Note, m: Mode)
    ensures
        parse_any_key_spec(long_text(n, m)) == Some((n, m)),
        key_text_ok(long_text(n, m)),
{
    lemma_lower_note_name(n);
    let suffix = match m {
        Mode::Major => major_suffix(),
        Mode::Minor => minor_suffix(),
    };
    let s = note_name(n) + suffix;
    assert(s == long_text(n, m));
    let l = lower_note_name(n) + suffix;
    lemma_trim_clean(s);
    lemma_ascii_lower_concat(note_name(n), suffix);
    assert(ascii_lower(suffix) =~= suffix);
    assert(ascii_lower(s) == l);
    assert(l.subrange(0, l.len() - 6) =~= lower_note_name(n));
    assert(l.subrange(l.len() - 6, l.len() as int) =~= suffix);
    if m == Mode::Minor {
        assert(l.subrange(l.len() - 6, l.len() as int)[3] != major_suffix()[3]);
    }
}

/// A Camelot code names its key.
proof fn lemma_read_camelot(n: Note, m: Mode)
    ensures
        parse_any_key_spec(camelot_text(n, m)) == Some((n, m)),
        key_text_ok(camelot_text(n, m)),
{
    let h = camelot_hour(n, m);
    lemma_parse_hour(h);
    let letter = match m {
        Mode::Minor => 'A',
        Mode::Major => 'B',
    };
    let lower_letter = match m {
        Mode::Minor => 'a',
        Mode::Major => 'b',
    };
    let s = hour_text(h).push(letter);
    let l = hour_text(h).push(lower_letter);
    assert(s == camelot_text(n, m));
    lemma_trim_clean(s);
    assert(hour_text(h).push(letter) == hour_text(h) + seq![letter]);
    lemma_ascii_lower_concat(hour_text(h), seq![letter]);
    assert(ascii_lower(seq![letter]) =~= seq![lower_letter]);
    assert(ascii_lower(s) =~= l);
    assert(l.len() < 6);
    assert(l.subrange(l.len() - 1, l.len() as int)[0] == lower_letter);
    assert(l.drop_last() =~= hour_text(h));
}

/// An Open Key code of a major key names it.
proof fn lemma_read_open_key_major(n: Note)
    ensures
        parse_any_key_spec(open_key_text(n, Mode::Major)) == Some((n, Mode::Major)),
        key_text_ok(open_key_text(n, Mode::Major)),
{
    let h = open_key_hour(n, Mode::Major);
    lemma_parse_hour(h);
    let s = hour_text(h).push('d');
    assert(s == open_key_text(n, Mode::Major));
    lemma_trim_clean(s);
    assert(hour_text(h).push('d') == hour_text(h) + seq!['d']);
    lemma_ascii_lower_concat(hour_text(h), seq!['d']);
    assert(ascii_lower(seq!['d']) =~= seq!['d']);
    assert(ascii_lower(s) =~= s);
    assert(s.len() < 6);
    assert(s.subrange(s.len() - 1, s.len() as int)[0] == 'd');
    assert(s.drop_last() =~= hour_text(h));
}

/// Reading back what was written in a format gives the key that was written,
/// except for minor keys in Open Key notation (whose trailing `m` is read
/// as the minor shorthand of a note name).
pub proof fn lemma_read_written_key(n: Note, m: Mode, f: KeyFormat)
    requires
        !(f == KeyFormat::OpenKey && m == Mode::Minor),
    ensures
        parse_any_key_spec(key_text(n, m, f)) == Some((n, m)),
        key_text_ok(key_text(n, m, f)),
{
    match f {
        KeyFormat::Standard => match m {
            Mode::Major => lemma_read_bare_note(n),
            Mode::Minor => lemma_read_minor_shorthand(n),
        },
        KeyFormat::Camelot => lemma_read_camelot(n, m),
        KeyFormat::OpenKey => lemma_read_open_key_major(n),
    }
}

/// Converting a key to Standard or Camelot notation (or a major key to Open
/// Key notation) loses nothing: converting the result to any format gives
/// what converting the original text gives.
pub proof fn law_format_round_trip(input: Seq<char>, f: KeyFormat, g: KeyFormat)
    requires
        format_key_spec(input, f) is Some,
        f == KeyFormat::OpenKey ==> parse_any_key_spec(input).unwrap().1 == Mode::Major,
    ensures
        key_text_ok(format_key_spec(input, f).unwrap()),
        format_key_spec(format_key_spec(input, f).unwrap(), g) == format_key_spec(input, g),
{
    let (n, m) = parse_any_key_spec(input).unwrap();
    lemma_read_written_key(n, m, f);
}

/// The long form of a key names the same key: normalizing is idempotent,
/// and formatting a normalized label gives what formatting the original gives.
pub proof fn law_normalize_idempotent(input: Seq<char>, g: KeyFormat)
    requires
        normalize_key_spec(input) is Some,
    ensures
        key_text_ok(normalize_key_spec(input).unwrap()),
        normalize_key_spec(normalize_key_spec(input).unwrap()) == normalize_key_spec(input),
        format_key_spec(normalize_key_spec(input).unwrap(), g) == format_key_spec(input, g),
{
    let (n, m) = parse_any_key_spec(input).unwrap();
    lemma_read_long(n, m);
}

/// The formats cycle Standard, Camelot, Open Key: stepping three times
/// returns to the start, and every step changes the format.
pub proof fn law_next_cycles(f: KeyFormat)
    ensures
        next_format(KeyFormat::Standard) == KeyFormat::Camelot,
        next_format(KeyFormat::Camelot) == KeyFormat::OpenKey,
        next_format(next_format(next_format(f))) == f,
        next_format(f) != f,
        next_format(next_format(f)) != f,
{
}

/// The pitch class of a note, in semitones above C.
pub open spec fn semitone(n: Note) -> int {
    match n {
        Note::C => 0,
        Note::Db => 1,
        Note::D => 2,
        Note::Eb => 3,
        Note::E => 4,
        Note::F => 5,
        Note::Fs => 6,
        Note::G => 7,
        Note::Ab => 8,
        Note::A => 9,
        Note::Bb => 10,
        Note::B => 11,
    }
}

/// The note `k` semitones above C (`k` taken modulo twelve).
pub open spec fn note_at(k: int) -> Note {
    let r = k % 12;
    if r == 0 {
        Note::C
    } else if r == 1 {
        Note::Db
    } else if r == 2 {
        Note::D
    } else if r == 3 {
        Note::Eb
    } else if r == 4 {
        Note::E
    } else if r == 5 {
        Note::F
    } else if r == 6 {
        Note::Fs
    } else if r == 7 {
        Note::G
    } else if r == 8 {
        Note::Ab
    } else if r == 9 {
        Note::A
    } else if r == 10 {
        Note::Bb
    } else {
        Note::B
    }
}

/// Every Camelot code and every Open Key code reads back as the key it was
/// written for: the Camelot reader takes the code once lowered (as
/// reading any key lowers it first), and not before.
pub proof fn law_codes_read_back(n: Note, m: Mode)
    ensures
        parse_camelot_spec(ascii_lower(camelot_text(n, m))) == Some((n, m)),
        parse_camelot_spec(camelot_text(n, m)) is None,
        parse_open_key_spec(open_key_text(n, m)) == Some((n, m)),
        parse_any_key_spec(camelot_text(n, m)) == Some((n, m)),
{
    let h = camelot_hour(n, m);
    lemma_parse_hour(h);
    let letter = match m {
        Mode::Minor => 'A',
        Mode::Major => 'B',
    };
    let lower_letter = match m {
        Mode::Minor => 'a',
        Mode::Major => 'b',
    };
    assert(hour_text(h).push(letter) == hour_text(h) + seq![letter]);
    lemma_ascii_lower_concat(hour_text(h), seq![letter]);
    assert(ascii_lower(seq![letter]) =~= seq![lower_letter]);
    let l = ascii_lower(camelot_text(n, m));
    assert(l =~= hour_text(h).push(lower_letter));
    assert(l.drop_last() =~= hour_text(h));
    assert(camelot_text(n, m).drop_last() =~= hour_text(h));
    let o = open_key_hour(n, m);
    lemma_parse_hour(o);
    assert(open_key_text(n, m).drop_last() =~= hour_text(o));
    lemma_read_camelot(n, m);
}

/// The Camelot wheel: hours run from 1 to 12, C major stands at 8, each
/// key has its own code,
/// the key a fifth up (in the same mode) is one hour on, and a major key
/// shares its hour with its relative minor (three semitones below).
pub proof fn law_camelot_wheel(n: Note, m: Mode, n2: Note, m2: Mode)
    ensures
        1 <= camelot_hour(n, m) <= 12,
        camelot_hour(Note::C, Mode::Major) == 8,
        camelot_text(n, m) == camelot_text(n2, m2) ==> n == n2 && m == m2,
        camelot_hour(note_at(semitone(n) + 7), m) == camelot_hour(n, m) % 12 + 1,
        camelot_hour(note_at(semitone(n) + 9), Mode::Minor) == camelot_hour(n, Mode::Major),
{
    if camelot_text(n, m) == camelot_text(n2, m2) {
        let h = camelot_hour(n, m);
        let h2 = camelot_hour(n2, m2);
        assert(camelot_text(n, m).last() == camelot_text(n2, m2).last());
        assert(m == m2);
        assert(camelot_text(n, m).drop_last() =~= hour_text(h));
        assert(camelot_text(n2, m2).drop_last() =~= hour_text(h2));
        lemma_parse_hour(h);
        lemma_parse_hour(h2);
        assert(h == h2);
    }
}

/// An Open Key hour is the Camelot hour moved on by five (the hour plus
/// four, modulo twelve, plus one), with `d` for major and `m` for minor.
pub proof fn law_open_key_from_camelot(n: Note, m: Mode)
    ensures
        open_key_hour(n, m) == (camelot_hour(n, m) + 4) % 12 + 1,
        open_key_text(n, m) == hour_text(((camelot_hour(n, m) + 4) % 12 + 1) as u8).push(
            match m {
                Mode::Minor => 'm',
                Mode::Major => 'd',
            },
        ),
{
}

/// Reading a key ignores ASCII case and surrounding white space: raising
/// the letters of the text, or padding it with spaces, names the same key
/// (and can be read exactly when the text can).
pub proof fn law_reading_ignores_case_and_spaces(s: Seq<char>)
    ensures
        parse_any_key_spec(crate::text::ascii_upper(s)) == parse_any_key_spec(s),
        normalize_key_spec(crate::text::ascii_upper(s)) == normalize_key_spec(s),
        key_text_ok(crate::text::ascii_upper(s)) == key_text_ok(s),
        parse_any_key_spec(seq![' '] + s + seq![' ']) == parse_any_key_spec(s),
        normalize_key_spec(seq![' '] + s + seq![' ']) == normalize_key_spec(s),
        key_text_ok(seq![' '] + s + seq![' ']) == key_text_ok(s),
{
    crate::text::lemma_trim_upper(s);
    crate::text::lemma_trim_upper(trim(s));
    crate::text::lemma_trim_padded(s);
    let t = trim(s);
    if t.len() > 0 {
        assert(crate::text::ascii_upper(t).last() == crate::text::upper_char(t.last()));
    }
}

/// The pitch class, in semitones above C, of a natural note's letter.
pub open spec fn letter_semitone(c: char) -> Option<int> {
    if c == 'c' {
        Some(0)
    } else if c == 'd' {
        Some(2)
    } else if c == 'e' {
        Some(4)
    } else if c == 'f' {
        Some(5)
    } else if c == 'g' {
        Some(7)
    } else if c == 'a' {
        Some(9)
    } else if c == 'b' {
        Some(11)
    } else {
        None
    }
}

/// Note names are read by pitch: a letter names its natural note, a sharp
/// one semitone above it, and a flat one semitone below it (for the sharps
/// and flats this notation writes: `c#`, `d#`, `f#`, `g#`, `a#` and `db`,
/// `eb`, `gb`, `ab`, `bb`), so enharmonic spellings name the same note.
pub proof fn law_note_names_by_pitch(c: char)
    ensures
        letter_semitone(c) matches Some(k) ==> (canonical_note_spec(seq![c]) matches Some(n)
            && semitone(n) == k),
        c != 'e' && c != 'b' ==> (letter_semitone(c) matches Some(k) ==> (canonical_note_spec(
            seq![c, '#'],
        ) matches Some(n) && semitone(n) == k + 1)),
        c != 'c' && c != 'f' ==> (letter_semitone(c) matches Some(k) ==> (canonical_note_spec(
            seq![c, 'b'],
        ) matches Some(n) && semitone(n) == k - 1)),
{
    if letter_semitone(c) is Some {
        lemma_trim_two(c, '#');
        lemma_trim_two(c, 'b');
        lemma_trim_one(c);
    }
}

proof fn lemma_trim_one(c: char)
    requires
        letter_semitone(c) is Some,
    ensures
        trim(seq![c]) == seq![c],
{
    assert(!crate::text::is_space(c));
    assert(crate::text::trim_start(seq![c]) == seq![c]);
    assert(crate::text::trim_end(seq![c]) == seq![c]);
}

proof fn lemma_trim_two(c: char, d: char)
    requires
        letter_semitone(c) is Some,
        d == '#' || d == 'b',
    ensures
        trim(seq![c, d]) == seq![c, d],
{
    let s = seq![c, d];
    assert(s[0] == c && s.last() == d);
    assert(crate::text::trim_start(s) == s);
    assert(crate::text::trim_end(s) == s);
}

/// A sharp or flat note name followed by `m` is read as the minor key of
/// that note (so `g#m` is A-flat minor, the note one semitone above G).
pub proof fn law_minor_shorthand_by_pitch(c: char, d: char)
    requires
        letter_semitone(c) is Some,
        d == '#' || d == 'b',
        canonical_note_spec(seq![c, d]) is Some,
    ensures
        parse_any_key_spec(seq![c, d, 'm']) == Some((canonical_note_spec(seq![c, d]).unwrap(), Mode::Minor)),
{
    let s = seq![c, d, 'm'];
    assert(s[0] == c && s.last() == 'm');
    assert(crate::text::trim_start(s) == s);
    assert(crate::text::trim_end(s) == s);
    assert(ascii_lower(s) =~= s);
    lemma_trim_two(c, d);
    assert(s.subrange(s.len() - 1, s.len() as int) =~= seq!['m']);
    assert(s.subrange(0, s.len() - 1) =~= seq![c, d]);
}

} // verus!
