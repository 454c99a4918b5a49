use wavly::analysis::TrackDuration;
use wavly::sort::{sort_entries, SortColumn, SortDirection, SortState, TrackEntry};

fn entry(name: &str, rank: u8, bpm: Option<i64>, key: Option<&str>, secs: Option<u64>, format: &str) -> TrackEntry {
    TrackEntry {
        filename: name.into(),
        status_label: if rank == 2 { "done".into() } else { "pending".into() },
        status_rank: rank,
        bpm,
        key: key.map(|k| k.to_string()),
        standard_key: None,
        length: secs.map(TrackDuration::from_secs),
        format: format.into(),
    }
}

fn names(rows: &[TrackEntry]) -> Vec<String> {
    rows.iter().map(|r| r.filename.clone()).collect()
}

#[test]
fn sorts_by_bpm_and_toggles_direction() {
    let mut rows = vec![
        TrackEntry {
            filename: "b.mp3".into(),
            status_label: "done".into(),
            status_rank: 2,
            bpm: Some(128_000),
            key: Some("Am (8A)".into()),
            standard_key: Some("A minor".into()),
            length: Some(TrackDuration::from_secs(180)),
            format: "MP3".into(),
        },
        TrackEntry {
            filename: "a.wav".into(),
            status_label: "done".into(),
            status_rank: 2,
            bpm: Some(120_000),
            key: Some("C (8B)".into()),
            standard_key: Some("C major".into()),
            length: Some(TrackDuration::from_secs(200)),
            format: "WAV".into(),
        },
        TrackEntry {
            filename: "c.flac".into(),
            status_label: "pending".into(),
            status_rank: 0,
            bpm: None,
            key: None,
            standard_key: None,
            length: None,
            format: "FLAC".into(),
        },
    ];

    let state = SortState::new(SortColumn::Bpm);
    sort_entries(&mut rows, state);

    assert_eq!(rows[0].filename, "a.wav");
    assert_eq!(rows[1].filename, "b.mp3");
    assert_eq!(rows[2].filename, "c.flac");

    let mut state = state;
    state.toggle(SortColumn::Bpm);
    sort_entries(&mut rows, state);

    assert_eq!(rows[0].filename, "b.mp3");
    assert_eq!(rows[1].filename, "a.wav");
    assert_eq!(rows[2].filename, "c.flac");
}

#[test]
fn sorts_by_filename_case_insensitively() {
    let mut rows = vec![
        TrackEntry {
            filename: "Zulu.mp3".into(),
            status_label: "done".into(),
            status_rank: 2,
            bpm: Some(128_000),
            key: Some("Am (8A)".into()),
            standard_key: Some("A minor".into()),
            length: Some(TrackDuration::from_secs(180)),
            format: "MP3".into(),
        },
        TrackEntry {
            filename: "alpha.wav".into(),
            status_label: "done".into(),
            status_rank: 2,
            bpm: Some(120_000),
            key: Some("C (8B)".into()),
            standard_key: Some("C major".into()),
            length: Some(TrackDuration::from_secs(200)),
            format: "WAV".into(),
        },
    ];

    sort_entries(&mut rows, SortState::new(SortColumn::Filename));

    assert_eq!(rows[0].filename, "alpha.wav");
    assert_eq!(rows[1].filename, "Zulu.mp3");
}

#[test]
fn toggling_flips_or_restarts_ascending() {
    let mut state = SortState::new(SortColumn::Key);
    assert_eq!(state.direction, SortDirection::Asc);
    state.toggle(SortColumn::Key);
    assert_eq!(state, SortState { column: SortColumn::Key, direction: SortDirection::Desc });
    state.toggle(SortColumn::Key);
    assert_eq!(state.direction, SortDirection::Asc);
    state.toggle(SortColumn::Key);
    state.toggle(SortColumn::Length);
    assert_eq!(state, SortState { column: SortColumn::Length, direction: SortDirection::Asc });
}

#[test]
fn sorts_by_status_length_key_and_format() {
    let rows = vec![
        entry("d.mp3", 2, Some(1), Some("Cm"), Some(300), "mp3"),
        entry("a.mp3", 0, None, None, None, "WAV"),
        entry("c.mp3", 2, Some(2), Some("am"), Some(100), "Flac"),
        entry("b.mp3", 3, None, Some("B"), Some(200), "aiff"),
    ];
    let mut by_status = rows.clone();
    sort_entries(&mut by_status, SortState::new(SortColumn::Status));
    assert_eq!(names(&by_status), ["a.mp3", "c.mp3", "d.mp3", "b.mp3"]);
    sort_entries(&mut by_status, SortState { column: SortColumn::Status, direction: SortDirection::Desc });
    assert_eq!(names(&by_status), ["b.mp3", "c.mp3", "d.mp3", "a.mp3"]);

    let mut by_length = rows.clone();
    sort_entries(&mut by_length, SortState::new(SortColumn::Length));
    assert_eq!(names(&by_length), ["c.mp3", "b.mp3", "d.mp3", "a.mp3"]);
    sort_entries(&mut by_length, SortState { column: SortColumn::Length, direction: SortDirection::Desc });
    assert_eq!(names(&by_length), ["d.mp3", "b.mp3", "c.mp3", "a.mp3"]);

    let mut by_key = rows.clone();
    sort_entries(&mut by_key, SortState::new(SortColumn::Key));
    assert_eq!(names(&by_key), ["c.mp3", "b.mp3", "d.mp3", "a.mp3"]);

    let mut by_format = rows.clone();
    sort_entries(&mut by_format, SortState { column: SortColumn::Format, direction: SortDirection::Desc });
    assert_eq!(names(&by_format), ["a.mp3", "d.mp3", "c.mp3", "b.mp3"]);
}

#[test]
fn ties_are_broken_by_file_name_then_kept_in_order() {
    let mut rows = vec![
        entry("b.mp3", 2, Some(120_000), None, None, "MP3"),
        entry("B.mp3", 2, Some(120_000), None, None, "MP3"),
        entry("a.mp3", 2, Some(120_000), None, None, "MP3"),
    ];
    sort_entries(&mut rows, SortState::new(SortColumn::Bpm));
    assert_eq!(names(&rows), ["B.mp3", "a.mp3", "b.mp3"]);

    let mut same = vec![
        entry("x.mp3", 2, Some(1), None, None, "first"),
        entry("x.mp3", 2, Some(1), None, None, "second"),
    ];
    sort_entries(&mut same, SortState::new(SortColumn::Bpm));
    assert_eq!(same[0].format, "first");
    assert_eq!(same[1].format, "second");
}

#[test]
fn sorts_many_rows() {
    let mut rows: Vec<TrackEntry> = (0..200)
        .map(|i| entry(&format!("t{:03}.mp3", (i * 37) % 200), 2, Some(((i * 53) % 17) as i64), None, None, "MP3"))
        .collect();
    let mut before = names(&rows);
    sort_entries(&mut rows, SortState::new(SortColumn::Bpm));
    let mut after = names(&rows);
    before.sort();
    after.sort();
    assert_eq!(before, after, "sorting keeps every row once");
    for w in rows.windows(2) {
        let (a, b) = (w[0].bpm.unwrap(), w[1].bpm.unwrap());
        assert!(a < b || (a == b && w[0].filename < w[1].filename));
    }
    assert_eq!(rows.len(), 200);
}

#[test]
fn sorting_again_changes_nothing() {
    let rows = vec![
        entry("d.mp3", 2, Some(1), Some("Cm"), Some(300), "mp3"),
        entry("a.mp3", 0, None, None, None, "WAV"),
        entry("c.mp3", 2, Some(1), Some("am"), Some(100), "Flac"),
        entry("b.mp3", 3, None, Some("B"), Some(200), "aiff"),
    ];
    for column in [SortColumn::Filename, SortColumn::Status, SortColumn::Bpm, SortColumn::Key, SortColumn::Length, SortColumn::Format] {
        for direction in [SortDirection::Asc, SortDirection::Desc] {
            let state = SortState { column, direction };
            let mut once = rows.clone();
            sort_entries(&mut once, state);
            let mut twice = once.clone();
            sort_entries(&mut twice, state);
            assert_eq!(names(&once), names(&twice));
        }
    }
}

#[test]
fn rows_without_a_value_come_last_both_ways() {
    let rows = vec![
        entry("a.mp3", 0, None, None, None, "MP3"),
        entry("b.mp3", 2, Some(1), Some("x"), Some(1), "MP3"),
    ];
    for column in [SortColumn::Bpm, SortColumn::Key, SortColumn::Length] {
        for direction in [SortDirection::Asc, SortDirection::Desc] {
            let mut sorted = rows.clone();
            sort_entries(&mut sorted, SortState { column, direction });
            assert_eq!(names(&sorted), ["b.mp3", "a.mp3"]);
        }
    }
}
