use wavly::analysis::{TrackAnalysis, TrackDuration};
use wavly::key_format::KeyFormat;
use wavly::sort::{SortColumn, SortDirection};
use wavly::tui::{table_cells, App, KeyInput, RowStatus, TrackPath, WorkerMessage};

fn path(name: &str) -> TrackPath {
    TrackPath {
        display: name.to_string(),
        extension: name.rsplit_once('.').map(|(_, e)| e.to_string()),
    }
}

fn analysis(bpm: i64, key: &str, numerical: &str, secs: u64) -> TrackAnalysis {
    TrackAnalysis {
        bpm,
        key_name: key.to_string(),
        key_numerical: numerical.to_string(),
        duration: TrackDuration::from_secs(secs),
    }
}

#[test]
fn navigation_initializes_with_first_row_selected() {
    let app = App::new(vec![path("a.mp3"), path("b.wav")]);
    assert_eq!(app.selected, Some(0));
}

#[test]
fn navigation_moves_between_rows() {
    let mut app = App::new(vec![path("a.mp3"), path("b.wav")]);
    app.move_next();
    assert_eq!(app.selected, Some(1));
    app.move_previous();
    assert_eq!(app.selected, Some(0));
    app.move_last();
    assert_eq!(app.selected, Some(1));
    app.move_first();
    assert_eq!(app.selected, Some(0));
}

#[test]
fn selection_stays_within_the_visible_rows() {
    let mut app = App::new((0..25).map(|i| path(&format!("t{i}.mp3"))).collect());
    app.move_previous();
    assert_eq!(app.selected, Some(0));
    app.page_down();
    assert_eq!(app.selected, Some(10));
    app.page_down();
    app.page_down();
    assert_eq!(app.selected, Some(24));
    app.move_next();
    assert_eq!(app.selected, Some(24));
    app.page_up();
    assert_eq!(app.selected, Some(14));
    app.clamp_selection(5);
    assert_eq!(app.selected, Some(4));
    app.clamp_selection(0);
    assert_eq!(app.selected, None);
    app.clamp_selection(3);
    assert_eq!(app.selected, Some(0));
    let empty = App::new(Vec::new());
    assert_eq!(empty.selected, None);
}

#[test]
fn worker_messages_update_rows_and_progress() {
    let mut app = App::new(vec![path("a.mp3"), path("b.wav")]);
    app.apply_message(WorkerMessage::Started(0));
    assert!(matches!(app.rows[0].status, RowStatus::Analyzing));
    app.apply_message(WorkerMessage::Finished { index: 0, result: Ok(analysis(124_000, "Am", "1B", 200)) });
    assert!(matches!(app.rows[0].status, RowStatus::Done));
    app.apply_message(WorkerMessage::Finished { index: 1, result: Err("bad file".to_string()) });
    assert!(matches!(&app.rows[1].status, RowStatus::Error(m) if m == "bad file"));
    app.apply_message(WorkerMessage::Finished { index: 7, result: Err("ignored".to_string()) });
    assert_eq!(app.completed, 3);
    assert_eq!(app.rows.len(), 2);
    assert_eq!(RowStatus::Error("x".into()).label(), "error: x");
    assert_eq!(RowStatus::Analyzing.rank(), 1);
}

#[test]
fn entries_show_keys_in_the_chosen_notation() {
    let mut app = App::new(vec![path("b.mp3"), path("a.wav"), path("noext")]);
    app.apply_message(WorkerMessage::Finished { index: 0, result: Ok(analysis(124_000, "Am", "1B", 200)) });
    app.apply_message(WorkerMessage::Finished { index: 1, result: Ok(analysis(120_000, "H#", "9Z", 100)) });
    let entries = app.entries_for_render();
    assert_eq!(entries[0].filename, "a.wav");
    assert_eq!(entries[0].key.as_deref(), Some("H# (9Z)"));
    assert_eq!(entries[0].format, "WAV");
    assert_eq!(entries[1].key.as_deref(), Some("Am"));
    assert_eq!(entries[2].format, "UNKNOWN");
    assert_eq!(entries[2].status_label, "pending");
    app.on_key(KeyInput::Char('t'));
    assert_eq!(app.key_format, KeyFormat::Camelot);
    let entries = app.entries_for_render();
    assert_eq!(entries[1].key.as_deref(), Some("8A"));
    assert_eq!(entries[1].standard_key.as_deref(), Some("Am"));
}

#[test]
fn filter_keys_edit_and_apply_the_filter() {
    let mut app = App::new(vec![path("a.mp3"), path("b.mp3"), path("c.mp3")]);
    // the filter compares the analyser's key name with the long form of its key
    app.apply_message(WorkerMessage::Finished { index: 0, result: Ok(analysis(124_000, "A minor", "1B", 200)) });
    app.apply_message(WorkerMessage::Finished { index: 1, result: Ok(analysis(140_000, "C", "1A", 200)) });
    app.on_key(KeyInput::Char('/'));
    assert!(app.filter_mode);
    for c in "120-128 Amx".chars() {
        app.on_key(KeyInput::Char(c));
    }
    app.on_key(KeyInput::Backspace);
    assert_eq!(app.filter_input, "120-128 Am");
    app.on_key(KeyInput::Enter);
    assert!(!app.filter_mode);
    let entries = app.entries_for_render();
    let names: Vec<&str> = entries.iter().map(|e| e.filename.as_str()).collect();
    assert_eq!(names, ["a.mp3", "c.mp3"]);
    let line = app.status_line(&entries);
    assert_eq!(
        line,
        "Analyzed 2/3 files  |  0 errors  |  Key: Standard  |  Filter: BPM 120-128  |  Key A minor  |  Selected: a.mp3"
    );
    app.on_key(KeyInput::Char('/'));
    app.on_key(KeyInput::Char('z'));
    app.on_key(KeyInput::Esc);
    assert!(!app.filter_mode);
    assert!(app.filter_input.is_empty());
    assert!(app.active_filter.is_some());
    app.on_key(KeyInput::Char('c'));
    assert!(app.active_filter.is_none());
    assert_eq!(app.entries_for_render().len(), 3);
}

#[test]
fn browse_keys_sort_and_quit() {
    let mut app = App::new(vec![path("a.mp3")]);
    app.on_key(KeyInput::Char('3'));
    assert_eq!(app.sort_state.column, SortColumn::Bpm);
    app.on_key(KeyInput::Char('3'));
    assert_eq!(app.sort_state.direction, SortDirection::Desc);
    app.on_key(KeyInput::Char('x'));
    assert!(!app.should_quit);
    app.on_key(KeyInput::Char('q'));
    assert!(app.should_quit);
    let line = app.status_line(&Vec::new());
    assert_eq!(
        line,
        "Analyzed 0/1 files  |  0 errors  |  Key: Standard  |  Filter: All tracks  |  Selected: no selection"
    );
}

#[test]
fn refreshing_the_view_keeps_the_selection_on_screen() {
    let mut app = App::new(vec![path("a.mp3"), path("b.mp3"), path("c.mp3")]);
    app.apply_message(WorkerMessage::Finished { index: 0, result: Ok(analysis(124_000, "Am", "1B", 200)) });
    app.apply_message(WorkerMessage::Finished { index: 1, result: Ok(analysis(90_000, "Am", "1B", 200)) });
    app.apply_message(WorkerMessage::Finished { index: 2, result: Ok(analysis(95_000, "Am", "1B", 200)) });
    app.move_last();
    assert_eq!(app.selected, Some(2));
    app.on_key(KeyInput::Char('/'));
    for c in "120-130".chars() {
        app.on_key(KeyInput::Char(c));
    }
    app.on_key(KeyInput::Enter);
    let entries = app.refresh_view();
    assert_eq!(entries.len(), 1);
    assert_eq!(app.visible_count, 1);
    assert_eq!(app.selected, Some(0));
    app.move_next();
    assert_eq!(app.selected, Some(0));
    app.on_key(KeyInput::Char('/'));
    for c in "200-210".chars() {
        app.on_key(KeyInput::Char(c));
    }
    app.on_key(KeyInput::Enter);
    assert!(app.refresh_view().is_empty());
    assert_eq!(app.selected, None);
    assert_eq!(app.visible_count, 0);
}

#[test]
fn table_cells_show_dashes_for_missing_values() {
    let mut app = App::new(vec![path("a.mp3"), path("b.flac")]);
    app.apply_message(WorkerMessage::Finished { index: 0, result: Ok(analysis(127_995, "F#m", "11A", 754)) });
    let entries = app.refresh_view();
    assert_eq!(table_cells(&entries[0]), ["a.mp3", "done", "128.00", "F#m", "12:34", "MP3"]);
    assert_eq!(table_cells(&entries[1]), ["b.flac", "pending", "-", "-", "-", "FLAC"]);
}

#[test]
fn summary_and_prompt_describe_the_state() {
    let mut app = App::new(vec![path("a.mp3"), path("b.mp3")]);
    app.apply_message(WorkerMessage::Finished { index: 1, result: Err("broken".to_string()) });
    app.on_key(KeyInput::Char('2'));
    app.on_key(KeyInput::Char('2'));
    app.on_key(KeyInput::Char('t'));
    app.on_key(KeyInput::Char('t'));
    let values = app.summary(2);
    assert_eq!(values.progress, "1/2");
    assert_eq!(values.visible, "2");
    assert_eq!(values.errors, "1");
    assert_eq!(values.direction, "desc");
    assert_eq!(values.key_format, "Open Key");
    assert_eq!(values.filter, None);
    app.on_key(KeyInput::Char('/'));
    assert_eq!(app.filter_prompt(), "type BPM range or key");
    app.on_key(KeyInput::Char('8'));
    app.on_key(KeyInput::Char('A'));
    assert_eq!(app.filter_prompt(), "8A");
    app.on_key(KeyInput::Enter);
    assert_eq!(app.summary(0).filter.as_deref(), Some("Key A minor"));
}

#[test]
fn rows_with_unreadable_key_names_are_reported() {
    let mut app = App::new(vec![path("a.mp3"), path("b.mp3")]);
    assert!(app.rows_readable());
    app.apply_message(WorkerMessage::Finished { index: 0, result: Ok(analysis(124_000, "Am", "1B", 200)) });
    assert!(app.rows_readable());
    app.apply_message(WorkerMessage::Finished { index: 1, result: Ok(analysis(124_000, "A\u{e9}", "1B", 200)) });
    assert!(!app.rows_readable());
}
