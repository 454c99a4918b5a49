use wavly::key_format::{format_key, normalize_key_label, KeyFormat};

#[test]
fn converts_standard_to_camelot() {
    assert_eq!(format_key("C major", KeyFormat::Camelot), Some("8B".to_string()));
    assert_eq!(format_key("A minor", KeyFormat::Camelot), Some("8A".to_string()));
}

#[test]
fn converts_standard_to_open_key() {
    assert_eq!(format_key("C major", KeyFormat::OpenKey), Some("1d".to_string()));
    assert_eq!(format_key("A minor", KeyFormat::OpenKey), Some("1m".to_string()));
}

#[test]
fn cycles_formats_in_order() {
    assert_eq!(KeyFormat::Standard.next(), KeyFormat::Camelot);
    assert_eq!(KeyFormat::Camelot.next(), KeyFormat::OpenKey);
    assert_eq!(KeyFormat::OpenKey.next(), KeyFormat::Standard);
}

#[test]
fn labels_formats() {
    assert_eq!(KeyFormat::Standard.label(), "Standard");
    assert_eq!(KeyFormat::Camelot.label(), "Camelot");
    assert_eq!(KeyFormat::OpenKey.label(), "Open Key");
}

#[test]
fn reads_every_notation() {
    assert_eq!(format_key("Am", KeyFormat::Standard), Some("Am".to_string()));
    assert_eq!(format_key("  db MAJOR ", KeyFormat::Standard), Some("Db".to_string()));
    assert_eq!(format_key("C#m", KeyFormat::Camelot), Some("12A".to_string()));
    assert_eq!(format_key("D#m", KeyFormat::Standard), Some("Ebm".to_string()));
    assert_eq!(format_key("Gb", KeyFormat::Standard), Some("F#".to_string()));
    assert_eq!(format_key("8A", KeyFormat::Standard), Some("Am".to_string()));
    assert_eq!(format_key("12b", KeyFormat::OpenKey), Some("5d".to_string()));
    assert_eq!(format_key("08a", KeyFormat::Standard), Some("Am".to_string()));
    assert_eq!(format_key("+8a", KeyFormat::Standard), Some("Am".to_string()));
    assert_eq!(format_key("1d", KeyFormat::Standard), Some("C".to_string()));
    assert_eq!(format_key("7d", KeyFormat::Camelot), Some("2B".to_string()));
    assert_eq!(format_key("Bb", KeyFormat::OpenKey), Some("11d".to_string()));
}

#[test]
fn rejects_texts_that_name_no_key() {
    assert_eq!(format_key("", KeyFormat::Standard), None);
    assert_eq!(format_key("H", KeyFormat::Standard), None);
    assert_eq!(format_key("13A", KeyFormat::Standard), None);
    assert_eq!(format_key("0B", KeyFormat::Standard), None);
    assert_eq!(format_key("8c", KeyFormat::Standard), None);
    assert_eq!(format_key("0d", KeyFormat::Standard), None);
    assert_eq!(format_key("10m", KeyFormat::Standard), None);
    assert_eq!(format_key("x major", KeyFormat::Standard), None);
    assert_eq!(format_key("-8a", KeyFormat::Standard), None);
    assert_eq!(format_key("256a", KeyFormat::Standard), None);
    // an Open Key minor code ends in `m`, which is read as the minor shorthand
    assert_eq!(format_key("1m", KeyFormat::Standard), None);
}

#[test]
fn normalizes_labels() {
    assert_eq!(normalize_key_label("Am"), Some("A minor".to_string()));
    assert_eq!(normalize_key_label("f#"), Some("F# major".to_string()));
    assert_eq!(normalize_key_label("8B"), Some("C major".to_string()));
    assert_eq!(normalize_key_label("nope"), None);
}

#[test]
fn round_trips_through_every_format() {
    for input in ["C", "Dbm", "F# major", "A minor", "3A", "10B", "4d"] {
        for f in [KeyFormat::Standard, KeyFormat::Camelot] {
            let written = format_key(input, f).expect("written");
            for g in [KeyFormat::Standard, KeyFormat::Camelot, KeyFormat::OpenKey] {
                assert_eq!(format_key(&written, g), format_key(input, g));
            }
        }
        let long = normalize_key_label(input).expect("long form");
        assert_eq!(normalize_key_label(&long), Some(long.clone()));
    }
    let major = format_key("E", KeyFormat::OpenKey).expect("open key");
    assert_eq!(format_key(&major, KeyFormat::Standard), Some("E".to_string()));
}

#[test]
fn camelot_and_open_key_wheels() {
    let notes = ["C", "Db", "D", "Eb", "E", "F", "F#", "G", "Ab", "A", "Bb", "B"];
    let hour = |code: String| code[..code.len() - 1].parse::<u32>().unwrap();
    for (i, note) in notes.iter().enumerate() {
        for minor in [false, true] {
            let key = if minor { format!("{note}m") } else { note.to_string() };
            let camelot = format_key(&key, KeyFormat::Camelot).unwrap();
            let open = format_key(&key, KeyFormat::OpenKey).unwrap();
            assert_eq!(format_key(&camelot, KeyFormat::Standard), Some(key.clone()));
            assert_eq!(hour(open.clone()), (hour(camelot.clone()) + 4) % 12 + 1);
            let fifth = notes[(i + 7) % 12];
            let fifth_key = if minor { format!("{fifth}m") } else { fifth.to_string() };
            let next = format_key(&fifth_key, KeyFormat::Camelot).unwrap();
            assert_eq!(hour(next), hour(camelot.clone()) % 12 + 1);
            if !minor {
                let relative = format!("{}m", notes[(i + 9) % 12]);
                assert_eq!(hour(format_key(&relative, KeyFormat::Camelot).unwrap()), hour(camelot));
            }
        }
    }
}

#[test]
fn reading_ignores_case_and_spaces() {
    for input in ["am", "F# major", "8a", "db minor", "12b"] {
        let label = normalize_key_label(input);
        assert!(label.is_some());
        assert_eq!(normalize_key_label(&input.to_ascii_uppercase()), label);
        assert_eq!(normalize_key_label(&format!(" {input} ")), label);
    }
}
