use wavly::scanner::{
    discover_audio_files, input_error, is_audio_file, FoundFile, PathPart, ScanEntry, ScanError, ScanInput,
};

fn parts(path: &str) -> Vec<PathPart> {
    let mut v = vec![PathPart::RootDir];
    for p in path.split('/').filter(|p| !p.is_empty()) {
        v.push(PathPart::Normal(p.as_bytes().to_vec()));
    }
    v
}

fn file(path: &str, id: usize) -> FoundFile {
    FoundFile { parts: parts(path), id }
}

fn entry(path: &str, id: usize, is_file: bool) -> ScanEntry {
    let name = path.rsplit('/').next().unwrap();
    ScanEntry {
        file: file(path, id),
        is_file,
        extension: name.rsplit_once('.').map(|(_, e)| e.to_string()),
    }
}

fn ids(files: &[FoundFile]) -> Vec<usize> {
    files.iter().map(|f| f.id).collect()
}

#[test]
fn discovers_audio_files_recursively() {
    let root = "/tmp/scan";
    let entries = vec![
        entry(root, 0, false),
        entry("/tmp/scan/track-a.mp3", 1, true),
        entry("/tmp/scan/notes.txt", 2, true),
        entry("/tmp/scan/nested", 3, false),
        entry("/tmp/scan/nested/track-b.wav", 4, true),
        entry("/tmp/scan/nested/deeper", 5, false),
        entry("/tmp/scan/nested/deeper/track-c.flac", 6, true),
    ];
    let files = discover_audio_files(vec![ScanInput::Directory { id: 0, entries }]).expect("discover files");
    assert_eq!(ids(&files), vec![6, 4, 1], "recursive scan should include nested audio files");
}

#[test]
fn discovers_audio_files_non_recursively() {
    let entries = vec![
        entry("/tmp/scan/track-a.mp3", 1, true),
        entry("/tmp/scan/nested", 2, false),
    ];
    let files = discover_audio_files(vec![ScanInput::Directory { id: 0, entries }]).expect("discover files");
    assert_eq!(ids(&files), vec![1], "non-recursive scan should stay flat");
}

#[test]
fn recognizes_audio_extensions() {
    for ext in ["mp3", "WAV", "Flac", "aiff", "AIF", "ogg"] {
        assert!(is_audio_file(Some(ext)));
    }
    for ext in ["txt", "mp4", "", "oggg"] {
        assert!(!is_audio_file(Some(ext)));
    }
    assert!(!is_audio_file(None));
}

#[test]
fn reports_the_first_failing_path() {
    let inputs = vec![
        ScanInput::File { id: 0, file: file("/a/x.mp3", 10), extension: Some("mp3".into()) },
        ScanInput::File { id: 1, file: file("/a/notes.txt", 11), extension: Some("txt".into()) },
        ScanInput::Missing { id: 2 },
    ];
    assert_eq!(discover_audio_files(inputs).err(), Some(ScanError::UnsupportedFormat(1)));
    let inputs = vec![ScanInput::Unreadable { id: 5 }, ScanInput::Missing { id: 6 }];
    assert_eq!(discover_audio_files(inputs).err(), Some(ScanError::Unreadable(5)));
    let inputs = vec![ScanInput::Missing { id: 3 }];
    assert_eq!(discover_audio_files(inputs).err(), Some(ScanError::Missing(3)));
    let none = ScanInput::File { id: 0, file: file("/a/README", 1), extension: None };
    assert_eq!(discover_audio_files(vec![none]).err(), Some(ScanError::UnsupportedFormat(0)));
}

#[test]
fn sorts_by_components_and_drops_repeats() {
    let inputs = vec![
        ScanInput::File { id: 0, file: file("/m/b.mp3", 1), extension: Some("mp3".into()) },
        ScanInput::Directory {
            id: 1,
            entries: vec![
                entry("/m/a-b.mp3", 2, true),
                entry("/m/a/b.mp3", 3, true),
                entry("/m/b.mp3", 4, true),
            ],
        },
    ];
    let files = discover_audio_files(inputs).expect("files");
    // components compare "a" < "a-b", unlike the whole texts ("a-b" < "a/b")
    assert_eq!(ids(&files), vec![3, 2, 1]);
}

#[test]
fn prefixes_come_first_in_their_own_order() {
    let disk = |letter: u8, id: usize| FoundFile {
        parts: vec![
            PathPart::Prefix { kind: 5, first: vec![letter], second: Vec::new() },
            PathPart::RootDir,
            PathPart::Normal(b"a.mp3".to_vec()),
        ],
        id,
    };
    let unc = FoundFile {
        parts: vec![
            PathPart::Prefix { kind: 4, first: b"server".to_vec(), second: b"share".to_vec() },
            PathPart::Normal(b"a.mp3".to_vec()),
        ],
        id: 3,
    };
    let plain = FoundFile { parts: vec![PathPart::RootDir, PathPart::Normal(b"a.mp3".to_vec())], id: 4 };
    let entry = |file: FoundFile| ScanEntry { file, is_file: true, extension: Some("mp3".into()) };
    let inputs = vec![ScanInput::Directory {
        id: 0,
        entries: vec![entry(plain), entry(disk(b'D', 1)), entry(unc), entry(disk(b'C', 2))],
    }];
    let files = discover_audio_files(inputs).expect("files");
    assert_eq!(ids(&files), vec![3, 2, 1, 4]);
}

#[test]
fn names_the_error_of_one_path() {
    let audio = ScanInput::File { id: 0, file: file("/a/x.mp3", 1), extension: Some("MP3".into()) };
    assert_eq!(input_error(&audio), None);
    let text = ScanInput::File { id: 2, file: file("/a/x.txt", 1), extension: Some("txt".into()) };
    assert_eq!(input_error(&text), Some(ScanError::UnsupportedFormat(2)));
    assert_eq!(input_error(&ScanInput::Directory { id: 0, entries: Vec::new() }), None);
    assert_eq!(input_error(&ScanInput::Unreadable { id: 4 }), Some(ScanError::Unreadable(4)));
    assert_eq!(input_error(&ScanInput::Missing { id: 5 }), Some(ScanError::Missing(5)));
}
