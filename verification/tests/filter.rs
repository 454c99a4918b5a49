use wavly::analysis::TrackDuration;
use wavly::filter::{parse_filter_query, TrackFilter};
use wavly::sort::TrackEntry;
use wavly::tempo::Tempo;

fn t(milli: i64) -> Option<Tempo> {
    Some(Tempo::from_milli(milli))
}

#[test]
fn parses_bpm_and_key_query() {
    let filter = parse_filter_query("120-128 Am").expect("filter");
    assert_eq!(filter.bpm_min, t(120_000));
    assert_eq!(filter.bpm_max, t(128_000));
    assert_eq!(filter.key.as_deref(), Some("A minor"));
}

#[test]
fn parses_camelot_and_open_key() {
    let camelot = parse_filter_query("8A").expect("camelot");
    assert_eq!(camelot.key.as_deref(), Some("A minor"));

    let open_key = parse_filter_query("1d").expect("open key");
    assert_eq!(open_key.key.as_deref(), Some("C major"));
}

#[test]
fn filter_keeps_pending_rows_visible() {
    let filter = parse_filter_query("120-128 Am").expect("filter");
    let entry = TrackEntry {
        filename: "track.mp3".into(),
        status_label: "pending".into(),
        status_rank: 0,
        bpm: None,
        key: None,
        standard_key: None,
        length: None,
        format: "MP3".into(),
    };

    assert!(filter.matches_entry(&entry));
}

#[test]
fn filter_matches_done_tracks_by_bpm_and_key() {
    let filter = parse_filter_query("120-128 8A").expect("filter");
    let matching = TrackEntry {
        filename: "track.mp3".into(),
        status_label: "done".into(),
        status_rank: 2,
        bpm: Some(124_000),
        key: Some("A minor (8A)".into()),
        standard_key: Some("A minor".into()),
        length: Some(TrackDuration::from_secs(180)),
        format: "MP3".into(),
    };
    let non_matching = TrackEntry {
        filename: "track2.mp3".into(),
        status_label: "done".into(),
        status_rank: 2,
        bpm: Some(140_000),
        key: Some("C major (8B)".into()),
        standard_key: Some("C major".into()),
        length: Some(TrackDuration::from_secs(180)),
        format: "MP3".into(),
    };

    assert!(filter.matches_entry(&matching));
    assert!(!filter.matches_entry(&non_matching));
}

#[test]
fn reads_prefixes_separators_and_reversed_ranges() {
    let filter = parse_filter_query("bpm=128-120, key:Am").expect("filter");
    assert_eq!(filter.bpm_min, t(120_000));
    assert_eq!(filter.bpm_max, t(128_000));
    assert_eq!(filter.key.as_deref(), Some("A minor"));

    assert!(parse_filter_query("bpm:120.5 - 125.25").is_none());
    let filter = parse_filter_query("bpm:120.5-125.25").expect("filter");
    assert_eq!(filter.bpm_min, t(120_500));
    assert_eq!(filter.bpm_max, t(125_250));

    let filter = parse_filter_query("120--5").expect("filter");
    assert_eq!(filter.bpm_min, t(-5_000));
    assert_eq!(filter.bpm_max, t(120_000));
}

#[test]
fn narrows_ranges_and_keeps_the_last_key() {
    let filter = parse_filter_query("100-130 120-140 Am Cm").expect("filter");
    assert_eq!(filter.bpm_min, t(120_000));
    assert_eq!(filter.bpm_max, t(130_000));
    assert_eq!(filter.key.as_deref(), Some("C minor"));
}

#[test]
fn ignores_unknown_tokens() {
    assert!(parse_filter_query("").is_none());
    assert!(parse_filter_query("  ,, ").is_none());
    assert!(parse_filter_query("hello world").is_none());
    let filter = parse_filter_query("hello 8B").expect("filter");
    assert_eq!(filter.key.as_deref(), Some("C major"));
    assert_eq!(filter.bpm_min, None);
}

#[test]
fn describes_filters() {
    let all = TrackFilter { bpm_min: None, bpm_max: None, key: None };
    assert_eq!(all.describe(), "All tracks");
    let both = TrackFilter { bpm_min: t(120_000), bpm_max: t(128_400), key: Some("A minor".into()) };
    assert_eq!(both.describe(), "BPM 120-128  |  Key A minor");
    let min = TrackFilter { bpm_min: t(120_500), bpm_max: None, key: None };
    assert_eq!(min.describe(), "BPM ≥ 120");
    let max = TrackFilter { bpm_min: None, bpm_max: t(121_500), key: None };
    assert_eq!(max.describe(), "BPM ≤ 122");
    let key = TrackFilter { bpm_min: None, bpm_max: None, key: Some("C major".into()) };
    assert_eq!(key.describe(), "Key C major");
    let negative = TrackFilter { bpm_min: t(-300), bpm_max: t(999), key: None };
    assert_eq!(negative.describe(), "BPM -0-1");
    // the same roundings as `{:.0}` on the tempos these stand for
    assert_eq!(format!("{:.0}", 120.5f64), "120");
    assert_eq!(format!("{:.0}", 121.5f64), "122");
    assert_eq!(format!("{:.0}", -0.3f64), "-0");
}

#[test]
fn failed_and_analysing_rows_always_pass() {
    let filter = parse_filter_query("120-128 Am").expect("filter");
    for rank in [0u8, 1, 3] {
        let entry = TrackEntry {
            filename: "x.mp3".into(),
            status_label: "x".into(),
            status_rank: rank,
            bpm: Some(10_000),
            key: None,
            standard_key: Some("C major".into()),
            length: None,
            format: "MP3".into(),
        };
        assert!(filter.matches_entry(&entry));
    }
}

#[test]
fn reads_tempos_in_every_decimal_form() {
    let filter = parse_filter_query("1e2-1.3E2").expect("exponents");
    assert_eq!(filter.bpm_min, t(100_000));
    assert_eq!(filter.bpm_max, t(130_000));
    let filter = parse_filter_query("+.5-5.").expect("signs and points");
    assert_eq!(filter.bpm_min, t(500));
    assert_eq!(filter.bpm_max, t(5_000));
    let filter = parse_filter_query("120.12345-1234.5e-1").expect("truncated digits");
    assert_eq!(filter.bpm_min, t(120_123));
    assert_eq!(filter.bpm_max, t(123_450));
    let filter = parse_filter_query("0e99999999999999999999999-1e-99999999999999999999999").expect("huge exponents");
    assert_eq!(filter.bpm_min, t(0));
    assert_eq!(filter.bpm_max, t(0));
    // malformed numbers are not tempos
    let filter = parse_filter_query("1e12-5").expect("large numbers");
    assert_eq!(filter.bpm_max, t(1_000_000_000_000_000));
    assert!(parse_filter_query("999999999999.999-5").is_some());
    for bad in ["1e-5", "e5-6", ".-5", "1.2.3-4", "1e+-2-3", "1e2.5-3", "1e-", "0x10-20"] {
        assert!(parse_filter_query(bad).is_none(), "{bad}");
    }
    // the same values as `f64`'s reading of these texts
    assert_eq!("1.3E2".parse::<f64>(), Ok(130.0));
    assert_eq!("+.5".parse::<f64>(), Ok(0.5));
    assert_eq!("5.".parse::<f64>(), Ok(5.0));
    assert!("e5".parse::<f64>().is_err());
    assert!(".".parse::<f64>().is_err());
    assert!("1e+-2".parse::<f64>().is_err());
}

#[test]
fn whole_numbers_read_back() {
    for n in [0i64, 7, 120, 128, 999_999_999_999] {
        let filter = parse_filter_query(&format!("{n}-{n}")).expect("range");
        assert_eq!(filter.bpm_min, t(n * 1000));
        assert_eq!(filter.bpm_max, t(n * 1000));
    }
}

#[test]
fn reads_nan_and_infinities_as_f64_does() {
    let filter = parse_filter_query("nan-5").expect("nan");
    assert_eq!(filter.bpm_min, t(5_000));
    assert_eq!(filter.bpm_max, t(5_000));
    assert_eq!(format!("{:.0}-{:.0}", f64::NAN.min(5.0), f64::NAN.max(5.0)), "5-5");

    let filter = parse_filter_query("120-INF").expect("inf");
    assert_eq!(filter.bpm_min, t(120_000));
    assert_eq!(filter.bpm_max, Some(Tempo::infinity(false)));
    assert_eq!(filter.describe(), "BPM 120-inf");

    let filter = parse_filter_query("0--Infinity").expect("minus infinity");
    assert_eq!(filter.bpm_min, Some(Tempo::infinity(true)));
    assert_eq!(filter.describe(), "BPM -inf-0");

    let filter = parse_filter_query("NaN-nan").expect("both nan");
    assert_eq!(filter.describe(), "BPM NaN-NaN");
    let done = |bpm: i64| TrackEntry {
        filename: "x.mp3".into(),
        status_label: "done".into(),
        status_rank: 2,
        bpm: Some(bpm),
        key: None,
        standard_key: None,
        length: None,
        format: "MP3".into(),
    };
    // no tempo is below or above a bound that is not a number
    assert!(filter.matches_entry(&done(-7_000)));

    let filter = parse_filter_query("5-1e400").expect("overflow");
    assert_eq!(filter.bpm_max, Some(Tempo::infinity(false)));
    assert!("1e400".parse::<f64>().unwrap().is_infinite());
    let filter = parse_filter_query("5-1e300").expect("large but finite");
    assert!(filter.matches_entry(&done(i64::MAX)));
    assert!(!filter.matches_entry(&done(4_999)));
}
