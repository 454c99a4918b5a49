use wavly::tempo::{parse_tempo, Tempo};

fn tempo(text: &str) -> Option<Tempo> {
    let chars: Vec<char> = text.chars().collect();
    parse_tempo(&chars)
}

fn milli(m: i64) -> Option<Tempo> {
    Some(Tempo::from_milli(m))
}

#[test]
fn reads_decimal_numbers_in_thousandths() {
    assert_eq!(tempo("128"), milli(128_000));
    assert_eq!(tempo("-3"), milli(-3_000));
    assert_eq!(tempo("+127.5"), milli(127_500));
    assert_eq!(tempo(".5"), milli(500));
    assert_eq!(tempo("5."), milli(5_000));
    assert_eq!(tempo("1.2e2"), milli(120_000));
    assert_eq!(tempo("12E-1"), milli(1_200));
    assert_eq!(tempo("0.0019"), milli(1));
    assert_eq!(tempo("-0.0019"), milli(-1));
    assert_eq!(tempo("1e-4"), milli(0));
    assert_eq!(tempo("00012.50000"), milli(12_500));
    assert_eq!(tempo("999999999999.9999"), milli(999_999_999_999_999));
}

#[test]
fn reads_special_values_and_overflow() {
    assert_eq!(tempo("nan"), Some(Tempo::not_a_number(false)));
    assert_eq!(tempo("-NaN"), Some(Tempo::not_a_number(true)));
    assert_eq!(tempo("inf"), Some(Tempo::infinity(false)));
    assert_eq!(tempo("+Infinity"), Some(Tempo::infinity(false)));
    assert_eq!(tempo("-INF"), Some(Tempo::infinity(true)));
    assert_eq!(tempo("1e309"), Some(Tempo::infinity(false)));
    assert_eq!(tempo("-1e309"), Some(Tempo::infinity(true)));
    assert!(matches!(tempo("1e308"), Some(t) if t != Tempo::infinity(false)));
    // the smallest value `f64` reads as infinite, and a value just below it
    let limit = "179769313486231580793728971405303415079934132710037826936173778980444968292764750946649017977587207096330286416692887910946555547851940402630657488671505820681908902000708383676273854845817711531764475730270069855571366959622842914819860834936475292719074168444365510704342711559699508093042880177904174497792";
    assert!(limit.parse::<f64>().unwrap().is_infinite());
    assert_eq!(tempo(limit), Some(Tempo::infinity(false)));
    let below = "179769313486231580793728971405303415079934132710037826936173778980444968292764750946649017977587207096330286416692887910946555547851940402630657488671505820681908902000708383676273854845817711531764475730270069855571366959622842914819860834936475292719074168444365510704342711559699508093042880177904174497791.999";
    assert!(below.parse::<f64>().unwrap().is_finite());
    assert!(matches!(tempo(below), Some(t) if t != Tempo::infinity(false)));
}

#[test]
fn rejects_other_texts() {
    for bad in ["", "+", "-", ".", "e3", "1e", "1e+", "1.2.3", "1,5", " 1", "infinit", "nana", "0x10"] {
        assert_eq!(tempo(bad), None, "{bad:?}");
        assert!(bad.parse::<f64>().is_err(), "{bad:?}");
    }
}
