use jtracer::interp::try_pop;
use jtracer::text::{decimal_text, parse_channel};
use jtracer::{ParseError, Real};

fn chars(s: &str) -> Vec<char> {
    s.chars().collect()
}

#[test]
fn decimal_numbers() {
    for ok in ["0", "-1", "+2.5", "1.", ".5", "1e3", "2.5E-4", "-.5e+2", "007"] {
        assert!(decimal_text(&chars(ok)), "{}", ok);
        assert!(ok.parse::<f64>().is_ok());
    }
    for bad in ["", "-", ".", "e3", "1e", "1e+", "1.2.3", "1..", "x", "1x", "--1", "in", "infin", "nana", "+-inf", "inf1"] {
        assert!(!decimal_text(&chars(bad)), "{}", bad);
    }
}

#[test]
fn infinity_and_nan_words() {
    for ok in ["inf", "INF", "-inf", "+Infinity", "infinity", "nan", "NaN", "-NAN"] {
        assert!(decimal_text(&chars(ok)), "{}", ok);
        assert!(ok.parse::<f64>().is_ok());
    }
    let mut stack = vec![chars("-Inf")];
    let r = try_pop(&mut stack).unwrap();
    assert_eq!(r.text().iter().collect::<String>(), "-Inf");
}

#[test]
fn real_keeps_its_text() {
    let r = Real::new(chars("3.25")).unwrap();
    assert_eq!(r.text().iter().collect::<String>(), "3.25");
    assert!(Real::new(chars("three")).is_none());
}

#[test]
fn channels() {
    assert_eq!(parse_channel(&chars("0")), Some(0));
    assert_eq!(parse_channel(&chars("255")), Some(255));
    assert_eq!(parse_channel(&chars("+7")), Some(7));
    assert_eq!(parse_channel(&chars("007")), Some(7));
    assert_eq!(parse_channel(&chars("256")), None);
    assert_eq!(parse_channel(&chars("1000")), None);
    assert_eq!(parse_channel(&chars("-1")), None);
    assert_eq!(parse_channel(&chars("+")), None);
    assert_eq!(parse_channel(&chars("")), None);
    assert_eq!(parse_channel(&chars("1.0")), None);
}

#[test]
fn try_pop_takes_the_top() {
    let mut stack = vec![chars("1"), chars("2.5")];
    let r = try_pop(&mut stack).unwrap();
    assert_eq!(r.text().iter().collect::<String>(), "2.5");
    assert_eq!(stack.len(), 1);
    let mut stack = vec![chars("abc")];
    assert_eq!(try_pop(&mut stack).unwrap_err(), ParseError::BadNumber);
    assert!(stack.is_empty());
    assert_eq!(try_pop(&mut stack).unwrap_err(), ParseError::EmptyStack);
}

#[test]
fn except_skips_one() {
    let v = vec![1, 2, 3, 4];
    assert_eq!(jtracer::except(&v, 0), vec![2, 3, 4]);
    assert_eq!(jtracer::except(&v, 2), vec![1, 2, 4]);
    assert_eq!(jtracer::except(&v, 4), vec![1, 2, 3, 4]);
    assert_eq!(jtracer::except(&Vec::<u8>::new(), 0), Vec::<u8>::new());
}
