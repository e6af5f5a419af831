use yaml_value::decimal::is_decimal_text;
use yaml_value::number::Number;

#[test]
fn finite_numbers_are_decimal() {
    for s in [
        "0", "5", "007", "1.5", "1.", ".5", "+1", "-1", "+.5", "-5.", "1e3", "1E3", "1e+3", "1e-3",
        "1.5e10", ".5E-2", "5.e2", "-0.0", "123456789012345678901234567890", "1e400",
    ] {
        assert!(is_decimal_text(s), "{:?}", s);
    }
}

#[test]
fn special_words_are_decimal_in_any_case() {
    for s in [
        "inf", "INF", "Inf", "iNf", "infinity", "INFINITY", "Infinity", "nan", "NaN", "NAN", "+inf",
        "-inf", "-nan", "+infinity", "-Infinity",
    ] {
        assert!(is_decimal_text(s), "{:?}", s);
    }
}

#[test]
fn other_texts_are_not_decimal() {
    for s in [
        "", "+", "-", ".", "+.", "e", "e5", ".e5", "1e", "1e+", "1e-", "1e5.0", "1.2.3", "1..2",
        "--1", "+-1", "1+", "1 ", " 1", "1_000", "0x10", "1f", "not-a-number", "in", "infinit",
        "infinityy", "na", "nanx", "i", ".inf", ".nan", "1,5", "١", "1e٣", "é", "1\u{0}",
    ] {
        assert!(!is_decimal_text(s), "{:?}", s);
    }
}

#[test]
fn decimal_texts_are_what_std_reads_as_a_float() {
    let pieces = ["", "+", "-", "1", "0", ".", "e", "E", "inf", "nan", "9", "x", " ", "infinity"];
    for a in pieces {
        for b in pieces {
            for c in pieces {
                for d in pieces {
                    let s = format!("{}{}{}{}", a, b, c, d);
                    assert_eq!(is_decimal_text(&s), s.parse::<f32>().is_ok(), "{:?}", s);
                }
            }
        }
    }
}

#[test]
fn from_text_keeps_a_decimal_text() {
    assert_eq!(Number::from_text("12.75").as_str(), "12.75");
    assert_eq!(Number::from_text("-1e-3").as_str(), "-1e-3");
    assert_eq!(Number::from_text("Infinity").as_str(), "Infinity");
}

#[test]
fn from_text_gives_zero_for_another_text() {
    assert_eq!(Number::from_text("twelve").as_str(), "0");
    assert_eq!(Number::from_text("").as_str(), "0");
    assert_eq!(Number::from_text("twelve"), Number::zero());
}

#[test]
fn zero_is_written_as_one_digit() {
    assert_eq!(Number::zero().as_str(), "0");
    assert_eq!(Number::zero().as_str().parse::<f32>().unwrap(), 0.0);
}

#[test]
fn from_integer_writes_the_integer() {
    assert_eq!(Number::from_integer(0).as_str(), "0");
    assert_eq!(Number::from_integer(5).as_str(), "5");
    assert_eq!(Number::from_integer(-5).as_str(), "-5");
    assert_eq!(Number::from_integer(1234567890).as_str(), "1234567890");
    assert_eq!(Number::from_integer(i64::MIN).as_str(), "-9223372036854775808");
}

#[test]
fn from_index_writes_the_index() {
    assert_eq!(Number::from_index(0).as_str(), "0");
    assert_eq!(Number::from_index(10).as_str(), "10");
    assert_eq!(Number::from_index(65535).as_str(), "65535");
}

#[test]
fn numbers_are_the_same_where_they_are_written_alike() {
    assert!(Number::from_text("5").same(&Number::from_integer(5)));
    assert!(!Number::from_text("5.0").same(&Number::from_integer(5)));
    assert_eq!(Number::from_text("5"), Number::from_index(5));
    assert_ne!(Number::from_text("5"), Number::from_text("6"));
}

#[test]
fn copy_of_a_number_is_the_same_number() {
    let n = Number::from_text("3.25");
    assert_eq!(n.clone(), n);
}

#[test]
fn every_short_text_over_the_letters_of_numbers_is_judged_as_std_judges_it() {
    let letters = ['+', '-', '.', 'e', 'E', '0', '7', 'n', 'a', 'i', 'f'];
    let mut texts: Vec<String> = vec![String::new()];
    let mut from = 0;
    for _ in 0..5 {
        let to = texts.len();
        for index in from..to {
            for letter in letters {
                let mut longer = texts[index].clone();
                longer.push(letter);
                texts.push(longer);
            }
        }
        from = to;
    }
    assert_eq!(texts.len(), 1 + 11 + 121 + 1331 + 14641 + 161051);
    for s in &texts {
        assert_eq!(is_decimal_text(s), s.parse::<f32>().is_ok(), "{:?}", s);
    }
}
