use yaml_rust::YamlLoader;
use yaml_value::decode::{decode_documents, decode_yaml, DecodeError};
use yaml_value::document::Node;
use yaml_value::number::Number;
use yaml_value::value::{List, Value};

fn text(s: &str) -> Value {
    Value::String(s.to_string())
}

fn num(s: &str) -> Value {
    Value::Number(Number::from_text(s))
}

fn decoded(s: &str) -> Value {
    match decode_yaml(s) {
        Ok(value) => value,
        Err(error) => panic!("{:?} is reported as malformed: {:?}", s, error),
    }
}

#[test]
fn every_short_text_is_parsed_or_reported() {
    let letters = [
        'a', '1', ' ', '\n', ':', '-', ',', '[', ']', '{', '}', '?', '&', '*', '!', '|', '>', '\'',
        '"', '#', '%', '\\',
    ];
    let mut texts: Vec<String> = vec![String::new()];
    let mut from = 0;
    for _ in 0..4 {
        let to = texts.len();
        for index in from..to {
            for letter in letters {
                let mut longer = texts[index].clone();
                longer.push(letter);
                texts.push(longer);
            }
        }
        from = to;
    }
    let mut parsed = 0;
    let mut reported = 0;
    for s in &texts {
        match decode_yaml(s) {
            Ok(_) => parsed += 1,
            Err(DecodeError::Parse(_)) => reported += 1,
        }
    }
    assert_eq!(parsed + reported, texts.len());
    assert!(parsed > 0);
    assert!(reported > 0);
}

fn positional(values: Vec<Value>) -> Value {
    let mut list = List::new();
    for value in values {
        list.append(value);
    }
    Value::List(list)
}

fn keyed(pairs: Vec<(Value, Value)>) -> Value {
    let mut list = List::new();
    for (key, value) in pairs {
        list.append(key.clone());
        list.set(key, value);
    }
    Value::List(list)
}

#[test]
fn decode_reads_truth_values() {
    assert_eq!(decoded("true"), Value::Boolean(true));
    assert_eq!(decoded("false"), Value::Boolean(false));
}

#[test]
fn decode_reads_null() {
    assert_eq!(decoded("~"), Value::Null);
    assert_eq!(decoded("null"), Value::Null);
}

#[test]
fn decode_reads_integers() {
    assert_eq!(decoded("12"), num("12"));
    assert_eq!(decoded("-3"), num("-3"));
    assert_eq!(decoded("+7"), num("7"));
    assert_eq!(decoded("0x1F"), num("31"));
    assert_eq!(decoded("0o17"), num("15"));
}

#[test]
fn decode_reads_reals() {
    assert_eq!(decoded("1.5"), num("1.5"));
    assert_eq!(decoded("2e3"), num("2e3"));
}

#[test]
fn decode_reads_yaml_infinity_as_zero() {
    assert_eq!(decoded(".inf"), Value::Number(Number::zero()));
    assert_eq!(decoded(".nan"), Value::Number(Number::zero()));
}

#[test]
fn decode_reads_plain_and_quoted_texts() {
    assert_eq!(decoded("hello"), text("hello"));
    assert_eq!(decoded("True"), text("True"));
    assert_eq!(decoded("'12'"), text("12"));
    assert_eq!(decoded("\"true\""), text("true"));
}

#[test]
fn decode_reads_a_scalar_with_a_tag_it_does_not_fit_as_null() {
    assert_eq!(decoded("!!int abc"), Value::Null);
}

#[test]
fn decode_reads_a_flow_sequence() {
    assert_eq!(decoded("[1, 2]"), positional(vec![num("1"), num("2")]));
    assert_eq!(decoded("[]"), positional(vec![]));
}

#[test]
fn decode_reads_a_block_sequence() {
    assert_eq!(decoded("- a\n- b\n- ~\n"), positional(vec![text("a"), text("b"), Value::Null]));
}

#[test]
fn decode_reads_a_mapping_with_its_keys_in_order() {
    let value = decoded("b: 1\na: x\n");
    assert_eq!(value, keyed(vec![(text("b"), num("1")), (text("a"), text("x"))]));
    match &value {
        Value::List(list) => {
            assert_eq!(list.len(), 2);
            assert_eq!(list.get(1), Some(&text("b")));
            assert_eq!(list.lookup(&text("a")), Some(&text("x")));
        }
        other => panic!("not a container: {:?}", other),
    }
}

#[test]
fn decode_reads_nested_documents() {
    assert_eq!(
        decoded("k:\n  - 1\n  - {x: y}\n"),
        keyed(vec![(
            text("k"),
            positional(vec![num("1"), keyed(vec![(text("x"), text("y"))])]),
        )])
    );
}

#[test]
fn decode_reads_a_repeated_key_once_with_the_later_value() {
    assert_eq!(decoded("k: 1\nk: 2\n"), keyed(vec![(text("k"), num("2"))]));
}

#[test]
fn decode_reads_an_alias_as_what_its_anchor_holds() {
    assert_eq!(
        decoded("a: &x 1\nb: *x\n"),
        keyed(vec![(text("a"), num("1")), (text("b"), num("1"))])
    );
}

#[test]
fn decode_reads_a_text_without_a_document_as_null() {
    assert_eq!(decoded(""), Value::Null);
    assert_eq!(decoded("# nothing here\n"), Value::Null);
}

#[test]
fn decode_reads_the_first_of_several_documents() {
    assert_eq!(decoded("--- a\n--- b\n"), text("a"));
    assert_eq!(decoded("- 1\n---\n- 2\n"), positional(vec![num("1")]));
}

#[test]
fn decode_hands_back_the_error_of_the_parser() {
    for s in ["[1, 2", "{a: 1", "a: b: c", "\"open", "- a\n b: c\n  - d", "*", "@"] {
        let expected = YamlLoader::load_from_str(s).unwrap_err();
        match decode_yaml(s) {
            Err(DecodeError::Parse(error)) => assert_eq!(error, expected, "{:?}", s),
            Ok(value) => panic!("{:?} decodes to {:?}", s, value),
        }
    }
}

#[test]
fn parsed_documents_decode_to_the_value_of_the_first() {
    let documents = vec![Node::Integer(1), Node::Integer(2)];
    assert_eq!(decode_documents(Ok(documents)).unwrap(), num("1"));
    let one = vec![Node::Sequence(vec![Node::Boolean(true)])];
    assert_eq!(decode_documents(Ok(one)).unwrap(), positional(vec![Value::Boolean(true)]));
}

#[test]
fn no_parsed_document_decodes_to_null() {
    assert_eq!(decode_documents(Ok(vec![])).unwrap(), Value::Null);
}

#[test]
fn error_of_the_parser_is_kept_as_it_came() {
    let error = YamlLoader::load_from_str("[").unwrap_err();
    match decode_documents(Err(error.clone())) {
        Err(DecodeError::Parse(kept)) => {
            assert_eq!(kept, error);
            assert_eq!(kept.to_string(), error.to_string());
        }
        Ok(value) => panic!("decodes to {:?}", value),
    }
}

#[test]
fn deeply_nested_text_is_parsed_or_reported() {
    assert!(decode_yaml(&"[".repeat(300)).is_err());
    let closed = format!("{}{}", "[".repeat(50), "]".repeat(50));
    assert!(decode_yaml(&closed).is_ok());
}
