use bencode::decode::decode_bencoded_value;
use bencode::decode::DecoderKind;
use bencode::input::BencodedDecodeInput;
use bencode::value::Value;

fn dec(input: &str) -> Value {
    decode_bencoded_value(input.to_string()).expect("decoding failed")
}

fn s(text: &str) -> Value {
    Value::Str(text.to_string())
}

#[test]
fn test_string() {
    assert_eq!(dec("4:spam"), s("spam"));
    assert_eq!(dec("0:"), s(""));
}

#[test]
fn test_integer() {
    assert_eq!(dec("i3e"), Value::Int(3));
    assert_eq!(dec("i-3e"), Value::Int(-3));
}

#[test]
fn test_list() {
    assert_eq!(dec("l4:spam4:eggse"), Value::List(vec![s("spam"), s("eggs")]));
    assert_eq!(dec("le"), Value::List(vec![]));
    assert_eq!(
        dec("li32elei2e1:se"),
        Value::List(vec![Value::Int(32), Value::List(vec![]), Value::Int(2), s("s")])
    );
}

#[test]
fn test_dict() {
    assert_eq!(
        dec("d3:cow3:moo4:spam4:eggse"),
        Value::Dict(vec![("cow".to_string(), s("moo")), ("spam".to_string(), s("eggs"))])
    );
    assert_eq!(
        dec("d4:spaml1:a1:bee"),
        Value::Dict(vec![("spam".to_string(), Value::List(vec![s("a"), s("b")]))])
    );
    assert_eq!(
        dec("d9:publisher3:bob17:publisher-webpage15:www.example.com18:publisher.location4:homee"),
        Value::Dict(vec![
            ("publisher".to_string(), s("bob")),
            ("publisher-webpage".to_string(), s("www.example.com")),
            ("publisher.location".to_string(), s("home")),
        ])
    );
    assert_eq!(dec("de"), Value::Dict(vec![]));
}

#[test]
fn test_integer_zero() {
    assert_eq!(dec("i0e"), Value::Int(0));
}

#[test]
fn test_integer_limits() {
    assert_eq!(dec("i9223372036854775807e"), Value::Int(i64::MAX));
    assert_eq!(dec("i-9223372036854775808e"), Value::Int(i64::MIN));
    assert_eq!(decode_bencoded_value("i9223372036854775808e".to_string()), None);
    assert_eq!(decode_bencoded_value("i-9223372036854775809e".to_string()), None);
    assert_eq!(decode_bencoded_value("i99999999999999999999999999e".to_string()), None);
}

#[test]
fn test_malformed_inputs_fail() {
    assert_eq!(decode_bencoded_value("i3".to_string()), None);
    assert_eq!(decode_bencoded_value("4spam".to_string()), None);
    assert_eq!(decode_bencoded_value("10:abc".to_string()), None);
    assert_eq!(decode_bencoded_value("l4:spam".to_string()), None);
    assert_eq!(decode_bencoded_value("d3:cow3:moo".to_string()), None);
    assert_eq!(decode_bencoded_value("".to_string()), None);
    assert_eq!(decode_bencoded_value("ie".to_string()), None);
    assert_eq!(decode_bencoded_value("i-e".to_string()), None);
    assert_eq!(decode_bencoded_value("i1-2e".to_string()), None);
    assert_eq!(decode_bencoded_value("xyz".to_string()), None);
    assert_eq!(decode_bencoded_value("d3:cowe".to_string()), None);
}

#[test]
fn test_string_length_overflow_fails() {
    assert_eq!(decode_bencoded_value("99999999999999999999999:a".to_string()), None);
}

#[test]
fn test_dict_insertion_order_kept() {
    assert_eq!(
        dec("d1:b1:y1:a1:x1:c1:ze"),
        Value::Dict(vec![
            ("b".to_string(), s("y")),
            ("a".to_string(), s("x")),
            ("c".to_string(), s("z")),
        ])
    );
}

#[test]
fn test_dict_repeated_key_last_value_wins() {
    assert_eq!(
        dec("d1:a1:x1:b1:y1:a1:ze"),
        Value::Dict(vec![("a".to_string(), s("z")), ("b".to_string(), s("y"))])
    );
}

#[test]
fn test_trailing_input_ignored() {
    assert_eq!(dec("i3etrailing"), Value::Int(3));
    assert_eq!(dec("4:spam4:eggs"), s("spam"));
}

#[test]
fn test_decode_twice_equal() {
    let input = "d4:spaml1:a1:bee";
    assert_eq!(dec(input), dec(input));
}

#[test]
fn test_nested_structures() {
    assert_eq!(
        dec("d4:infod6:lengthi1337eee"),
        Value::Dict(vec![(
            "info".to_string(),
            Value::Dict(vec![("length".to_string(), Value::Int(1337))]),
        )])
    );
}

#[test]
fn test_cursor_iteration() {
    let input = BencodedDecodeInput::new(vec!['a', 'b']);
    let mut it = input.iter();
    assert_eq!(it.next(), Some('a'));
    assert_eq!(it.next(), Some('b'));
    assert_eq!(it.next(), None);
    let mut own = input.iter_mut();
    assert_eq!(own.next(), Some('a'));
    let back = own.into_input();
    assert_eq!(back.position(), 1);
    assert_eq!(back.input_len(), 2);
}

#[test]
fn test_next_decoder_dispatch() {
    let kinds: Vec<DecoderKind> = ["4:ab", "i3e", "le", "de", "e", ""]
        .iter()
        .map(|t| BencodedDecodeInput::new(t.chars().collect()).next_decoder())
        .collect();
    assert_eq!(
        kinds,
        vec![
            DecoderKind::Str,
            DecoderKind::Int,
            DecoderKind::List,
            DecoderKind::Dict,
            DecoderKind::Failure,
            DecoderKind::Failure,
        ]
    );
}

#[test]
fn test_element_stream() {
    let input = BencodedDecodeInput::new("i1ei2eX".chars().collect());
    let mut it = input.decode_iter_mut();
    assert_eq!(it.next(), Some(Value::Int(1)));
    assert_eq!(it.next(), Some(Value::Int(2)));
    assert_eq!(it.next(), None);
    assert_eq!(it.into_input().position(), 6);
}

#[test]
fn test_list_element_stream() {
    let input = BencodedDecodeInput::new("4:spamle".chars().collect());
    let mut it = input.decode_list_iter_mut();
    assert_eq!(it.next(), Some(s("spam")));
    assert_eq!(it.next(), Some(Value::List(vec![])));
    assert_eq!(it.next(), None);
}

#[test]
fn test_pair_stream() {
    let input = BencodedDecodeInput::new("1:a1:be".chars().collect());
    let mut it = input.decode_dict_iter_mut();
    assert_eq!(it.next(), Some(("a".to_string(), Some(s("b")))));
    assert_eq!(it.next(), None);
    assert_eq!(it.into_input().position(), 6);
}
