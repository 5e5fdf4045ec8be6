use std::cmp::Ordering;
use tuple_space::tuple::tuple::{Tuple, TupleBuilder, TupleField, TupleParseError};
use tuple_space::util::Serializable;

fn float(v: f32) -> TupleField {
    TupleField::Float(Some(v.to_bits()))
}

fn float_bits(text: &str) -> Vec<Option<u32>> {
    Tuple::float_literals(text)
        .iter()
        .map(|literal| literal.parse::<f32>().ok().map(f32::to_bits))
        .collect()
}

fn parse(text: &str) -> Result<Tuple, TupleParseError> {
    Tuple::from_str(text, &float_bits(text))
}

#[test]
fn tuple_creation_test() {
    let mut tuple_manual = Tuple::with_capacity("t1", 2);
    tuple_manual.insert(0, float(6.276));
    tuple_manual.insert(1, TupleField::Int(None));

    let tuple_auto = parse("('t1', float 6.276, int ?)").unwrap();

    assert_eq!(tuple_manual, tuple_auto);
}

#[test]
fn tuple_serialization_test() {
    let t1 = parse("('t1', float 6.276, int ?)").unwrap();
    let t1_bytes = t1.serialize();
    let t1_from_bytes = Tuple::deserialize(&t1_bytes).unwrap();

    assert_eq!(t1, t1_from_bytes)
}

#[test]
fn tuple_from_str_natalia_test() {
    let t1 = parse("('japierdole', INT 69, FLOAT 21.37, INT ?)");

    assert!(t1.is_ok())
}

#[test]
fn tuple_match_test() {
    let tuple = parse("('t1', int 123, float 213.7)").unwrap();
    let tuple_template = parse("('t1', int ?, float 213.7)").unwrap();

    assert!(tuple.matches(&tuple_template))
}

#[test]
fn tuple_not_matches_test() {
    let tuple = parse("('t1', int 123, float 213.7)").unwrap();
    let tuple_template = parse("('t1', float 213.7, int 123)").unwrap();

    assert!(!tuple.matches(&tuple_template))
}

#[test]
fn tuple_tuple_creation_test() {
    let mut tuple_manual = Tuple::with_capacity("t1", 2);
    tuple_manual.insert(0, float(6.276));
    tuple_manual.insert(1, TupleField::Int(None));

    let tuple_auto = parse("('t1', float 6.276, int ?)").unwrap();

    assert_eq!(tuple_manual, tuple_auto);
}

#[test]
fn tuple_tuple_serialization_test() {
    let t1 = parse("('t1', float 6.276, int ?)").unwrap();
    let t1_bytes = t1.serialize();
    let t1_from_bytes = Tuple::deserialize(&t1_bytes).unwrap();

    assert_eq!(t1, t1_from_bytes)
}

#[test]
fn tuple_tuple_from_str_natalia_test() {
    let t1 = parse("('japierdole', INT 69, FLOAT 21.37, INT ?)");

    assert!(t1.is_ok())
}

#[test]
fn tuple_tuple_match_test() {
    let tuple = parse("('t1', int 123, float 213.7)").unwrap();
    let tuple_template = parse("('t1', int ?, float 213.7)").unwrap();

    assert!(tuple.matches(&tuple_template))
}

#[test]
fn tuple_tuple_not_matches_test() {
    let tuple = parse("('t1', int 123, float 213.7)").unwrap();
    let tuple_template = parse("('t1', float 213.7, int 123)").unwrap();

    assert!(!tuple.matches(&tuple_template))
}

#[test]
fn mem_layout_test() {
    let ser1 = Tuple::default().serialize();
    let ser2 = Tuple::new("").serialize();
    assert_eq!(ser1, ser2)
}

#[test]
fn text_to_binary_and_back() {
    let t = parse("('p1', int 7, float 3.14)").unwrap();
    assert_eq!(t.name, "p1");
    assert_eq!(t.fields, vec![TupleField::Int(Some(7)), float(3.14)]);
    let bytes = t.serialize();
    assert_eq!(bytes.len(), 17);
    assert_eq!(Tuple::deserialize(&bytes), Ok(t));
}

#[test]
fn length_of_a_six_byte_name_and_two_values() {
    let t = parse("('tuple1', int 7, float 3.14)").unwrap();
    // name and zero byte, count, two records of five bytes
    assert_eq!(t.serialize().len(), 7 + 4 + 2 * 5);
    assert_eq!(Tuple::deserialize(&t.serialize()), Ok(t));
}

#[test]
fn binary_form_of_two_fields() {
    let mut t = Tuple::with_capacity("p1", 2);
    t.insert(0, TupleField::Int(Some(7)));
    t.insert(1, float(3.14));
    let bytes = t.serialize();
    let pi = 3.14f32.to_be_bytes();
    assert_eq!(
        bytes,
        vec![b'p', b'1', 0, 0, 0, 0, 2, 0x90, 0, 0, 0, 7, 0xA0, pi[0], pi[1], pi[2], pi[3]]
    );
    assert_eq!(Tuple::deserialize(&bytes), Ok(t));
}

#[test]
fn binary_form_of_wildcards() {
    let t = TupleBuilder::new()
        .name("w")
        .field(TupleField::Int(None))
        .field(TupleField::Float(None))
        .field(TupleField::Undefined)
        .build();
    let bytes = t.serialize();
    assert_eq!(bytes, vec![b'w', 0, 0, 0, 0, 3, 0x10, 0x20, 0x00]);
    assert_eq!(Tuple::deserialize(&bytes), Ok(t));
}

#[test]
fn negative_int_is_twos_complement() {
    let mut t = Tuple::with_capacity("n", 1);
    t.insert(0, TupleField::Int(Some(-2)));
    let bytes = t.serialize();
    assert_eq!(bytes, vec![b'n', 0, 0, 0, 0, 1, 0x90, 0xFF, 0xFF, 0xFF, 0xFE]);
    assert_eq!(Tuple::deserialize(&bytes), Ok(t));
}

#[test]
fn extreme_ints_round_trip() {
    for v in [i32::MIN, -1, 0, 1, i32::MAX] {
        let t = TupleBuilder::new().name("x").field(TupleField::Int(Some(v))).build();
        assert_eq!(Tuple::deserialize(&t.serialize()), Ok(t));
    }
}

#[test]
fn encoding_is_deterministic() {
    let t = parse("('d', int 5, float 1.5, ?)").unwrap();
    assert_eq!(t.serialize(), t.serialize());
    assert_eq!(t.serialize(), t.duplicate().serialize());
}

#[test]
fn non_ascii_name_round_trips() {
    let t = TupleBuilder::new().name("zażółć").field(TupleField::Int(Some(1))).build();
    assert!(t.is_valid());
    assert_eq!(Tuple::deserialize(&t.serialize()), Ok(t));
}

#[test]
fn missing_terminator_is_a_name_error() {
    assert_eq!(Tuple::deserialize(b"abc"), Err(TupleParseError::NameError));
    assert_eq!(Tuple::deserialize(b""), Err(TupleParseError::NameError));
}

#[test]
fn name_of_32_bytes_is_a_name_error() {
    let mut bytes = vec![b'a'; 32];
    bytes.extend([0, 0, 0, 0, 0]);
    assert_eq!(Tuple::deserialize(&bytes), Err(TupleParseError::NameError));
    let mut bytes = vec![b'a'; 31];
    bytes.extend([0, 0, 0, 0, 0]);
    assert!(Tuple::deserialize(&bytes).is_ok());
}

#[test]
fn name_that_is_not_utf8_is_a_name_error() {
    assert_eq!(
        Tuple::deserialize(&[0xFF, 0, 0, 0, 0, 0]),
        Err(TupleParseError::NameError)
    );
}

#[test]
fn count_that_differs_from_the_records_is_invalid() {
    assert_eq!(
        Tuple::deserialize(&[b'a', 0, 0, 0, 0, 2, 0x10]),
        Err(TupleParseError::InvalidFormat)
    );
    assert_eq!(
        Tuple::deserialize(&[b'a', 0, 0, 0, 0, 0, 0x10]),
        Err(TupleParseError::InvalidFormat)
    );
    assert_eq!(Tuple::deserialize(&[b'a', 0, 0, 0]), Err(TupleParseError::InvalidFormat));
}

#[test]
fn unknown_tag_is_invalid() {
    assert_eq!(
        Tuple::deserialize(&[b'a', 0, 0, 0, 0, 1, 0x30]),
        Err(TupleParseError::InvalidFormat)
    );
    assert_eq!(
        Tuple::deserialize(&[b'a', 0, 0, 0, 0, 1, 0x80, 0, 0, 0, 0]),
        Err(TupleParseError::InvalidFormat)
    );
    assert_eq!(
        Tuple::deserialize(&[b'a', 0, 0, 0, 0, 1, 0x11]),
        Err(TupleParseError::InvalidFormat)
    );
}

#[test]
fn payload_cut_short_is_invalid() {
    assert_eq!(
        Tuple::deserialize(&[b'a', 0, 0, 0, 0, 1, 0x90, 0, 0, 0]),
        Err(TupleParseError::InvalidFormat)
    );
}

#[test]
fn text_errors() {
    assert_eq!(parse(""), Err(TupleParseError::NameError));
    assert_eq!(parse("'t1', int 1"), Err(TupleParseError::InvalidFormat));
    assert_eq!(parse("("), Err(TupleParseError::InvalidFormat));
    assert_eq!(parse("('t1', int1)"), Err(TupleParseError::InvalidFormat));
    assert_eq!(parse("('t1', bool 1)"), Err(TupleParseError::UnsupportedType));
    assert_eq!(parse("('t1', int seven)"), Err(TupleParseError::ValueParseError));
    assert_eq!(parse("('t1', int 2147483648)"), Err(TupleParseError::ValueParseError));
    assert_eq!(parse("('t1', float x)"), Err(TupleParseError::ValueParseError));
    assert_eq!(parse("(t1, int 1)"), Err(TupleParseError::NameError));
    assert_eq!(parse("()"), Err(TupleParseError::NameError));
    assert_eq!(parse("('t1',)"), Err(TupleParseError::InvalidFormat));
    assert_eq!(
        parse("('a name that is longer than 31 bytes')"),
        Err(TupleParseError::NameError)
    );
}

#[test]
fn first_error_in_the_text_wins() {
    assert_eq!(parse("('t1', float x, bool 1)"), Err(TupleParseError::ValueParseError));
    assert_eq!(parse("('t1', bool 1, float x)"), Err(TupleParseError::UnsupportedType));
}

#[test]
fn text_fields() {
    let t = parse("( 't' , undefined,undef , UNDEFINED, UNDEF, ?, INT -12, int +7, FLOAT ?, int ? )")
        .unwrap();
    assert_eq!(t.name, "t");
    assert_eq!(
        t.fields,
        vec![
            TupleField::Undefined,
            TupleField::Undefined,
            TupleField::Undefined,
            TupleField::Undefined,
            TupleField::Undefined,
            TupleField::Int(Some(-12)),
            TupleField::Int(Some(7)),
            TupleField::Float(None),
            TupleField::Int(None),
        ]
    );
    assert_eq!(parse("('t', int -2147483648)").unwrap().fields, vec![TupleField::Int(Some(i32::MIN))]);
    assert_eq!(parse("('t', int 2147483647)").unwrap().fields, vec![TupleField::Int(Some(i32::MAX))]);
    assert_eq!(parse("('')").unwrap(), Tuple::new(""));
}

#[test]
fn float_literals_are_listed_in_order() {
    assert_eq!(
        Tuple::float_literals("('t', float 1.5, int 2, FLOAT  -3e2 , float ?, float x, bool 1, float 9)"),
        vec!["1.5".to_string(), "-3e2".to_string(), "x".to_string()]
    );
    assert_eq!(Tuple::float_literals("t"), Vec::<String>::new());
}

#[test]
fn missing_float_bits_are_a_value_error() {
    assert_eq!(
        Tuple::from_str("('t', float 1.5)", &[]),
        Err(TupleParseError::ValueParseError)
    );
    assert_eq!(
        Tuple::from_str("('t', float 1.5)", &[Some(7)]).unwrap().fields,
        vec![TupleField::Float(Some(7))]
    );
}

#[test]
fn wildcards_do_not_match_themselves() {
    let t = parse("('t', int ?, float ?)").unwrap();
    assert!(!t.matches(&t));
    let u = parse("('t', ?)").unwrap();
    assert!(!u.matches(&u));
    assert!(Tuple::new("t").matches(&Tuple::new("t")));
}

#[test]
fn matching_is_symmetric() {
    let a = parse("('t', int 1, float ?)").unwrap();
    let b = parse("('t', int ?, float 2.5)").unwrap();
    let c = parse("('t', int 2, float 2.5)").unwrap();
    assert!(a.matches(&b) && b.matches(&a));
    assert!(!a.matches(&c) && !c.matches(&a));
    assert!(b.matches(&c) && c.matches(&b));
}

#[test]
fn concrete_tuple_matches_its_templates() {
    let t = parse("('t', int 1, float 2.5, int 3)").unwrap();
    assert!(t.is_concrete());
    assert!(t.matches(&t));
    assert!(t.matches(&parse("('t', int ?, float 2.5, int ?)").unwrap()));
    assert!(t.matches(&parse("('t', int ?, float ?, int ?)").unwrap()));
    assert!(!t.matches(&parse("('u', int ?, float ?, int ?)").unwrap()));
    assert!(!t.matches(&parse("('t', int ?, float ?)").unwrap()));
}

#[test]
fn float_values_match_by_bits_and_nan_matches_nothing() {
    let zero = TupleBuilder::new().name("f").field(float(0.0)).build();
    let minus_zero = TupleBuilder::new().name("f").field(float(-0.0)).build();
    let nan = TupleBuilder::new().name("f").field(float(f32::NAN)).build();
    assert!(zero.matches(&zero));
    assert!(!zero.matches(&minus_zero));
    assert!(!nan.matches(&nan));
    assert!(nan.matches(&parse("('f', float ?)").unwrap()));
}

#[test]
fn binary_order() {
    assert_eq!(Tuple::cmp_serialized(&[1, 2], &[1, 2, 0]), Ordering::Less);
    assert_eq!(Tuple::cmp_serialized(&[1, 3], &[1, 2, 0]), Ordering::Greater);
    assert_eq!(Tuple::cmp_serialized(&[1, 2], &[1, 2]), Ordering::Equal);
    assert_eq!(Tuple::cmp_serialized(&[], &[0]), Ordering::Less);
    let a = parse("('k', int 1)").unwrap();
    let b = parse("('k', int 2)").unwrap();
    assert_eq!(a.cmp_binary(&b), Ordering::Less);
    assert_eq!(b.cmp_binary(&a), Ordering::Greater);
    assert_eq!(a.cmp_binary(&a), Ordering::Equal);
}

#[test]
fn getters() {
    let mut t = Tuple::with_capacity("g", 2);
    assert_eq!(t.len(), 2);
    assert!(!t.is_empty());
    assert_eq!(t.get(0), Some(TupleField::Undefined));
    assert_eq!(t.get(2), None);
    t.insert(1, TupleField::Int(Some(4)));
    assert_eq!(t.get(1), Some(TupleField::Int(Some(4))));
    assert!(Tuple::new("g").is_empty());
}

#[test]
fn validity() {
    assert!(Tuple::new("a").is_valid());
    assert!(!Tuple::new("a\0b").is_valid());
    assert!(!Tuple::new("a name that is longer than 31 bytes").is_valid());
    let mut t = Tuple::new("many");
    t.fields = vec![TupleField::Undefined; 256];
    assert!(!t.is_valid());
    t.fields.pop();
    assert!(t.is_valid());
}

#[test]
fn error_messages() {
    assert_eq!(
        TupleParseError::InvalidFormat.message(),
        "TupleParseError::InvalidFormat: The provided tuple representation has invalid format."
    );
    assert!(TupleParseError::NameError.message().ends_with("Max name length: 31"));
}
