use fixed_width::{DeserializeError, Deserializer, Element, FieldSet};

fn one(range: std::ops::Range<usize>) -> FieldSet {
    FieldSet::Group(vec![FieldSet::new_field(range)])
}

#[test]
fn bool_de() {
    let fields = one(0..1);
    let t = Deserializer::new(b"1", fields).next_bool().unwrap();
    let f = Deserializer::new(b"0", one(0..1)).next_bool().unwrap();

    assert!(t);
    assert!(!f);
}

#[test]
fn int_de() {
    let uint8 = Deserializer::new(b"0123", one(0..4)).next_u64().unwrap();
    let iint8 = Deserializer::new(b"-123", one(0..4)).next_i64().unwrap();
    assert_eq!(u8::try_from(uint8).unwrap(), 123);
    assert_eq!(i8::try_from(iint8).unwrap(), -123);

    let uint16 = Deserializer::new(b"0123", one(0..4)).next_u64().unwrap();
    let iint16 = Deserializer::new(b"-123", one(0..4)).next_i64().unwrap();
    assert_eq!(u16::try_from(uint16).unwrap(), 123);
    assert_eq!(i16::try_from(iint16).unwrap(), -123);

    let uint32 = Deserializer::new(b"0123", one(0..4)).next_u64().unwrap();
    let iint32 = Deserializer::new(b"-123", one(0..4)).next_i64().unwrap();
    assert_eq!(u32::try_from(uint32).unwrap(), 123);
    assert_eq!(i32::try_from(iint32).unwrap(), -123);

    let uint64 = Deserializer::new(b"0123", one(0..4)).next_u64().unwrap();
    let iint64 = Deserializer::new(b"-123", one(0..4)).next_i64().unwrap();
    assert_eq!(uint64, 123);
    assert_eq!(iint64, -123);
}

#[test]
fn float_de() {
    let pos: f64 = Deserializer::new(b"0123.1", one(0..6)).next_str().unwrap().parse().unwrap();
    let neg: f64 = Deserializer::new(b"-123.1", one(0..6)).next_str().unwrap().parse().unwrap();
    assert_eq!(pos, 123.1);
    assert_eq!(neg, -123.1);

    let pos32: f32 = Deserializer::new(b"0123.1", one(0..6)).next_str().unwrap().parse().unwrap();
    let neg32: f32 = Deserializer::new(b"-123.1", one(0..6)).next_str().unwrap().parse().unwrap();
    assert_eq!(pos32, 123.1);
    assert_eq!(neg32, -123.1);
}

#[test]
fn str_de() {
    let mut de = Deserializer::new(b"foobar", one(0..6));
    assert_eq!(de.next_str().unwrap(), "foobar");
}

#[test]
fn string_de() {
    let mut de = Deserializer::new(b"foobar", one(0..6));
    let s: String = de.next_str().unwrap().to_string();
    assert_eq!(s, "foobar");
}

#[test]
fn char_de() {
    let mut de = Deserializer::new(b"f", one(0..1));
    assert_eq!(de.next_char().unwrap(), 'f');
}

#[test]
fn bytes_de() {
    let mut de = Deserializer::new(b"foobar", one(0..6));
    let s: Vec<u8> = de.next_bytes().unwrap().to_vec();
    assert_eq!(s, b"foobar".to_vec());
}

#[test]
fn byte_buf_de() {
    let mut de = Deserializer::new(b"foobar", one(0..6));
    let s: &[u8] = de.next_bytes().unwrap();
    assert_eq!(s, b"foobar");
}

#[test]
fn option_de() {
    let mut de = Deserializer::new(b"c", one(0..1));
    assert!(!de.skip_if_blank().unwrap());
    assert_eq!(de.next_char().unwrap(), 'c');

    let mut de = Deserializer::new(b" ", one(0..1));
    assert!(de.skip_if_blank().unwrap());
    assert!(de.done());
}

#[test]
fn unit_de() {
    let mut de = Deserializer::new(b"c", one(0..1));
    de.skip_field();
    assert!(de.done());
}

#[test]
fn unit_struct_de() {
    let mut de = Deserializer::new(b"123", one(0..3));
    de.skip_field();
    assert!(de.done());
}

#[test]
fn newtype_struct_de() {
    let mut de = Deserializer::new(b"123", one(0..3));
    assert_eq!(de.next_u64().unwrap(), 123);
}

fn read_u64_seq(de: &mut Deserializer) -> Vec<u64> {
    let mut v = Vec::new();
    loop {
        match de.next_element() {
            Element::Leaf => v.push(de.next_u64().unwrap()),
            Element::Group(_) => panic!("unexpected group"),
            Element::End => return v,
        }
    }
}

#[test]
fn seq_de() {
    let fields = FieldSet::Group(vec![FieldSet::new_field(0..3), FieldSet::new_field(3..6)]);
    let mut de = Deserializer::new(b"111222", fields);
    assert_eq!(read_u64_seq(&mut de), vec![111, 222]);
}

fn test1_fields() -> FieldSet {
    FieldSet::Group(vec![
        FieldSet::new_field(0..3),
        FieldSet::new_field(3..6),
        FieldSet::new_field(6..10),
        FieldSet::new_field(10..13),
    ])
}

fn read_test1(de: &mut Deserializer) -> (u64, String, f64, Option<u64>) {
    let a = de.next_u64().unwrap();
    let b = de.next_str().unwrap().to_string();
    let c: f64 = de.next_str().unwrap().parse().unwrap();
    let d = if de.skip_if_blank().unwrap() { None } else { Some(de.next_u64().unwrap()) };
    (a, b, c, d)
}

#[test]
fn struct_de() {
    let input = b"123abc9876 12";
    let mut de = Deserializer::new(input, test1_fields());
    let (a, b, c, d) = read_test1(&mut de);

    assert_eq!(a, 123);
    assert_eq!(b, "abc");
    assert_eq!(c, 9876.0);
    assert_eq!(d, Some(12));
}

#[test]
fn tuple_de() {
    let fields = FieldSet::Group(vec![FieldSet::new_field(0..3), FieldSet::new_field(3..6)]);
    let mut de = Deserializer::new(b"111222", fields);
    let t = (de.next_u64().unwrap(), de.next_u64().unwrap());
    assert_eq!(t, (111, 222));
}

#[test]
fn tuple_struct_de() {
    let fields = FieldSet::Group(vec![FieldSet::new_field(0..3), FieldSet::new_field(3..6)]);
    let mut de = Deserializer::new(b"111222", fields);
    let t = (de.next_u64().unwrap(), de.next_u64().unwrap());
    assert_eq!(t, (111, 222));
}

fn read_string_map(de: &mut Deserializer) -> std::collections::HashMap<String, String> {
    let mut h = std::collections::HashMap::new();
    while let Some(k) = de.next_key().unwrap() {
        let v = de.next_str().unwrap().to_string();
        h.insert(k, v);
    }
    h
}

#[test]
fn hashmap_de() {
    let input = b"123abc9876 12";
    let mut de = Deserializer::new(
        input,
        FieldSet::Group(vec![
            FieldSet::new_field(0..3).name("a"),
            FieldSet::new_field(3..6).name("b"),
            FieldSet::new_field(6..10),
            FieldSet::new_field(10..13).name("d"),
        ]),
    );

    let test = read_string_map(&mut de);

    assert_eq!(test.get("a").unwrap(), "123");
    assert_eq!(test.get("b").unwrap(), "abc");
    assert_eq!(test.get("6..10").unwrap(), "9876");
    assert_eq!(test.get("d").unwrap(), "12");
}

#[test]
fn map_with_names() {
    let fields = FieldSet::Group(vec![
        FieldSet::new_field(0..4).name("numbers"),
        FieldSet::new_field(4..8).name("letters"),
    ]);
    let mut de = Deserializer::new(b"1234abcd", fields);
    let h = read_string_map(&mut de);
    assert_eq!(h.len(), 2);
    assert_eq!(h.get("numbers").unwrap(), "1234");
    assert_eq!(h.get("letters").unwrap(), "abcd");
}

#[test]
fn map_key_of_unnamed_field() {
    let fields = FieldSet::Group(vec![
        FieldSet::new_field(0..4).name("numbers"),
        FieldSet::new_field(4..8).name("letters"),
        FieldSet::new_field(8..10),
    ]);
    let mut de = Deserializer::new(b"1234abcd99", fields);
    let h = read_string_map(&mut de);
    assert_eq!(h.get("8..10").unwrap(), "99");
}

#[test]
fn map_key_of_group_is_an_error() {
    let fields = FieldSet::Group(vec![FieldSet::Group(vec![FieldSet::new_field(0..1)])]);
    let de = Deserializer::new(b"1", fields);
    assert!(matches!(de.next_key(), Err(DeserializeError::UnexpectedEndOfRecord)));
}

#[test]
fn enum_de() {
    let mut de = Deserializer::new(b"Foo", one(0..3));
    assert_eq!(de.next_variant(&["Foo"]).unwrap(), 0);
}

#[test]
fn from_str_de() {
    let s = "123abc9876 12";
    let mut de = Deserializer::new(s.as_bytes(), test1_fields());
    let (a, b, c, d) = read_test1(&mut de);

    assert_eq!(a, 123);
    assert_eq!(b, "abc");
    assert_eq!(c, 9876.0);
    assert_eq!(d, Some(12));
}

#[test]
fn from_bytes_de() {
    let b = b"123abc9876 12";
    let mut de = Deserializer::new(b, test1_fields());
    let (a, bb, c, d) = read_test1(&mut de);

    assert_eq!(a, 123);
    assert_eq!(bb, "abc");
    assert_eq!(c, 9876.0);
    assert_eq!(d, Some(12));
}

#[test]
fn test_does_not_panic_for_empty_char() {
    let mut de = Deserializer::new(b"  ", one(0..1));
    assert_eq!(de.next_char().unwrap(), ' ');
}

#[test]
fn test_does_not_panic_for_empty_bool() {
    let mut de = Deserializer::new(b"  ", one(0..1));
    assert!(!de.next_bool().unwrap());
}

#[test]
fn test_lowercase_serde_option_for_enum() {
    let mut de = Deserializer::new(b"bar", one(0..3));
    assert_eq!(de.next_variant(&["foo", "bar", "baz"]).unwrap(), 1);
}

#[test]
fn enum_tag_is_case_sensitive() {
    let mut de = Deserializer::new(b"bar", one(0..3));
    assert_eq!(de.next_variant(&["Foo", "Bar", "Baz"]).map_err(|_| ()), Err(()));
    let mut de = Deserializer::new(b"Bar", one(0..3));
    assert_eq!(de.next_variant(&["Foo", "Bar", "Baz"]).unwrap(), 1);
}

#[test]
fn test_nested_sturct() {
    let input = b"123abc9876 12321cba6789 21";
    let fields = FieldSet::Group(vec![
        FieldSet::Group(vec![
            FieldSet::new_field(0..3),
            FieldSet::new_field(3..6),
            FieldSet::new_field(6..10),
            FieldSet::new_field(10..13),
        ]),
        FieldSet::Group(vec![
            FieldSet::new_field(13..16),
            FieldSet::new_field(16..19),
            FieldSet::new_field(19..23),
            FieldSet::new_field(23..26),
        ]),
    ]);
    let mut de = Deserializer::new(input, fields);
    let a = match de.next_element() {
        Element::Group(mut inner) => read_test1(&mut inner),
        _ => panic!("expected a group"),
    };
    let b = match de.next_element() {
        Element::Group(mut inner) => read_test1(&mut inner),
        _ => panic!("expected a group"),
    };

    assert_eq!(a.0, 123);
    assert_eq!(a.1, "abc");
    assert_eq!(a.2, 9876.0);
    assert_eq!(a.3, Some(12));

    assert_eq!(b.0, 321);
    assert_eq!(b.1, "cba");
    assert_eq!(b.2, 6789.0);
    assert_eq!(b.3, Some(21));
}

#[test]
fn test_nested_seq() {
    let s = " 1 2 3 4 5 6";
    let fields = FieldSet::Group(vec![
        FieldSet::Group(vec![
            FieldSet::new_field(0..2),
            FieldSet::new_field(2..4),
            FieldSet::new_field(4..6),
        ]),
        FieldSet::Group(vec![
            FieldSet::new_field(6..8),
            FieldSet::new_field(8..10),
            FieldSet::new_field(10..12),
        ]),
    ]);
    let mut de = Deserializer::new(s.as_bytes(), fields);
    let mut test: Vec<Vec<i64>> = Vec::new();
    loop {
        match de.next_element() {
            Element::Group(mut inner) => {
                let mut row = Vec::new();
                while !inner.done() {
                    row.push(inner.next_i64().unwrap());
                }
                test.push(row);
            }
            Element::Leaf => panic!("expected a group"),
            Element::End => break,
        }
    }

    assert_eq!(test, vec![vec![1, 2, 3], vec![4, 5, 6]]);
}

#[test]
fn test_nested_optional_arr() {
    let s = " 222 111         253 254 121 232";
    let fields = FieldSet::Group(vec![
        FieldSet::Group(vec![FieldSet::new_field(0..4), FieldSet::new_field(4..8)]),
        FieldSet::Group(vec![FieldSet::new_field(8..12), FieldSet::new_field(12..16)]),
        FieldSet::Group(vec![FieldSet::new_field(16..20), FieldSet::new_field(20..24)]),
        FieldSet::Group(vec![FieldSet::new_field(24..28), FieldSet::new_field(28..32)]),
    ]);
    let mut de = Deserializer::new(s.as_bytes(), fields);
    let mut arr: Vec<Option<(u8, u8)>> = Vec::new();
    for _ in 0..4 {
        match de.next_element() {
            Element::Group(mut inner) => {
                if inner.skip_if_blank().unwrap() {
                    arr.push(None);
                } else {
                    let x = u8::try_from(inner.next_u64().unwrap()).unwrap();
                    let y = u8::try_from(inner.next_u64().unwrap()).unwrap();
                    arr.push(Some((x, y)));
                }
            }
            _ => panic!("expected a group"),
        }
    }

    assert_eq!(arr[0], Some((222, 111)));
    assert_eq!(arr[1], None);
    assert_eq!(arr[2], Some((253, 254)));
    assert_eq!(arr[3], Some((121, 232)));
}

#[test]
fn get_ref_gives_the_record() {
    let de = Deserializer::new(b"foobar", one(0..3));
    assert_eq!(de.get_ref(), b"foobar");
}

#[test]
fn truncated_record_is_end_of_record() {
    let mut de = Deserializer::new(b"12", one(0..4));
    assert!(matches!(de.next_str(), Err(DeserializeError::UnexpectedEndOfRecord)));
    let mut de = Deserializer::new(b"12", one(0..4));
    assert!(matches!(de.next_bytes(), Err(DeserializeError::UnexpectedEndOfRecord)));
    let mut de = Deserializer::new(b"12", one(0..4));
    assert!(matches!(de.next_u64(), Err(DeserializeError::UnexpectedEndOfRecord)));
}

#[test]
fn exhausted_fields_are_end_of_record() {
    let mut de = Deserializer::new(b"1", one(0..1));
    assert_eq!(de.next_u64().unwrap(), 1);
    assert!(matches!(de.next_u64(), Err(DeserializeError::UnexpectedEndOfRecord)));
}

#[test]
fn group_where_field_expected_is_end_of_record() {
    let fields = FieldSet::Group(vec![FieldSet::Group(vec![FieldSet::new_field(0..1)])]);
    let mut de = Deserializer::new(b"1", fields);
    assert!(matches!(de.next_bytes(), Err(DeserializeError::UnexpectedEndOfRecord)));
    assert!(de.done());
}

#[test]
fn invalid_utf8_is_reported() {
    let mut de = Deserializer::new(&[0xff, 0xfe], one(0..2));
    assert!(matches!(de.next_str(), Err(DeserializeError::InvalidUtf8(_))));
}

#[test]
fn bool_rules() {
    assert!(!Deserializer::new(b"0", one(0..1)).next_bool().unwrap());
    assert!(Deserializer::new(b"x", one(0..1)).next_bool().unwrap());
    assert!(Deserializer::new(b" Y ", one(0..3)).next_bool().unwrap());
    assert!(!Deserializer::new(b"   ", one(0..3)).next_bool().unwrap());
    assert!(matches!(
        Deserializer::new(b"10", one(0..2)).next_bool(),
        Err(DeserializeError::Message(_))
    ));
}

#[test]
fn char_too_long_is_an_error() {
    assert!(matches!(
        Deserializer::new(b"ab", one(0..2)).next_char(),
        Err(DeserializeError::Message(_))
    ));
}

#[test]
fn int_errors() {
    assert!(matches!(
        Deserializer::new(b"12x", one(0..3)).next_i64(),
        Err(DeserializeError::ParseIntError(_))
    ));
    assert!(matches!(
        Deserializer::new(b"-12", one(0..3)).next_u64(),
        Err(DeserializeError::ParseIntError(_))
    ));
    assert!(matches!(
        Deserializer::new(b"   ", one(0..3)).next_u64(),
        Err(DeserializeError::ParseIntError(_))
    ));
    assert_eq!(Deserializer::new(b" +7 ", one(0..4)).next_i64().unwrap(), 7);
    assert_eq!(
        Deserializer::new(b"18446744073709551615", one(0..20)).next_u64().unwrap(),
        u64::MAX
    );
    assert!(matches!(
        Deserializer::new(b"18446744073709551616", one(0..20)).next_u64(),
        Err(DeserializeError::ParseIntError(_))
    ));
}

#[test]
fn trim_removes_unicode_white_space() {
    let mut de = Deserializer::new("\u{a0}ab\t".as_bytes(), one(0..5));
    assert_eq!(de.next_str().unwrap(), "ab");
}

#[test]
fn optional_keeps_non_blank_field() {
    let mut de = Deserializer::new(b" 5", one(0..2));
    assert!(!de.skip_if_blank().unwrap());
    assert_eq!(de.peek_str().unwrap(), "5");
    assert!(matches!(de.peek_field(), Some(FieldSet::Item(_))));
}
