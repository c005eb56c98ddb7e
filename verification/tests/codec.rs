//! The attribute codec: round trips, fail-safe decoding, record shape.

use pixel_collector_api::attribute::AttributeValue;
use pixel_collector_api::codec::{decode, encode, safe_parse};
use pixel_collector_api::record::{from_record, get_field, n, n_option, s, s_option, to_record,
    EncodeError};
use pixel_collector_api::structured::StructuredValue;

fn sample_tree() -> StructuredValue {
    StructuredValue::Object(vec![
        ("name".to_owned(), StructuredValue::String("ada".to_owned())),
        ("age".to_owned(), StructuredValue::Number(37)),
        ("negative".to_owned(), StructuredValue::Number(-12)),
        ("flag".to_owned(), StructuredValue::Bool(true)),
        ("nothing".to_owned(), StructuredValue::Null),
        (
            "items".to_owned(),
            StructuredValue::List(vec![
                StructuredValue::Number(0),
                StructuredValue::String("x".to_owned()),
                StructuredValue::Object(vec![(
                    "deep".to_owned(),
                    StructuredValue::Number(9223372036854775807),
                )]),
            ]),
        ),
    ])
}

fn assert_same(a: &StructuredValue, b: &StructuredValue) {
    match (a, b) {
        (StructuredValue::Null, StructuredValue::Null) => {}
        (StructuredValue::Bool(x), StructuredValue::Bool(y)) => assert_eq!(x, y),
        (StructuredValue::Number(x), StructuredValue::Number(y)) => assert_eq!(x, y),
        (StructuredValue::String(x), StructuredValue::String(y)) => assert_eq!(x, y),
        (StructuredValue::List(xs), StructuredValue::List(ys)) => {
            assert_eq!(xs.len(), ys.len());
            for (x, y) in xs.iter().zip(ys.iter()) {
                assert_same(x, y);
            }
        }
        (StructuredValue::Object(xs), StructuredValue::Object(ys)) => {
            assert_eq!(xs.len(), ys.len());
            for ((kx, x), (ky, y)) in xs.iter().zip(ys.iter()) {
                assert_eq!(kx, ky);
                assert_same(x, y);
            }
        }
        _ => panic!("shapes differ"),
    }
}

#[test]
fn round_trip_nested_tree() {
    let v = sample_tree();
    let back = decode(&encode(&v));
    assert_same(&v, &back);
}

#[test]
fn round_trip_extreme_numbers() {
    for n in [0i64, 1, -1, i64::MAX, i64::MIN, 1000000007] {
        let v = StructuredValue::Number(n);
        match decode(&encode(&v)) {
            StructuredValue::Number(m) => assert_eq!(m, n),
            _ => panic!("number did not round-trip"),
        }
    }
}

#[test]
fn failsafe_numeric_decode_yields_zero_and_keeps_siblings() {
    let record = AttributeValue::M(vec![
        ("good".to_owned(), AttributeValue::N("41".to_owned())),
        ("bad".to_owned(), AttributeValue::N("not-a-number".to_owned())),
        ("name".to_owned(), AttributeValue::S("ada".to_owned())),
    ]);
    match decode(&record) {
        StructuredValue::Object(fields) => {
            assert_eq!(fields.len(), 3);
            match &fields[0].1 {
                StructuredValue::Number(n) => assert_eq!(*n, 41),
                _ => panic!("good field corrupted"),
            }
            match &fields[1].1 {
                StructuredValue::Number(n) => assert_eq!(*n, 0),
                _ => panic!("bad field should degrade to zero"),
            }
            match &fields[2].1 {
                StructuredValue::String(s) => assert_eq!(s, "ada"),
                _ => panic!("sibling corrupted"),
            }
        }
        _ => panic!("record did not decode to an object"),
    }
}

#[test]
fn unsupported_variant_decodes_to_null() {
    match decode(&AttributeValue::Unsupported) {
        StructuredValue::Null => {}
        _ => panic!("unsupported variant must decode to null"),
    }
}

#[test]
fn sets_collapse_to_lists() {
    let ns = AttributeValue::Ns(vec!["1".to_owned(), "junk".to_owned()]);
    match decode(&ns) {
        StructuredValue::List(items) => {
            assert_eq!(items.len(), 2);
            assert!(matches!(items[0], StructuredValue::Number(1)));
            assert!(matches!(items[1], StructuredValue::Number(0)));
        }
        _ => panic!("number set must decode to a list"),
    }
    let ss = AttributeValue::Ss(vec!["a".to_owned(), "b".to_owned()]);
    match decode(&ss) {
        StructuredValue::List(items) => {
            assert_eq!(items.len(), 2);
            assert!(matches!(&items[0], StructuredValue::String(s) if s == "a"));
            assert!(matches!(&items[1], StructuredValue::String(s) if s == "b"));
        }
        _ => panic!("string set must decode to a list"),
    }
}

#[test]
fn safe_parse_cases() {
    assert_eq!(safe_parse("0"), 0);
    assert_eq!(safe_parse("007"), 7);
    assert_eq!(safe_parse("-42"), -42);
    assert_eq!(safe_parse("9223372036854775807"), i64::MAX);
    assert_eq!(safe_parse("-9223372036854775808"), i64::MIN);
    assert_eq!(safe_parse("9223372036854775808"), 0);
    assert_eq!(safe_parse(""), 0);
    assert_eq!(safe_parse("1.0"), 0);
    assert_eq!(safe_parse("+5"), 0);
    assert_eq!(safe_parse("abc"), 0);
    assert_eq!(safe_parse("-"), 0);
}

#[test]
fn record_encode_requires_object_shape() {
    assert_eq!(
        to_record(&StructuredValue::String("bare".to_owned())).unwrap_err(),
        EncodeError::NotAnObject
    );
    assert_eq!(
        to_record(&StructuredValue::List(vec![])).unwrap_err(),
        EncodeError::NotAnObject
    );
    assert_eq!(
        to_record(&StructuredValue::Number(1)).unwrap_err(),
        EncodeError::NotAnObject
    );
    assert!(to_record(&sample_tree()).is_ok());
}

#[test]
fn record_round_trip_and_lookup() {
    let v = sample_tree();
    let m = to_record(&v).unwrap();
    let fields = from_record(&m);
    match get_field(&fields, "age") {
        Some(StructuredValue::Number(n)) => assert_eq!(*n, 37),
        _ => panic!("age lost in the record round trip"),
    }
    assert!(get_field(&fields, "absent").is_none());
}

#[test]
fn attribute_accessors() {
    let rec = vec![
        ("id".to_owned(), AttributeValue::S("X".to_owned())),
        ("count".to_owned(), AttributeValue::N("41".to_owned())),
        ("junk".to_owned(), AttributeValue::N("forty-one".to_owned())),
    ];
    assert_eq!(s(&rec, "id").unwrap(), "X");
    assert!(s(&rec, "missing").is_err());
    assert!(s(&rec, "count").is_err());
    assert_eq!(s_option(&rec, "id").unwrap(), Some("X".to_owned()));
    assert_eq!(s_option(&rec, "missing").unwrap(), None);
    assert_eq!(n(&rec, "count").unwrap(), 41);
    assert!(n(&rec, "junk").is_err());
    assert!(n(&rec, "missing").is_err());
    assert_eq!(n_option(&rec, "count").unwrap(), Some(41));
    assert_eq!(n_option(&rec, "missing").unwrap(), None);
    assert!(n_option(&rec, "junk").is_err());
}
