use py_runtime::numtext::{int_to_string, parse_i64_text};
use py_runtime::path::PyPath;
use py_runtime::types::{
    py_is_subtype, py_isinstance, py_issubclass, py_register_type_info, py_runtime_type_id,
    py_type_info, PyTypeInfo, TypeRegistry, PYTRA_TID_BOOL, PYTRA_TID_INT, PYTRA_TID_OBJECT,
    PYTRA_TID_STR,
};
use py_runtime::value::{
    f64_bits_to_i64, py_any_as_dict, py_any_to_bool, py_any_to_i64, py_any_to_string, PyAny,
};
use std::collections::BTreeMap;

#[test]
fn bool_true_coercions() {
    let v = PyAny::Bool(true);
    assert_eq!(py_any_to_i64(&v), 1);
    assert!(py_any_to_bool(&v));
    assert_eq!(py_any_to_string(&true), "true");
    assert_eq!(py_any_to_string(&false), "false");
}

#[test]
fn int_text_round_trip() {
    assert_eq!(py_any_to_string(&py_any_to_i64("42")), "42");
    for n in [0i64, 1, -1, 9, 10, -10, 123456789, i64::MAX, i64::MIN] {
        assert_eq!(int_to_string(n), n.to_string());
        assert_eq!(parse_i64_text(&int_to_string(n)), Some(n));
    }
}

#[test]
fn parse_follows_from_str() {
    let cases = [
        "42", "-42", "+7", "", "-", "+", "12a", " 1", "1 ", "٣", "007",
        "9223372036854775807", "9223372036854775808", "-9223372036854775808",
        "-9223372036854775809", "99999999999999999999999", "--1", "+-1",
    ];
    for c in cases {
        assert_eq!(parse_i64_text(c), c.parse::<i64>().ok(), "input {:?}", c);
    }
    assert_eq!(py_any_to_i64(&PyAny::Str(String::from("x9"))), 0);
    assert_eq!(py_any_to_i64(&String::from("-15")), -15);
}

#[test]
fn float_truncates_toward_zero() {
    let values = [
        0.0f64, -0.0, 0.5, -0.5, 1.0, 3.7, -3.7, 123456789.9, 4503599627370495.5,
        9007199254740993.0, 4.611686018427388e18, 9.223372036854775e18, -9.223372036854775808e18,
        1e300, -1e300, f64::INFINITY, f64::NEG_INFINITY, f64::NAN, f64::MIN_POSITIVE, 5e-324,
    ];
    for f in values {
        assert_eq!(f64_bits_to_i64(f.to_bits()), f as i64, "value {}", f);
        assert_eq!(py_any_to_i64(&PyAny::Float(f.to_bits())), f as i64);
        assert_eq!(py_any_to_bool(&PyAny::Float(f.to_bits())), f != 0.0);
    }
}

#[test]
fn integers_survive_float_bits() {
    for n in [0i64, 1, -1, 42, -(1 << 52), (1 << 53) - 1, -((1 << 53) - 1)] {
        let bits = (n as f64).to_bits();
        assert_eq!(py_any_to_i64(&PyAny::Float(bits)), n);
    }
}

#[test]
fn truthiness_of_dynamic_values() {
    assert!(!py_any_to_bool(&PyAny::NoneVal));
    assert!(!py_any_to_bool(&PyAny::Int(0)));
    assert!(py_any_to_bool(&PyAny::Int(-2)));
    assert!(!py_any_to_bool(&PyAny::Str(String::new())));
    assert!(py_any_to_bool(&PyAny::List(vec![PyAny::NoneVal])));
    assert!(!py_any_to_bool(&PyAny::SetOf(Vec::new())));
    let mut d = BTreeMap::new();
    assert!(!py_any_to_bool(&PyAny::Dict(BTreeMap::new())));
    d.insert(String::from("a"), PyAny::Int(1));
    assert!(py_any_to_bool(&PyAny::Dict(d)));
    assert_eq!(py_any_to_i64(&PyAny::List(vec![PyAny::Int(5)])), 0);
    assert_eq!(py_any_to_i64(&PyAny::NoneVal), 0);
    assert!(matches!(PyAny::default(), PyAny::NoneVal));
}

#[test]
fn dict_extraction() {
    let mut d = BTreeMap::new();
    d.insert(String::from("a"), PyAny::Int(1));
    let got = py_any_as_dict(PyAny::Dict(d));
    assert_eq!(got.len(), 1);
    assert!(got.contains_key("a"));
    assert!(py_any_as_dict(PyAny::Int(3)).is_empty());
    assert!(py_any_as_dict(PyAny::NoneVal).is_empty());
}

#[test]
fn registry_interval_subtypes() {
    let mut reg = TypeRegistry::new();
    py_register_type_info(&mut reg, 100, 10, 10, 20);
    py_register_type_info(&mut reg, 101, 15, 15, 15);
    assert!(py_is_subtype(&reg, 101, 100));
    assert!(!py_is_subtype(&reg, 100, 101));
    assert!(py_issubclass(&reg, 100, 100));
    py_register_type_info(&mut reg, 102, 21, 21, 21);
    assert!(!py_is_subtype(&reg, 102, 100));
    assert!(!py_is_subtype(&reg, 999, 100));
    assert!(!py_is_subtype(&reg, 100, 999));
}

#[test]
fn registry_builtins() {
    let reg = TypeRegistry::new();
    for id in 0..=8i64 {
        assert_eq!(py_type_info(&reg, id), Some(PyTypeInfo { order: id, min: id, max: id }));
    }
    assert_eq!(py_type_info(&reg, 9), None);
    assert!(py_isinstance(&reg, &5i64, PYTRA_TID_INT));
    assert!(!py_isinstance(&reg, &true, PYTRA_TID_INT));
    assert!(py_isinstance(&reg, &true, PYTRA_TID_BOOL));
    assert!(py_isinstance(&reg, &String::from("s"), PYTRA_TID_STR));
    assert!(!py_isinstance(&reg, &5i64, PYTRA_TID_OBJECT));
    assert_eq!(py_runtime_type_id(&PyAny::Float(0)), 3);
    assert_eq!(py_runtime_type_id(&Some(7i64)), PYTRA_TID_INT);
    assert_eq!(py_runtime_type_id(&None::<i64>), 0);
}

#[test]
fn registry_replaces_record() {
    let mut reg = TypeRegistry::new();
    py_register_type_info(&mut reg, 2, 2, 0, 8);
    assert_eq!(py_type_info(&reg, 2), Some(PyTypeInfo { order: 2, min: 0, max: 8 }));
    assert!(py_is_subtype(&reg, 7, 2));
}

#[test]
fn path_components() {
    let p = PyPath::new("out/images/frame.png");
    assert_eq!(p.parent().as_text(), "out/images");
    assert_eq!(p.name(), "frame.png");
    assert_eq!(p.stem(), "frame");
    assert_eq!(p.join("x").as_text(), "out/images/frame.png/x");
    let root = PyPath::new("");
    assert_eq!(root.parent().as_text(), "");
    assert_eq!(root.name(), "");
    assert_eq!(PyPath::new("a.tar.gz").stem(), "a.tar");
}

#[test]
fn values_from_primitives() {
    assert_eq!(py_any_to_i64(&PyAny::from(5i32)), 5);
    assert_eq!(py_any_to_i64(&PyAny::from(200u8)), 200);
    assert_eq!(py_any_to_i64(&PyAny::from(-7i64)), -7);
    assert_eq!(py_any_to_i64(&PyAny::from(String::from("12"))), 12);
    assert!(py_any_to_bool(&PyAny::from(true)));
    assert!(matches!(PyAny::from(3u32), PyAny::Int(3)));
}
