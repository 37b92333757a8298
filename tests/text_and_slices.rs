use py_runtime::semantics::{py_bool, py_in, py_len, PyStringify};
use py_runtime::slicing::{normalize_slice_range, py_slice};
use py_runtime::text::{py_isalpha, py_isdigit, py_slice_str, py_str_at, str_len};
use std::collections::{HashMap, HashSet};

#[test]
fn slice_ascii_scenarios() {
    assert_eq!(py_slice_str("abcdef", Some(-3), None), "def");
    assert_eq!(py_slice_str("abcdef", Some(2), Some(100)), "cdef");
    assert_eq!(py_slice_str("abcdef", Some(4), Some(1)), "");
}

#[test]
fn slice_unicode_uses_code_points() {
    assert_eq!(py_slice_str("漢字かな", Some(1), Some(3)), "字か");
    assert_eq!(py_slice_str("漢字かな", Some(-1), None), "な");
    assert_eq!(py_slice_str("漢字かな", None, Some(-2)), "漢字");
}

#[test]
fn slice_full_range_gives_whole_string() {
    let s = "héllo wörld";
    let n = str_len(s) as i64;
    assert_eq!(py_slice_str(s, Some(0), Some(n)), s);
    for a in -15i64..15 {
        for b in -15i64..15 {
            let t = py_slice_str(s, Some(a), Some(b));
            assert!(t.chars().count() <= s.chars().count());
        }
    }
}

#[test]
fn slice_of_slice_keeps_clamped_slice() {
    let xs: Vec<i64> = vec![10, 11, 12, 13, 14, 15];
    for a in -9i64..9 {
        for b in -9i64..9 {
            let (s, e) = normalize_slice_range(6, Some(a), Some(b));
            let once = py_slice(&xs, Some(a), Some(b));
            let twice = py_slice(&once, Some(0), Some((e - s) as i64));
            assert_eq!(once, twice);
        }
    }
}

#[test]
fn normalize_clamps_and_orders() {
    assert_eq!(normalize_slice_range(6, None, None), (0, 6));
    assert_eq!(normalize_slice_range(6, Some(-100), Some(100)), (0, 6));
    assert_eq!(normalize_slice_range(6, Some(5), Some(2)), (5, 5));
    assert_eq!(normalize_slice_range(0, Some(-1), Some(1)), (0, 0));
}

#[test]
fn vec_slice_negative_bounds() {
    let xs: Vec<u8> = vec![1, 2, 3, 4, 5];
    assert_eq!(py_slice(&xs, Some(-2), None), vec![4, 5]);
    assert_eq!(py_slice(&xs, None, Some(-3)), vec![1, 2]);
    let s = String::from("abcdef");
    assert_eq!(py_slice(&s, Some(1), Some(-1)), "bcde");
}

#[test]
fn index_in_and_out_of_range() {
    assert_eq!(py_str_at("abc", 0), "a");
    assert_eq!(py_str_at("abc", -1), "c");
    assert_eq!(py_str_at("abc", -3), "a");
    assert_eq!(py_str_at("abc", 3), "");
    assert_eq!(py_str_at("abc", -4), "");
    assert_eq!(py_str_at("漢字", 1), "字");
    assert_eq!(py_str_at("漢字", -2), "漢");
    assert_eq!(py_str_at("漢字", 2), "");
    assert_eq!(py_str_at("", 0), "");
}

#[test]
fn len_counts_code_points() {
    assert_eq!(py_len(&String::from("漢字")), 2);
    assert_eq!(py_len(&String::from("ascii")), 5);
    assert_eq!(py_len(&String::new()), 0);
    assert_eq!(py_len(&vec![1, 2, 3]), 3);
    let mut m: HashMap<i64, i64> = HashMap::new();
    m.insert(1, 2);
    m.insert(3, 4);
    assert_eq!(py_len(&m), 2);
}

#[test]
fn digit_and_alpha_tests() {
    assert!(py_isdigit("0123456789"));
    assert!(!py_isdigit(""));
    assert!(!py_isdigit("12a"));
    assert!(!py_isdigit("١٢"));
    assert!(py_isalpha("abcXYZ"));
    assert!(!py_isalpha(""));
    assert!(!py_isalpha("ab1"));
    assert!(!py_isalpha("é"));
}

#[test]
fn truthiness_of_values() {
    assert!(py_bool(&true));
    assert!(!py_bool(&0i64));
    assert!(py_bool(&-3i32));
    assert!(!py_bool(&0u8));
    assert!(!py_bool(&String::new()));
    assert!(py_bool(&String::from("x")));
    assert!(!py_bool(&Vec::<i64>::new()));
    let mut s: HashSet<i64> = HashSet::new();
    assert!(!py_bool(&s));
    s.insert(1);
    assert!(py_bool(&s));
}

#[test]
fn membership_in_containers() {
    let xs: Vec<i64> = vec![3, 5, 7];
    assert!(py_in(&xs, &5));
    assert!(!py_in(&xs, &4));
    let mut s: HashSet<String> = HashSet::new();
    s.insert(String::from("a"));
    assert!(py_in(&s, &String::from("a")));
    assert!(!py_in(&s, &String::from("b")));
    let mut m: HashMap<String, i64> = HashMap::new();
    m.insert(String::from("k"), 1);
    assert!(py_in(&m, &String::from("k")));
    assert!(!py_in(&m, &String::from("v")));
}

#[test]
fn print_forms() {
    assert_eq!(true.py_stringify(), "True");
    assert_eq!(false.py_stringify(), "False");
    assert_eq!((-120i64).py_stringify(), "-120");
    assert_eq!(i64::MIN.py_stringify(), "-9223372036854775808");
    assert_eq!(u64::MAX.py_stringify(), "18446744073709551615");
    assert_eq!(0u8.py_stringify(), "0");
    assert_eq!((-7i8).py_stringify(), "-7");
    assert_eq!("hi".py_stringify(), "hi");
}

#[test]
fn long_bounds_saturate() {
    assert_eq!(py_slice_str("abcdef", Some(i64::MIN), Some(i64::MAX)), "abcdef");
    assert_eq!(py_slice_str("abcdef", Some(i64::MAX), None), "");
    assert_eq!(py_str_at("abc", i64::MIN), "");
    assert_eq!(py_str_at("abc", i64::MAX), "");
}
