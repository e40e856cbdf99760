use hyper::rtlist::{
    value_eq, EqOutcome, builtin_float, float_parse_error, FloatConversion, builtin_int, IntConversion, builtin_min_max, ExtremeOutcome, builtin_abs, builtin_all, builtin_any, builtin_bool, builtin_reversed, builtin_sorted, builtin_sum, RtItem,
    SortOutcome, SumOutcome,
};

fn ints(v: &[i64]) -> Vec<RtItem> {
    v.iter().map(|x| RtItem::I64(*x)).collect()
}

fn payloads(v: &[RtItem]) -> Vec<i64> {
    v.iter()
        .map(|x| match x {
            RtItem::I64(p) => *p,
            other => panic!("not an integer: {:?}", other),
        })
        .collect()
}

#[test]
fn truth_values_follow_python() {
    assert_eq!(builtin_bool(&RtItem::I64(0)), 0);
    assert_eq!(builtin_bool(&RtItem::I64(-3)), 1);
    assert_eq!(builtin_bool(&RtItem::Str(String::new())), 0);
    assert_eq!(builtin_bool(&RtItem::Str("x".to_string())), 1);
    assert_eq!(builtin_bool(&RtItem::NoneValue), 0);
    assert_eq!(builtin_bool(&RtItem::List(0)), 0);
    assert_eq!(builtin_bool(&RtItem::Dict(2)), 1);
    assert_eq!(builtin_bool(&RtItem::F64((-0.0f64).to_bits())), 0);
    assert_eq!(builtin_bool(&RtItem::F64(0.5f64.to_bits())), 1);
    assert_eq!(builtin_bool(&RtItem::Struct), 1);
}

#[test]
fn all_and_any_of_a_list() {
    assert_eq!(builtin_all(&vec![]), 1);
    assert_eq!(builtin_any(&vec![]), 0);
    assert_eq!(builtin_all(&ints(&[1, 2, 0])), 0);
    assert_eq!(builtin_any(&ints(&[0, 0, 7])), 1);
    assert_eq!(builtin_all(&vec![RtItem::Bool(1), RtItem::Str("a".to_string())]), 1);
}

#[test]
fn abs_keeps_the_kind() {
    match builtin_abs(&RtItem::I64(-5), 1).unwrap() {
        RtItem::I64(p) => assert_eq!(p, 5),
        other => panic!("{:?}", other),
    }
    match builtin_abs(&RtItem::I64(i64::MIN), 1).unwrap() {
        RtItem::I64(p) => assert_eq!(p, i64::MIN),
        other => panic!("{:?}", other),
    }
    match builtin_abs(&RtItem::F64((-2.5f64).to_bits()), 1).unwrap() {
        RtItem::F64(b) => assert_eq!(f64::from_bits(b), 2.5),
        other => panic!("{:?}", other),
    }
    assert_eq!(
        builtin_abs(&RtItem::Str("x".to_string()), 3).unwrap_err(),
        "RuntimeError: line 3: abs() expected a number"
    );
}

#[test]
fn sum_adds_integers_and_wraps() {
    match builtin_sum(&ints(&[1, 2, 3]), 1).unwrap() {
        SumOutcome::Int(n) => assert_eq!(n, 6),
        SumOutcome::FloatSum => panic!("no float here"),
    }
    match builtin_sum(&ints(&[i64::MAX, 1]), 1).unwrap() {
        SumOutcome::Int(n) => assert_eq!(n, i64::MIN),
        SumOutcome::FloatSum => panic!("no float here"),
    }
    assert!(matches!(builtin_sum(&vec![RtItem::I64(1), RtItem::F64(0.5f64.to_bits())], 1).unwrap(), SumOutcome::FloatSum));
    assert_eq!(
        builtin_sum(&vec![RtItem::I64(1), RtItem::Str("a".to_string())], 2).unwrap_err(),
        "RuntimeError: line 2: sum() expected a list of numbers"
    );
}

#[test]
fn sorted_orders_integers_and_strings() {
    match builtin_sorted(&ints(&[3, -1, 2, 3, 0]), 1).unwrap() {
        SortOutcome::Sorted(out) => assert_eq!(payloads(&out), vec![-1, 0, 2, 3, 3]),
        SortOutcome::FloatOrder => panic!("no float here"),
    }
    let words = vec![RtItem::Str("pear".to_string()), RtItem::Str("apple".to_string()), RtItem::Str("app".to_string())];
    match builtin_sorted(&words, 1).unwrap() {
        SortOutcome::Sorted(out) => {
            let texts: Vec<String> = out
                .iter()
                .map(|x| match x {
                    RtItem::Str(t) => t.clone(),
                    other => panic!("{:?}", other),
                })
                .collect();
            assert_eq!(texts, vec!["app", "apple", "pear"]);
        },
        SortOutcome::FloatOrder => panic!("no float here"),
    }
    assert!(matches!(builtin_sorted(&vec![RtItem::F64(1.0f64.to_bits())], 1).unwrap(), SortOutcome::FloatOrder));
    assert_eq!(
        builtin_sorted(&vec![RtItem::I64(1), RtItem::Str("a".to_string())], 4).unwrap_err(),
        "RuntimeError: line 4: sorted() requires a homogeneous list"
    );
    assert_eq!(
        builtin_sorted(&vec![RtItem::NoneValue], 4).unwrap_err(),
        "RuntimeError: line 4: sorted() supports lists of int, float, or str"
    );
}

#[test]
fn reversed_turns_the_list_around() {
    assert_eq!(payloads(&builtin_reversed(&ints(&[1, 2, 3]))), vec![3, 2, 1]);
    assert!(builtin_reversed(&vec![]).is_empty());
}

#[test]
fn min_and_max_pick_the_first_extreme_integer() {
    let items = vec![RtItem::I64(3), RtItem::Bool(1), RtItem::I64(-2), RtItem::I64(7)];
    assert!(matches!(builtin_min_max(&items, false, 1).unwrap(), ExtremeOutcome::Int(-2)));
    assert!(matches!(builtin_min_max(&items, true, 1).unwrap(), ExtremeOutcome::Int(7)));
    let bools = vec![RtItem::Bool(1), RtItem::Bool(0)];
    assert!(matches!(builtin_min_max(&bools, false, 1).unwrap(), ExtremeOutcome::Int(0)));
    let unsigned = vec![RtItem::I64(5), RtItem::U64(9)];
    assert!(matches!(builtin_min_max(&unsigned, true, 1).unwrap(), ExtremeOutcome::UInt(9)));
}

#[test]
fn min_and_max_leave_floats_and_huge_integers_to_float_comparison() {
    let floats = vec![RtItem::I64(1), RtItem::F64(2.5f64.to_bits())];
    assert!(matches!(builtin_min_max(&floats, false, 1).unwrap(), ExtremeOutcome::FloatCompare));
    let huge = vec![RtItem::I64(i64::MAX), RtItem::I64(1)];
    assert!(matches!(builtin_min_max(&huge, true, 1).unwrap(), ExtremeOutcome::FloatCompare));
    let big_unsigned = vec![RtItem::U64(-1)];
    assert!(matches!(builtin_min_max(&big_unsigned, true, 1).unwrap(), ExtremeOutcome::FloatCompare));
}

#[test]
fn min_and_max_report_empty_and_non_numeric_lists() {
    assert_eq!(
        builtin_min_max(&vec![], false, 3).unwrap_err(),
        "RuntimeError: line 3: min() arg is an empty sequence"
    );
    assert_eq!(
        builtin_min_max(&vec![RtItem::I64(1), RtItem::Str("a".to_string())], true, 4).unwrap_err(),
        "RuntimeError: line 4: max() expected numeric list elements"
    );
}

#[test]
fn int_of_numbers_strings_and_floats() {
    assert!(matches!(builtin_int(&RtItem::I64(-4), 1).unwrap(), IntConversion::Int(-4)));
    assert!(matches!(builtin_int(&RtItem::Bool(1), 1).unwrap(), IntConversion::Int(1)));
    assert!(matches!(builtin_int(&RtItem::Str("  +42\n".to_string()), 1).unwrap(), IntConversion::Int(42)));
    assert!(matches!(builtin_int(&RtItem::Str("-9223372036854775808".to_string()), 1).unwrap(), IntConversion::Int(i64::MIN)));
    assert!(matches!(builtin_int(&RtItem::F64(2.5f64.to_bits()), 1).unwrap(), IntConversion::FromFloat));
}

#[test]
fn int_reports_bad_literals_and_other_kinds() {
    assert_eq!(
        builtin_int(&RtItem::Str(" 12a ".to_string()), 6).unwrap_err(),
        "RuntimeError: line 6: invalid literal for int(): '12a'"
    );
    assert_eq!(
        builtin_int(&RtItem::Str("9223372036854775808".to_string()), 6).unwrap_err(),
        "RuntimeError: line 6: invalid literal for int(): '9223372036854775808'"
    );
    assert_eq!(
        builtin_int(&RtItem::NoneValue, 2).unwrap_err(),
        "RuntimeError: line 2: int() argument must be a number or string"
    );
}

#[test]
fn float_hands_each_kind_on() {
    assert!(matches!(builtin_float(&RtItem::F64(1.5f64.to_bits()), 1).unwrap(), FloatConversion::Same(b) if b == 1.5f64.to_bits()));
    assert!(matches!(builtin_float(&RtItem::I64(-3), 1).unwrap(), FloatConversion::FromInt(-3)));
    assert!(matches!(builtin_float(&RtItem::Bool(1), 1).unwrap(), FloatConversion::FromInt(1)));
    assert!(matches!(builtin_float(&RtItem::U64(-1), 1).unwrap(), FloatConversion::FromUnsigned(-1)));
    assert!(matches!(builtin_float(&RtItem::Str(" 2.5e3\t".to_string()), 1).unwrap(), FloatConversion::Parse(ref t) if t == "2.5e3"));
    assert_eq!(
        builtin_float(&RtItem::List(0), 8).unwrap_err(),
        "RuntimeError: line 8: float() argument must be a number or string"
    );
    assert_eq!(float_parse_error("abc", 9), "RuntimeError: line 9: could not convert string to float: 'abc'");
}

#[test]
fn equality_of_runtime_values() {
    let s = |t: &str| RtItem::Str(t.to_string());
    assert_eq!(value_eq(&s("ab"), &s("ab")), EqOutcome::Decided(true));
    assert_eq!(value_eq(&s("ab"), &s("abc")), EqOutcome::Decided(false));
    assert_eq!(value_eq(&RtItem::NoneValue, &RtItem::NoneValue), EqOutcome::Decided(true));
    assert_eq!(value_eq(&RtItem::I64(3), &RtItem::I64(3)), EqOutcome::Decided(true));
    assert_eq!(value_eq(&RtItem::I64(1), &RtItem::Bool(1)), EqOutcome::Decided(false));
    assert_eq!(value_eq(&RtItem::U64(1), &RtItem::U64(1)), EqOutcome::Decided(false));
    assert_eq!(value_eq(&RtItem::Struct, &RtItem::Struct), EqOutcome::Decided(false));
    assert_eq!(value_eq(&RtItem::I64(2), &RtItem::F64(2.0f64.to_bits())), EqOutcome::CompareFloats);
    assert_eq!(value_eq(&RtItem::List(2), &RtItem::List(2)), EqOutcome::CompareLists);
    assert_eq!(value_eq(&RtItem::Dict(0), &RtItem::Dict(1)), EqOutcome::CompareDicts);
    assert_eq!(value_eq(&s("x"), &RtItem::I64(0)), value_eq(&RtItem::I64(0), &s("x")));
}
