use hyper::values::{format_dict, format_list, format_struct, format_value, RtValue};

#[test]
fn scalars_print_plainly() {
    assert_eq!(format_value(&RtValue::Int(-42)), "-42");
    assert_eq!(format_value(&RtValue::Float("2.5".to_string())), "2.5");
    assert_eq!(format_value(&RtValue::Str("hi".to_string())), "hi");
    assert_eq!(format_value(&RtValue::Bool(true)), "true");
    assert_eq!(format_value(&RtValue::Bool(false)), "false");
    assert_eq!(format_value(&RtValue::NoneValue), "None");
    assert_eq!(format_value(&RtValue::File), "<file>");
    assert_eq!(format_value(&RtValue::Unknown), "<?>");
}

#[test]
fn containers_print_their_items() {
    let inner = RtValue::List(vec![RtValue::Int(1), RtValue::Int(2)]);
    let list = vec![inner, RtValue::Str("x".to_string()), RtValue::List(vec![])];
    assert_eq!(format_list(&list), "[[1, 2], x, []]");
    let dict = vec![
        ("b".to_string(), RtValue::Int(1)),
        ("a".to_string(), RtValue::Dict(vec![])),
    ];
    assert_eq!(format_dict(&dict), "{b: 1, a: {}}");
    assert_eq!(format_struct(&vec![RtValue::Int(3), RtValue::Bool(false)]), "{3, false}");
    assert_eq!(format_value(&RtValue::Struct(vec![])), "{}");
}
