use hyper::rtcollections::{dict_get, dict_set, list_get, list_len, list_set};
use hyper::rtlist::RtItem;

fn int_of(v: &RtItem) -> Option<i64> {
    match v {
        RtItem::I64(p) => Some(*p),
        _ => None,
    }
}

fn is_none(v: &RtItem) -> bool {
    matches!(v, RtItem::NoneValue)
}

#[test]
fn list_reads_by_index_and_gives_none_out_of_range() {
    let l = vec![RtItem::I64(10), RtItem::I64(20)];
    assert_eq!(int_of(&list_get(&l, 1)), Some(20));
    assert!(is_none(&list_get(&l, 2)));
    assert!(is_none(&list_get(&l, -1)));
    assert_eq!(list_len(&l), 2);
}

#[test]
fn list_write_then_read_gives_the_written_item() {
    let mut l = vec![RtItem::I64(1), RtItem::I64(2), RtItem::I64(3)];
    list_set(&mut l, 1, RtItem::I64(9));
    assert_eq!(int_of(&list_get(&l, 1)), Some(9));
    assert_eq!(int_of(&list_get(&l, 0)), Some(1));
    list_set(&mut l, 5, RtItem::I64(7));
    list_set(&mut l, -1, RtItem::I64(7));
    assert_eq!(list_len(&l), 3);
    assert_eq!(int_of(&list_get(&l, 2)), Some(3));
}

#[test]
fn dict_reads_the_first_entry_of_a_key() {
    let d = vec![
        ("a".to_string(), RtItem::I64(1)),
        ("b".to_string(), RtItem::I64(2)),
        ("a".to_string(), RtItem::I64(3)),
    ];
    assert_eq!(int_of(&dict_get(&d, &"a".to_string())), Some(1));
    assert_eq!(int_of(&dict_get(&d, &"b".to_string())), Some(2));
    assert!(is_none(&dict_get(&d, &"c".to_string())));
}

#[test]
fn dict_write_replaces_or_appends_and_reads_back() {
    let mut d = vec![("x".to_string(), RtItem::I64(1))];
    dict_set(&mut d, "x".to_string(), RtItem::I64(5));
    assert_eq!(d.len(), 1);
    assert_eq!(int_of(&dict_get(&d, &"x".to_string())), Some(5));
    dict_set(&mut d, "y".to_string(), RtItem::Str("v".to_string()));
    assert_eq!(d.len(), 2);
    assert_eq!(d[1].0, "y");
    assert!(matches!(dict_get(&d, &"y".to_string()), RtItem::Str(ref s) if s == "v"));
    assert_eq!(int_of(&dict_get(&d, &"x".to_string())), Some(5));
}
