//! The list and dict operations of the compiled runtime: reading and writing
//! an item of a list by index, and an entry of a dict by its key.  A dict
//! keeps its entries in the order they were added; a key is looked up at its
//! first entry.

use vstd::prelude::*;
use crate::rtlist::{RtItem, ItemV, item_v, items_v, clone_item};
use crate::text::{chars_eq, string_chars};

verus! {

/// `list[index]` as the runtime reads it: the item, or `None` for an index
/// out of range (a negative one included).
pub open spec fn list_get_spec(items: Seq<ItemV>, index: int) -> ItemV {
    if 0 <= index < items.len() { items[index] } else { ItemV::NoneValue }
}

/// `list[index] = value`: that item replaced; an index out of range changes
/// nothing.
pub open spec fn list_set_spec(items: Seq<ItemV>, index: int, v: ItemV) -> Seq<ItemV> {
    if 0 <= index < items.len() { items.update(index, v) } else { items }
}

pub fn list_get(items: &Vec<RtItem>, index: i64) -> (r: RtItem)
    ensures
        item_v(r) == list_get_spec(items_v(items@), index as int),
{
    if index < 0 || index as u64 >= items.len() as u64 {
        return RtItem::NoneValue;
    }
    let i = index as usize;
    assert(items_v(items@)[i as int] == item_v(items@[i as int]));
    clone_item(&items[i])
}

pub fn list_set(items: &mut Vec<RtItem>, index: i64, value: RtItem)
    ensures
        items_v(final(items)@) == list_set_spec(items_v(old(items)@), index as int, item_v(value)),
{
    if index < 0 || index as u64 >= items.len() as u64 {
        return;
    }
    let i = index as usize;
    let ghost v = item_v(value);
    items.set(i, value);
    assert(items_v(items@) =~= items_v(old(items)@).update(i as int, v));
}

/// `len(list)`.
pub fn list_len(items: &Vec<RtItem>) -> (r: i64)
    requires
        items@.len() <= i64::MAX,
    ensures
        r == items@.len(),
{
    items.len() as i64
}

pub open spec fn entries_v(es: Seq<(String, RtItem)>) -> Seq<(Seq<char>, ItemV)> {
    es.map_values(|e: (String, RtItem)| (e.0@, item_v(e.1)))
}

/// Entry `i` is the first with key `k`.
pub open spec fn first_at(es: Seq<(Seq<char>, ItemV)>, k: Seq<char>, i: int) -> bool {
    &&& 0 <= i < es.len()
    &&& es[i].0 == k
    &&& forall|j: int| 0 <= j < i ==> es[j].0 != k
}

/// The first entry with key `k`, if there is one.
pub open spec fn first_key(es: Seq<(Seq<char>, ItemV)>, k: Seq<char>) -> Option<int> {
    if exists|i: int| first_at(es, k, i) {
        Some(choose|i: int| first_at(es, k, i))
    } else {
        None
    }
}

/// `dict[k]` as the runtime reads it: the value of the first entry with key
/// `k`, or `None` when there is none.
pub open spec fn dict_get_spec(es: Seq<(Seq<char>, ItemV)>, k: Seq<char>) -> ItemV {
    match first_key(es, k) {
        Some(i) => es[i].1,
        None => ItemV::NoneValue,
    }
}

/// `dict[k] = v`: the first entry with key `k` takes the value; without
/// one, a new entry is added at the end.
pub open spec fn dict_set_spec(es: Seq<(Seq<char>, ItemV)>, k: Seq<char>, v: ItemV) -> Seq<(Seq<char>, ItemV)> {
    match first_key(es, k) {
        Some(i) => es.update(i, (k, v)),
        None => es.push((k, v)),
    }
}

proof fn lemma_first_unique(es: Seq<(Seq<char>, ItemV)>, k: Seq<char>, i: int)
    requires
        first_at(es, k, i),
    ensures
        first_key(es, k) == Some(i),
{
    let c = choose|x: int| first_at(es, k, x);
    assert(first_at(es, k, c));
    if c < i {
        assert(es[c].0 != k);
    } else if i < c {
        assert(es[i].0 != k);
    }
}

proof fn lemma_no_key(es: Seq<(Seq<char>, ItemV)>, k: Seq<char>)
    requires
        forall|j: int| 0 <= j < es.len() ==> es[j].0 != k,
    ensures
        first_key(es, k) is None,
{
}

proof fn lemma_some_key(es: Seq<(Seq<char>, ItemV)>, k: Seq<char>)
    requires
        first_key(es, k) is Some,
    ensures
        first_at(es, k, first_key(es, k)->0),
{
}

/// Finds the first entry with key `key`.
fn find_key(es: &Vec<(String, RtItem)>, key: &String) -> (r: Option<usize>)
    ensures
        r matches Some(i) ==> first_key(entries_v(es@), key@) == Some(i as int),
        r is None ==> first_key(entries_v(es@), key@) is None,
{
    let ghost ev = entries_v(es@);
    let kc = string_chars(key);
    let mut i: usize = 0;
    while i < es.len()
        invariant
            i <= es@.len(),
            ev == entries_v(es@),
            kc@ == key@,
            forall|j: int| 0 <= j < i ==> (#[trigger] ev[j]).0 != key@,
        decreases es@.len() - i,
    {
        let ec = string_chars(&es[i].0);
        assert(ev[i as int] == (es@[i as int].0@, item_v(es@[i as int].1)));
        if chars_eq(ec.as_slice(), kc.as_slice()) {
            proof {
                lemma_first_unique(ev, key@, i as int);
            }
            return Some(i);
        }
        i = i + 1;
    }
    proof {
        lemma_no_key(ev, key@);
    }
    None
}

pub fn dict_get(es: &Vec<(String, RtItem)>, key: &String) -> (r: RtItem)
    ensures
        item_v(r) == dict_get_spec(entries_v(es@), key@),
{
    match find_key(es, key) {
        Some(i) => {
            assert(entries_v(es@)[i as int] == (es@[i as int].0@, item_v(es@[i as int].1)));
            clone_item(&es[i].1)
        },
        None => RtItem::NoneValue,
    }
}

pub fn dict_set(es: &mut Vec<(String, RtItem)>, key: String, value: RtItem)
    ensures
        entries_v(final(es)@) == dict_set_spec(entries_v(old(es)@), key@, item_v(value)),
{
    let ghost k = key@;
    let ghost v = item_v(value);
    match find_key(es, &key) {
        Some(i) => {
            es.set(i, (key, value));
            assert(entries_v(es@) =~= entries_v(old(es)@).update(i as int, (k, v)));
        },
        None => {
            es.push((key, value));
            assert(entries_v(es@) =~= entries_v(old(es)@).push((k, v)));
        },
    }
}

/// A read of a list item gives back what a write at that index wrote, and
/// a write leaves the other indices as they were.
pub proof fn lemma_list_read_after_write(items: Seq<ItemV>, i: int, v: ItemV, j: int)
    ensures
        0 <= i < items.len() ==> list_get_spec(list_set_spec(items, i, v), i) == v,
        j != i ==> list_get_spec(list_set_spec(items, i, v), j) == list_get_spec(items, j),
        list_set_spec(items, i, v).len() == items.len(),
{
}

/// A read of a dict gives back what a write of that key wrote, a write
/// leaves the other keys' values as they were, and adds an entry only for a
/// key that had none.
pub proof fn lemma_dict_read_after_write(es: Seq<(Seq<char>, ItemV)>, k: Seq<char>, v: ItemV, k2: Seq<char>)
    ensures
        dict_get_spec(dict_set_spec(es, k, v), k) == v,
        k2 != k ==> dict_get_spec(dict_set_spec(es, k, v), k2) == dict_get_spec(es, k2),
        dict_set_spec(es, k, v).len() == es.len() + (if first_key(es, k) is Some { 0int } else { 1int }),
{
    let t = dict_set_spec(es, k, v);
    match first_key(es, k) {
        Some(i) => {
            lemma_some_key(es, k);
            assert(first_at(t, k, i));
            lemma_first_unique(t, k, i);
        },
        None => {
            assert forall|j: int| 0 <= j < es.len() implies es[j].0 != k by {
                if es[j].0 == k {
                    lemma_least_key(es, k, j);
                }
            }
            assert(first_at(t, k, es.len() as int));
            lemma_first_unique(t, k, es.len() as int);
        },
    }
    if k2 != k {
        match first_key(es, k2) {
            Some(i2) => {
                lemma_some_key(es, k2);
                assert(first_at(t, k2, i2));
                lemma_first_unique(t, k2, i2);
            },
            None => {
                assert forall|j: int| 0 <= j < t.len() implies t[j].0 != k2 by {
                    if j < es.len() && es[j].0 == k2 {
                        lemma_least_key(es, k2, j);
                    }
                }
                lemma_no_key(t, k2);
            },
        }
    }
}

/// Some entry has key `k` at or before `j`: then a first one exists.
proof fn lemma_least_key(es: Seq<(Seq<char>, ItemV)>, k: Seq<char>, j: int)
    requires
        0 <= j < es.len(),
        es[j].0 == k,
    ensures
        first_key(es, k) is Some,
    decreases j,
{
    if exists|q: int| 0 <= q < j && es[q].0 == k {
        let q = choose|q: int| 0 <= q < j && es[q].0 == k;
        lemma_least_key(es, k, q);
    } else {
        assert(first_at(es, k, j));
    }
}

} // verus!
