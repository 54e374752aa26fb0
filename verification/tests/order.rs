use indexedlinkedhashmap::{IndexedLinkedHashMap, IndexedLinkedHashMapValue};

type Ordered = IndexedLinkedHashMap<Vec<&'static str>, &'static str, usize>;

fn stored(ins: &Ordered) -> Vec<(Option<usize>, usize)> {
    ins.values().iter().map(|e| (e.index, e.value)).collect()
}

fn abc() -> Ordered {
    let mut ins = Ordered::new();
    ins.set("a", 1);
    ins.set("b", 2);
    ins.set("c", 3);
    ins
}

#[test]
fn set_keeps_call_order() {
    let mut ins = Ordered::new();
    let calls = ["delta", "alpha", "charlie", "bravo", "echo"];
    for (n, k) in calls.iter().enumerate() {
        ins.set(*k, n * 10);
    }
    assert_eq!(ins.keys(), &calls.to_vec());
    assert_eq!(ins.len(), 5);
    for (n, k) in calls.iter().enumerate() {
        assert_eq!(ins.key_at(Some(n)), Some(k));
        assert_eq!(ins.at(Some(n)), Some(&(n * 10)));
    }
    assert_eq!(
        stored(&ins),
        vec![(Some(0), 0), (Some(1), 10), (Some(2), 20), (Some(3), 30), (Some(4), 40)]
    );
}

#[test]
fn set_again_keeps_position() {
    let mut ins = abc();
    ins.set("b", 20);
    assert_eq!(ins.keys(), &vec!["a", "b", "c"]);
    assert_eq!(ins.len(), 3);
    assert_eq!(ins.at(Some(0)), Some(&1));
    assert_eq!(ins.at(Some(1)), Some(&20));
    assert_eq!(ins.at(Some(2)), Some(&3));
    assert_eq!(ins.get("b"), Some(&20));
    ins.set("b", 21);
    assert_eq!(ins.keys(), &vec!["a", "b", "c"]);
    assert_eq!(stored(&ins), vec![(Some(0), 1), (Some(1), 21), (Some(2), 3)]);
}

#[test]
fn len_counts_live_keys() {
    let mut ins = Ordered::new();
    let same = |ins: &Ordered, n: usize| {
        assert_eq!(ins.len(), n);
        assert_eq!(ins.keys().len(), n);
        assert_eq!(ins.values().len(), n);
    };
    same(&ins, 0);
    ins.set("a", 1);
    same(&ins, 1);
    ins.set("b", 2);
    same(&ins, 2);
    ins.set("a", 3);
    same(&ins, 2);
    ins.set("c", 4);
    same(&ins, 3);
    assert!(ins.remove("a").is_some());
    same(&ins, 2);
    assert!(ins.remove("a").is_none());
    same(&ins, 2);
    assert!(ins.remove("zz").is_none());
    same(&ins, 2);
    ins.set_at(Some(0), "d", 5);
    same(&ins, 2);
    ins.set_at(Some(9), "e", 6);
    same(&ins, 2);
}

#[test]
fn remove_renumbers_later_keys() {
    let mut ins = abc();
    assert!(
        ins.remove("a") == Some(IndexedLinkedHashMapValue { index: Some(0), value: 1 })
    );
    assert_eq!(ins.key_at(Some(0)), Some(&"b"));
    assert_eq!(ins.key_at(Some(1)), Some(&"c"));
    assert_eq!(ins.key_at(Some(2)), None);
    assert_eq!(ins.get("b"), Some(&2));
    assert_eq!(ins.get("c"), Some(&3));
    assert_eq!(ins.get("a"), None);
    assert_eq!(ins.len(), 2);
    assert_eq!(stored(&ins), vec![(Some(0), 2), (Some(1), 3)]);
}

#[test]
fn remove_after_remove_finds_the_right_slot() {
    let mut ins = abc();
    ins.set("d", 4);
    assert!(ins.remove("a").is_some());
    assert!(
        ins.remove("c") == Some(IndexedLinkedHashMapValue { index: Some(1), value: 3 })
    );
    assert_eq!(ins.keys(), &vec!["b", "d"]);
    assert!(
        ins.remove("d") == Some(IndexedLinkedHashMapValue { index: Some(1), value: 4 })
    );
    assert!(
        ins.remove("b") == Some(IndexedLinkedHashMapValue { index: Some(0), value: 2 })
    );
    assert_eq!(ins.len(), 0);
    assert_eq!(ins.keys(), &Vec::<&str>::new());
}

#[test]
fn remove_last_key_moves_nothing() {
    let mut ins = abc();
    assert!(
        ins.remove("c") == Some(IndexedLinkedHashMapValue { index: Some(2), value: 3 })
    );
    assert_eq!(ins.keys(), &vec!["a", "b"]);
    assert_eq!(stored(&ins), vec![(Some(0), 1), (Some(1), 2)]);
}

#[test]
fn empty_map_holds_nothing() {
    let mut ins = Ordered::new();
    for k in ["", "k", "anything"] {
        assert_eq!(ins.get(k), None);
        assert!(!ins.contains_key(k));
        assert!(ins.remove(k) == None);
    }
    assert_eq!(ins.at(Some(0)), None);
    assert_eq!(ins.at(None), None);
    assert_eq!(ins.key_at(Some(0)), None);
    assert_eq!(ins.key_at(None), None);
    assert_eq!(ins.len(), 0);
}

#[test]
fn missing_position_is_answered_with_none() {
    let ins = abc();
    assert_eq!(ins.at(Some(2)), Some(&3));
    assert_eq!(ins.at(Some(3)), None);
    assert_eq!(ins.at(Some(usize::MAX)), None);
    assert_eq!(ins.at(None), None);
    assert_eq!(ins.key_at(Some(2)), Some(&"c"));
    assert_eq!(ins.key_at(Some(3)), None);
    assert_eq!(ins.key_at(None), None);
}

#[test]
fn clear_is_as_good_as_new() {
    let mut ins = abc();
    ins.set_at(Some(1), "x", 7);
    assert!(ins.remove("a").is_some());
    ins.clear();
    assert_eq!(ins.len(), 0);
    assert_eq!(ins.keys(), &Vec::<&str>::new());
    assert!(ins.values().is_empty());
    assert_eq!(ins.get("x"), None);
    assert_eq!(ins.get("c"), None);

    let mut fresh = Ordered::new();
    ins.set("x", 1);
    fresh.set("x", 1);
    assert_eq!(ins.keys(), fresh.keys());
    assert_eq!(stored(&ins), stored(&fresh));
    assert_eq!(stored(&ins), vec![(Some(0), 1)]);
    assert_eq!(ins.key_at(Some(0)), Some(&"x"));
    assert_eq!(ins.at(Some(0)), Some(&1));
    assert_eq!(ins.len(), 1);
}

#[test]
fn set_at_out_of_range_changes_nothing() {
    let mut ins = Ordered::new();
    ins.set_at(Some(5), "z", 9);
    assert_eq!(ins.len(), 0);
    assert_eq!(ins.get("z"), None);
    assert!(!ins.contains_key("z"));
    ins.set_at(Some(0), "z", 9);
    assert_eq!(ins.len(), 0);
    assert!(ins.values().is_empty());

    let mut ins = abc();
    ins.set_at(Some(5), "z", 9);
    ins.set_at(Some(3), "z", 9);
    ins.set_at(Some(3), "a", 9);
    ins.set_at(Some(usize::MAX), "b", 9);
    assert_eq!(ins.len(), 3);
    assert_eq!(ins.keys(), &vec!["a", "b", "c"]);
    assert_eq!(stored(&ins), vec![(Some(0), 1), (Some(1), 2), (Some(2), 3)]);
    assert_eq!(ins.get("z"), None);
}

#[test]
fn set_at_without_position_changes_nothing() {
    let mut ins = abc();
    ins.set_at(None, "z", 9);
    ins.set_at(None, "a", 9);
    assert_eq!(ins.len(), 3);
    assert_eq!(ins.keys(), &vec!["a", "b", "c"]);
    assert_eq!(stored(&ins), vec![(Some(0), 1), (Some(1), 2), (Some(2), 3)]);
    assert!(!ins.contains_key("z"));
}

#[test]
fn set_then_read_round_trip() {
    let mut ins = abc();
    for (k, v) in [("b", 20), ("d", 40), ("a", 10), ("e", 50)] {
        ins.set(k, v);
        assert_eq!(ins.get(k), Some(&v));
        let position = (0..ins.len()).find(|p| ins.key_at(Some(*p)) == Some(&k));
        assert!(position.is_some());
        assert_eq!(ins.at(position), Some(&v));
    }
    assert_eq!(ins.keys(), &vec!["a", "b", "c", "d", "e"]);
}

#[test]
fn set_at_evicts_the_key_it_overwrites() {
    let mut ins = Ordered::new();
    ins.set("k", 1);
    ins.set_at(Some(0), "b", 3);
    assert_eq!(ins.get("k"), None);
    assert!(!ins.contains_key("k"));
    assert_eq!(ins.len(), 1);
    assert_eq!(ins.keys(), &vec!["b"]);
    assert_eq!(stored(&ins), vec![(Some(0), 3)]);
    assert!(ins.remove("k") == None);
    assert!(
        ins.remove("b") == Some(IndexedLinkedHashMapValue { index: Some(0), value: 3 })
    );
}

#[test]
fn set_at_on_its_own_key_replaces_the_value() {
    let mut ins = abc();
    ins.set_at(Some(1), "b", 9);
    assert_eq!(ins.keys(), &vec!["a", "b", "c"]);
    assert_eq!(stored(&ins), vec![(Some(0), 1), (Some(1), 9), (Some(2), 3)]);
    assert_eq!(ins.get("b"), Some(&9));
}

#[test]
fn set_at_takes_a_key_from_a_later_position() {
    let mut ins = abc();
    ins.set_at(Some(0), "c", 9);
    assert_eq!(ins.keys(), &vec!["c", "b"]);
    assert_eq!(stored(&ins), vec![(Some(0), 9), (Some(1), 2)]);
    assert_eq!(ins.get("a"), None);
    assert_eq!(ins.get("c"), Some(&9));
    assert_eq!(ins.at(Some(0)), Some(&9));
    assert_eq!(ins.len(), 3 - 1);
}

#[test]
fn set_at_takes_a_key_from_an_earlier_position() {
    let mut ins = abc();
    ins.set_at(Some(2), "a", 9);
    assert_eq!(ins.keys(), &vec!["b", "a"]);
    assert_eq!(stored(&ins), vec![(Some(0), 2), (Some(1), 9)]);
    assert_eq!(ins.get("c"), None);
    assert_eq!(ins.get("a"), Some(&9));
    assert_eq!(ins.at(Some(1)), Some(&9));
    assert_eq!(ins.at(Some(2)), None);
    assert_eq!(ins.len(), 2);
}

#[test]
fn owned_keys_are_kept_in_order() {
    let mut ins = IndexedLinkedHashMap::<Vec<String>, String, String>::new();
    for n in 0..50usize {
        ins.set(format!("key{}", n), format!("value{}", n));
    }
    for n in (0..50usize).step_by(2) {
        let removed = ins.remove(format!("key{}", n));
        assert_eq!(removed.map(|e| e.value), Some(format!("value{}", n)));
    }
    assert_eq!(ins.len(), 25);
    for p in 0..25usize {
        assert_eq!(ins.key_at(Some(p)), Some(&format!("key{}", 2 * p + 1)));
        assert_eq!(ins.at(Some(p)), Some(&format!("value{}", 2 * p + 1)));
        assert_eq!(ins.values()[p].index, Some(p));
    }
}

#[test]
fn value_clone_keeps_index_and_value() {
    let e = IndexedLinkedHashMapValue { index: Some(4), value: String::from("v") };
    let c = e.clone();
    assert_eq!(c.index, Some(4));
    assert_eq!(c.value, "v");
    assert!(c == e);
    let n = IndexedLinkedHashMapValue { index: None, value: 7u8 };
    let m = n;
    assert!(m == n);
}
