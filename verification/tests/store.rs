use ledger_runtime::store::Store;

#[test]
fn empty_store_holds_nothing() {
    let store: Store<u32> = Store::new();
    assert_eq!(store.get(&"a".to_string()), None);
    assert_eq!(store.get(&"".to_string()), None);
}

#[test]
fn insert_then_get() {
    let mut store: Store<u32> = Store::new();
    store.insert("b".to_string(), 2);
    store.insert("a".to_string(), 1);
    store.insert("c".to_string(), 3);
    assert_eq!(store.get(&"a".to_string()), Some(&1));
    assert_eq!(store.get(&"b".to_string()), Some(&2));
    assert_eq!(store.get(&"c".to_string()), Some(&3));
    assert_eq!(store.get(&"d".to_string()), None);
}

#[test]
fn insert_replaces_the_value_of_a_key() {
    let mut store: Store<u32> = Store::new();
    store.insert("a".to_string(), 1);
    store.insert("b".to_string(), 2);
    store.insert("a".to_string(), 10);
    assert_eq!(store.get(&"a".to_string()), Some(&10));
    assert_eq!(store.get(&"b".to_string()), Some(&2));
}

#[test]
fn remove_takes_one_key_out() {
    let mut store: Store<u32> = Store::new();
    store.insert("a".to_string(), 1);
    store.insert("b".to_string(), 2);
    store.insert("c".to_string(), 3);
    store.remove(&"b".to_string());
    assert_eq!(store.get(&"a".to_string()), Some(&1));
    assert_eq!(store.get(&"b".to_string()), None);
    assert_eq!(store.get(&"c".to_string()), Some(&3));
    store.remove(&"b".to_string());
    store.remove(&"zz".to_string());
    assert_eq!(store.get(&"a".to_string()), Some(&1));
    assert_eq!(store.get(&"c".to_string()), Some(&3));
}

fn filled(keys: &[&str]) -> Store<u32> {
    let mut store: Store<u32> = Store::new();
    for (i, key) in keys.iter().enumerate() {
        store.insert(key.to_string(), i as u32);
    }
    store
}

#[test]
fn keys_come_in_their_order_however_they_were_inserted() {
    let expected = vec!["Alice".to_string(), "Bob".to_string(), "Charlie".to_string()];
    assert_eq!(filled(&["Alice", "Bob", "Charlie"]).keys(), expected);
    assert_eq!(filled(&["Charlie", "Bob", "Alice"]).keys(), expected);
    assert_eq!(filled(&["Bob", "Charlie", "Alice", "Bob"]).keys(), expected);
    assert_eq!(filled(&[]).keys(), Vec::<String>::new());
}

#[test]
fn keys_are_ordered_by_code_points() {
    let store = filled(&["b", "", "ab", "a", "B", "é", "z", "abc", "aB"]);
    let expected: Vec<String> =
        ["", "B", "a", "aB", "ab", "abc", "b", "z", "é"].iter().map(|k| k.to_string()).collect();
    assert_eq!(store.keys(), expected);
}

#[test]
fn keys_after_a_removal() {
    let mut store = filled(&["d", "b", "a", "c"]);
    store.remove(&"b".to_string());
    assert_eq!(store.keys(), vec!["a".to_string(), "c".to_string(), "d".to_string()]);
    store.insert("b".to_string(), 9);
    store.remove(&"a".to_string());
    store.remove(&"d".to_string());
    assert_eq!(store.keys(), vec!["b".to_string(), "c".to_string()]);
    assert_eq!(store.get(&"b".to_string()), Some(&9));
}

#[test]
fn equal_contents_print_alike() {
    let mut first: Store<u32> = Store::new();
    first.insert("Bob".to_string(), 2);
    first.insert("Alice".to_string(), 7);
    first.insert("Alice".to_string(), 1);
    let mut second: Store<u32> = Store::new();
    second.insert("Charlie".to_string(), 3);
    second.insert("Alice".to_string(), 1);
    second.insert("Bob".to_string(), 2);
    second.remove(&"Charlie".to_string());
    assert_eq!(format!("{:?}", first), format!("{:?}", second));
    let printed = format!("{:?}", first);
    assert!(printed.find("Alice").unwrap() < printed.find("Bob").unwrap());
}
