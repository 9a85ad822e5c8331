use http_server::multi_map::{MultiMap, Value, ValueIter};

#[test]
fn test_insertion_order_under_one_key() {
    let mut mm: MultiMap<u32> = MultiMap::new_empty();
    for v in [3, 1, 4, 1, 5, 9, 2, 6] {
        mm.insert_scalar("k".to_owned(), v);
    }
    let got: Vec<u32> = mm.get_value_iter("k").unwrap().collect().into_iter().copied().collect();
    assert_eq!(got, vec![3, 1, 4, 1, 5, 9, 2, 6]);
    assert_eq!(mm.len(), 1);
}

#[test]
fn test_other_keys_are_untouched() {
    let mut mm: MultiMap<u32> = MultiMap::new_empty();
    mm.insert_scalar("a".to_owned(), 1);
    mm.insert_scalar("b".to_owned(), 2);
    mm.insert_scalar("a".to_owned(), 3);
    assert_eq!(mm.len(), 2);
    assert_eq!(mm.get_scalar("b").unwrap(), Some(&2));
    assert_eq!(mm.get_vector("a").unwrap().unwrap(), &vec![1, 3]);
    assert!(mm.get("c").is_none());
    assert_eq!(mm.get_scalar("c").unwrap(), None);
    assert!(mm.get_vector("c").unwrap().is_none());
    assert!(mm.get_value_iter("c").is_none());
}

#[test]
fn test_scalar_and_vector_lookups() {
    let mut mm: MultiMap<u32> = MultiMap::new_empty();
    mm.insert_scalar("one".to_owned(), 1);
    mm.insert_vector("many".to_owned(), vec![7]);
    assert!(mm.get_vector("one").is_err());
    assert!(mm.get_scalar("many").is_err());
    assert_eq!(mm.get_scalar("one").unwrap(), Some(&1));
    assert_eq!(mm.get_vector("many").unwrap().unwrap(), &vec![7]);
}

#[test]
fn test_push_joins_in_order() {
    let mut v: Value<u32> = Value::from(1);
    v.push(Value::from(vec![2, 3]));
    v.push(Value::from(4));
    assert_eq!(v.len(), 4);
    match &v {
        Value::Vector(all) => assert_eq!(all, &vec![1, 2, 3, 4]),
        Value::Scalar(_) => panic!("a value that was pushed to is a vector"),
    }
    let mut w: Value<u32> = Value::from(vec![9]);
    w.push(Value::from(vec![8, 7]));
    assert_eq!(w.get(0), Some(&9));
    assert_eq!(w.get(2), Some(&7));
    assert_eq!(w.get(3), None);
}

#[test]
fn test_insert_vector_onto_scalar() {
    let mut mm: MultiMap<u32> = MultiMap::new_empty();
    mm.insert_scalar("k".to_owned(), 1);
    mm.insert_vector("k".to_owned(), vec![2, 3]);
    mm.insert("k".to_owned(), Value::Scalar(4));
    assert_eq!(mm.get_vector("k").unwrap().unwrap(), &vec![1, 2, 3, 4]);
}

#[test]
fn test_default_value() {
    match Value::<u32>::default() {
        Value::Scalar(n) => assert_eq!(n, 0),
        Value::Vector(_) => panic!("the default is a scalar"),
    }
}

#[test]
fn test_value_iter_steps() {
    let scalar = Value::Scalar(5);
    let mut it = ValueIter::new(&scalar);
    assert_eq!(it.next(), Some(&5));
    assert_eq!(it.next(), None);
    assert_eq!(it.next(), None);
    let vector = Value::Vector(vec![1, 2, 3]);
    let mut it = vector.iter();
    assert_eq!(it.next(), Some(&1));
    assert_eq!(it.collect(), vec![&2, &3]);
}

#[test]
fn test_from_entries() {
    let mm: MultiMap<u32> = MultiMap::from_entries(vec![
        ("a".to_owned(), Value::Scalar(1)),
        ("b".to_owned(), Value::Vector(vec![2, 3])),
        ("a".to_owned(), Value::Vector(vec![4])),
        ("c".to_owned(), Value::Scalar(5)),
        ("a".to_owned(), Value::Scalar(6)),
    ]);
    assert_eq!(mm.len(), 3);
    assert_eq!(mm.get_vector("a").unwrap().unwrap(), &vec![1, 4, 6]);
    assert_eq!(mm.get_vector("b").unwrap().unwrap(), &vec![2, 3]);
    assert_eq!(mm.get_scalar("c").unwrap(), Some(&5));
    let mut entries = mm.entries();
    entries.sort_by_key(|entry| entry.0);
    assert_eq!(
        entries,
        vec![
            ("a", &Value::Vector(vec![1, 4, 6])),
            ("b", &Value::Vector(vec![2, 3])),
            ("c", &Value::Scalar(5)),
        ]
    );
    let none: MultiMap<u32> = MultiMap::from_entries(vec![]);
    assert_eq!(none.len(), 0);
    assert!(none.entries().is_empty());
}
