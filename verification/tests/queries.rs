use ordsearch::OrderedCollection;

#[test]
fn complete_exact() {
    let x = OrderedCollection::from(vec![1, 2, 4, 8, 16, 32, 64]);
    assert_eq!(x.find_gte(1), Some(1));
    assert_eq!(x.find_gte(2), Some(2));
    assert_eq!(x.find_gte(4), Some(4));
    assert_eq!(x.find_gte(8), Some(8));
    assert_eq!(x.find_gte(16), Some(16));
    assert_eq!(x.find_gte(32), Some(32));
    assert_eq!(x.find_gte(64), Some(64));
}

#[test]
fn complete_approximate() {
    let x = OrderedCollection::from(vec![1, 2, 4, 8, 16, 32, 64]);
    assert_eq!(x.find_gte(0), Some(1));
    assert_eq!(x.find_gte(3), Some(4));
    assert_eq!(x.find_gte(5), Some(8));
    assert_eq!(x.find_gte(6), Some(8));
    assert_eq!(x.find_gte(7), Some(8));
    for i in 9..16 {
        assert_eq!(x.find_gte(i), Some(16));
    }
    for i in 17..32 {
        assert_eq!(x.find_gte(i), Some(32));
    }
    for i in 33..64 {
        assert_eq!(x.find_gte(i), Some(64));
    }
    assert_eq!(x.find_gte(65), None);
}

#[test]
fn unbalanced_exact() {
    let x = OrderedCollection::from(vec![1, 2, 4, 8, 16, 32, 64, 128, 256]);
    assert_eq!(x.find_gte(1), Some(1));
    assert_eq!(x.find_gte(2), Some(2));
    assert_eq!(x.find_gte(4), Some(4));
    assert_eq!(x.find_gte(8), Some(8));
    assert_eq!(x.find_gte(16), Some(16));
    assert_eq!(x.find_gte(32), Some(32));
    assert_eq!(x.find_gte(64), Some(64));
    assert_eq!(x.find_gte(128), Some(128));
    assert_eq!(x.find_gte(256), Some(256));
}

#[test]
fn unbalanced_approximate() {
    let x = OrderedCollection::from(vec![1, 2, 4, 8, 16, 32, 64, 128, 256]);
    assert_eq!(x.find_gte(0), Some(1));
    assert_eq!(x.find_gte(3), Some(4));
    assert_eq!(x.find_gte(5), Some(8));
    assert_eq!(x.find_gte(6), Some(8));
    assert_eq!(x.find_gte(7), Some(8));
    for i in 9..16 {
        assert_eq!(x.find_gte(i), Some(16));
    }
    for i in 17..32 {
        assert_eq!(x.find_gte(i), Some(32));
    }
    for i in 33..64 {
        assert_eq!(x.find_gte(i), Some(64));
    }
    for i in 65..128 {
        assert_eq!(x.find_gte(i), Some(128));
    }
    for i in 129..256 {
        assert_eq!(x.find_gte(i), Some(256));
    }
    assert_eq!(x.find_gte(257), None);
}

#[test]
fn from_unsorted_values() {
    // Also exercises the sorting step: with the input left unsorted the
    // layout would be wrong and the query below would not find 89.
    let a = OrderedCollection::from(vec![42, 89, 7, 12]);
    assert_eq!(a.find_gte(50), Some(89));
    assert_eq!(a.find_gte(7), Some(7));
    assert_eq!(a.find_gte(0), Some(7));
    assert_eq!(a.find_gte(90), None);
}

#[test]
fn from_sorted_iter_basic() {
    let a = OrderedCollection::from_sorted_iter(vec![7, 12, 42, 89]);
    assert_eq!(a.find_gte(50), Some(89));
    assert_eq!(a.find_gte(12), Some(12));
    assert_eq!(a.find_gte(90), None);
}

#[test]
fn from_slice_sorts_in_place() {
    let mut vals = vec![42, 89, 7, 12];
    let a = OrderedCollection::from_slice(&mut vals);
    assert_eq!(a.find_gte(50), Some(89));
    assert_eq!(vals, vec![7, 12, 42, 89]);
}

#[test]
fn empty_collection() {
    let x = OrderedCollection::from(Vec::new());
    assert_eq!(x.find_gte(0), None);
    assert_eq!(x.find_gte(1), None);
    assert_eq!(x.find_gte(u64::MAX), None);
}

#[test]
fn single_element() {
    let x = OrderedCollection::from(vec![5]);
    assert_eq!(x.find_gte(4), Some(5));
    assert_eq!(x.find_gte(5), Some(5));
    assert_eq!(x.find_gte(6), None);
}

#[test]
fn duplicates() {
    let x = OrderedCollection::from(vec![5, 5, 2, 5]);
    assert_eq!(x.find_gte(2), Some(2));
    assert_eq!(x.find_gte(3), Some(5));
    assert_eq!(x.find_gte(5), Some(5));
    assert_eq!(x.find_gte(6), None);
}

#[test]
fn repeated_queries_agree() {
    let x = OrderedCollection::from(vec![1, 2, 4, 8, 16, 32, 64]);
    for q in 0..70 {
        assert_eq!(x.find_gte(q), x.find_gte(q));
    }
}

#[test]
fn queries_monotone_in_key() {
    let x = OrderedCollection::from(vec![10, 20, 30]);
    for q in 0..35 {
        let a = x.find_gte(q);
        let b = x.find_gte(q + 1);
        match (a, b) {
            (Some(va), Some(vb)) => assert!(va <= vb),
            (None, Some(_)) => panic!("answer appeared as the key grew"),
            _ => {}
        }
    }
}

#[test]
fn early_exit_mode_agrees() {
    let x = OrderedCollection::from(vec![1, 2, 4, 8, 16, 32, 64, 128, 256]);
    for q in 0..260 {
        assert_eq!(x.find_gte_with(q, true), x.find_gte(q));
        assert_eq!(x.find_gte_with(q, false), x.find_gte(q));
    }
}

#[test]
fn largest_values() {
    let x = OrderedCollection::from(vec![u64::MAX, u64::MAX - 2]);
    assert_eq!(x.find_gte(u64::MAX - 3), Some(u64::MAX - 2));
    assert_eq!(x.find_gte(u64::MAX - 1), Some(u64::MAX));
    assert_eq!(x.find_gte(u64::MAX), Some(u64::MAX));
}
