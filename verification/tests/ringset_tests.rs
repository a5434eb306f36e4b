use television::ringset::RingSet;

#[test]
fn test_ring_set() {
    let mut ring_set: RingSet<u32> = RingSet::with_capacity(3);
    // push 3 values into the ringset
    assert_eq!(ring_set.push(1), None);
    assert_eq!(ring_set.push(2), None);
    assert_eq!(ring_set.push(3), None);

    // check that the values are in the buffer
    assert!(ring_set.contains(&1));
    assert!(ring_set.contains(&2));
    assert!(ring_set.contains(&3));

    // push an existing value (should do nothing)
    assert_eq!(ring_set.push(1), None);

    // entries should still be there
    assert!(ring_set.contains(&1));
    assert!(ring_set.contains(&2));
    assert!(ring_set.contains(&3));

    // push a new value, should remove the oldest value (1)
    assert_eq!(ring_set.push(4), Some(1));

    // 1 is no longer there but 2 and 3 remain
    assert!(!ring_set.contains(&1));
    assert!(ring_set.contains(&2));
    assert!(ring_set.contains(&3));
    assert!(ring_set.contains(&4));

    // push two new values, should remove 2 and 3
    assert_eq!(ring_set.push(5), Some(2));
    assert_eq!(ring_set.push(6), Some(3));

    // 2 and 3 are no longer there but 4, 5 and 6 remain
    assert!(!ring_set.contains(&2));
    assert!(!ring_set.contains(&3));
    assert!(ring_set.contains(&4));
    assert!(ring_set.contains(&5));
    assert!(ring_set.contains(&6));
}

#[test]
fn ring_set_of_strings() {
    let mut ring_set: RingSet<String> = RingSet::with_capacity(2);
    assert_eq!(ring_set.push(String::from("a")), None);
    assert_eq!(ring_set.push(String::from("b")), None);
    assert_eq!(ring_set.push(String::from("c")), Some(String::from("a")));
    assert!(ring_set.contains(&String::from("b")));
    assert!(!ring_set.contains(&String::from("a")));
}
