use forth_rs::tail::Tail;

#[test]
fn empty() {
    let mut tail: Tail<char, 5> = Tail::default();

    // is it empty?
    assert!(tail.is_empty());
    assert!(tail.len() == 0);

    // can I extract some values?
    assert!(tail.get(0).is_none());
    assert!(tail.get(1).is_none());
    assert!(tail.get(10).is_none());

    // removing elements does not break anything
    for _ in 0..10 {
        tail.remove_last();
    }
}

#[test]
fn insert_some_values() {
    let mut tail: Tail<char, 5> = Tail::default();

    tail.insert('a');
    assert_eq!(tail.get(0), Some(&'a'));
    assert!(tail.get(1).is_none());

    tail.insert('b');
    assert_eq!(tail.get(0), Some(&'b'));
    assert_eq!(tail.get(1), Some(&'a'));
    assert!(tail.get(2).is_none());

    tail.insert('c');
    assert_eq!(tail.get(0), Some(&'c'));
    assert_eq!(tail.get(1), Some(&'b'));
    assert_eq!(tail.get(2), Some(&'a'));
    assert!(tail.get(3).is_none());

    tail.remove_last();
    assert_eq!(tail.get(0), Some(&'b'));
    assert_eq!(tail.get(1), Some(&'a'));
    assert!(tail.get(2).is_none());

    tail.remove_last();
    assert_eq!(tail.get(0), Some(&'a'));
    assert!(tail.get(1).is_none());

    tail.remove_last();
    assert!(tail.is_empty());
}

#[test]
fn insertions_and_deletions() {
    let mut tail: Tail<usize, 5> = Tail::default();

    for i in 0..5 {
        tail.insert(i);
    }
    // [0 1 2 3 4]
    //          ^
    assert_eq!(tail.len(), 5);
    assert_eq!(Some(&4), tail.get(0));
    assert_eq!(Some(&0), tail.get(4));
    assert!(tail.get(5).is_none());

    for i in 5..8 {
        tail.insert(i);
    }
    // [5 6 7 3 4]
    //      ^
    assert_eq!(tail.len(), 5);
    assert_eq!(Some(&7), tail.get(0));
    assert_eq!(Some(&5), tail.get(2));
    assert_eq!(Some(&4), tail.get(3));
    assert_eq!(Some(&3), tail.get(4));
    assert!(tail.get(5).is_none());

    tail.remove_last();
    // [5 6 _ 3 4]
    //    ^
    assert_eq!(tail.len(), 4);
    assert_eq!(Some(&6), tail.get(0));
    assert_eq!(Some(&5), tail.get(1));
    assert!(tail.get(5).is_none());

    tail.remove_last();
    // [5 _ _ 3 4]
    //  ^
    assert_eq!(tail.len(), 3);
    assert_eq!(Some(&5), tail.get(0));
    assert_eq!(Some(&4), tail.get(1));
    assert_eq!(Some(&3), tail.get(2));
    assert!(tail.get(4).is_none());
    assert!(tail.get(5).is_none());

    for i in 8..12 {
        tail.insert(i);
    }
    // [5 8 9 10 11]
    //           ^
    assert_eq!(tail.len(), 5);
    assert_eq!(Some(&11), tail.get(0));
    assert_eq!(Some(&10), tail.get(1));
    assert_eq!(Some(&5), tail.get(4));

    tail.remove_last();
    // [5 8 9 10 _]
    //        ^
    assert_eq!(tail.len(), 4);
    assert_eq!(Some(&10), tail.get(0));
    assert_eq!(Some(&8), tail.get(2));
    assert!(tail.get(5).is_none());

    for _ in 0..5 {
        tail.remove_last();
    }
    assert!(tail.is_empty());
}

#[test]
fn tail_last_and_clear() {
    let mut tail: Tail<u8, 3> = Tail::default();
    assert!(tail.last().is_none());
    tail.insert(1);
    tail.insert(2);
    assert_eq!(tail.last(), Some(&2));
    tail.clear();
    assert!(tail.is_empty());
    assert!(tail.last().is_none());
}
