use mmime::clist::{clist_new, clist_insert_after, clist_delete, clist_nth, clist_nth_data};

#[test]
fn test_clist_iterator() {
    let mut c = clist_new::<usize>();
    let marker: usize = 0x5eed;
    clist_insert_after(&mut c, None, marker);
    assert_eq!(c.count(), 1);

    /* Only one iteration */
    let mut it = c.iter();
    let mut n = 0;
    while let Some(data) = it.next(&c) {
        assert_eq!(*data, marker);
        n += 1;
    }
    assert_eq!(n, 1);
    assert_eq!(c.count(), 1);
}

#[test]
fn clist_insert_delete_and_nth() {
    let mut c = clist_new::<u32>();
    clist_insert_after(&mut c, None, 1);
    clist_insert_after(&mut c, None, 3);
    clist_insert_after(&mut c, Some(0), 2);
    assert_eq!(c.items, vec![1, 2, 3]);
    assert_eq!(clist_nth(&c, -5), Some(0));
    assert_eq!(clist_nth(&c, 2), Some(2));
    assert_eq!(clist_nth(&c, 3), None);
    assert_eq!(clist_nth_data(&c, 1), Some(&2));
    let (next, removed) = clist_delete(&mut c, 1);
    assert_eq!(removed, 2);
    assert_eq!(next, Some(1));
    let (next, removed) = clist_delete(&mut c, 1);
    assert_eq!(removed, 3);
    assert_eq!(next, None);
    assert_eq!(c.count(), 1);
}

#[test]
fn clist_delete_after_insert_gives_the_list_back() {
    let mut c = clist_new::<u32>();
    clist_insert_after(&mut c, None, 7);
    clist_insert_after(&mut c, None, 9);
    clist_insert_after(&mut c, Some(0), 8);
    let (_, removed) = clist_delete(&mut c, 1);
    assert_eq!(removed, 8);
    assert_eq!(c.items, vec![7, 9]);
}
