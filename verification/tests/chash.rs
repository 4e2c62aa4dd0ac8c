use mmime::chash::{chash_new, chash_set, chash_get, chash_delete, chash_resize, chash_clear,
    chash_begin, chash_next, chash_entry, chash_func, chashdatum};

fn d(s: &[u8]) -> chashdatum {
    chashdatum { data: s.to_vec() }
}

#[test]
fn chash_set_then_get() {
    let mut h = chash_new(0, 0);
    assert_eq!(h.size(), 13);
    assert!(chash_set(&mut h, &d(b"key"), &d(b"value")).is_none());
    assert_eq!(chash_get(&h, &d(b"key")).unwrap().data, b"value".to_vec());
    assert!(chash_get(&h, &d(b"other")).is_none());
    assert_eq!(h.count(), 1);
}

#[test]
fn chash_set_replaces_and_gives_old_value() {
    let mut h = chash_new(20, 3);
    chash_set(&mut h, &d(b"k"), &d(b"one"));
    let old = chash_set(&mut h, &d(b"k"), &d(b"two"));
    assert_eq!(old.unwrap().data, b"one".to_vec());
    assert_eq!(chash_get(&h, &d(b"k")).unwrap().data, b"two".to_vec());
    assert_eq!(h.count(), 1);
}

#[test]
fn chash_delete_removes() {
    let mut h = chash_new(13, 0);
    chash_set(&mut h, &d(b"a"), &d(b"1"));
    chash_set(&mut h, &d(b"b"), &d(b"2"));
    assert_eq!(chash_delete(&mut h, &d(b"a")).unwrap().data, b"1".to_vec());
    assert!(chash_delete(&mut h, &d(b"a")).is_none());
    assert!(chash_get(&h, &d(b"a")).is_none());
    assert_eq!(chash_get(&h, &d(b"b")).unwrap().data, b"2".to_vec());
    assert_eq!(h.count(), 1);
}

#[test]
fn chash_grows_and_keeps_entries() {
    let mut h = chash_new(13, 0);
    for i in 0..100u32 {
        let k = format!("key{}", i);
        let v = format!("value{}", i);
        chash_set(&mut h, &d(k.as_bytes()), &d(v.as_bytes()));
    }
    assert_eq!(h.count(), 100);
    assert!(h.size() > 13);
    for i in 0..100u32 {
        let k = format!("key{}", i);
        assert_eq!(chash_get(&h, &d(k.as_bytes())).unwrap().data, format!("value{}", i).into_bytes());
    }
    chash_resize(&mut h, 7);
    assert_eq!(h.size(), 7);
    assert_eq!(chash_get(&h, &d(b"key42")).unwrap().data, b"value42".to_vec());
}

#[test]
fn chash_iteration_visits_each_entry_once() {
    let mut h = chash_new(13, 0);
    for k in [b"x".as_ref(), b"y", b"z", b"xy"] {
        chash_set(&mut h, &d(k), &d(k));
    }
    let mut seen = Vec::new();
    let mut it = chash_begin(&h);
    while let Some(p) = it {
        let (k, v) = chash_entry(&h, p);
        assert_eq!(k, v);
        seen.push(k.to_vec());
        it = chash_next(&h, p);
    }
    seen.sort();
    assert_eq!(seen, vec![b"x".to_vec(), b"xy".to_vec(), b"y".to_vec(), b"z".to_vec()]);
    chash_clear(&mut h);
    assert_eq!(h.count(), 0);
    assert!(chash_begin(&h).is_none());
}

#[test]
fn chash_func_is_djb2_over_signed_chars() {
    assert_eq!(chash_func(b""), 5381);
    assert_eq!(chash_func(b"a"), 5381u32.wrapping_mul(33).wrapping_add(97));
    assert_eq!(chash_func(&[0xff]), 5381u32.wrapping_mul(33).wrapping_add(0xffff_ffff));
}

#[test]
fn chash_delete_undoes_a_new_set() {
    let mut h = chash_new(13, 0);
    chash_set(&mut h, &d(b"x"), &d(b"1"));
    chash_set(&mut h, &d(b"y"), &d(b"2"));
    assert_eq!(h.count(), 2);
    chash_delete(&mut h, &d(b"y"));
    assert_eq!(h.count(), 1);
    assert!(chash_get(&h, &d(b"y")).is_none());
    assert_eq!(chash_get(&h, &d(b"x")).unwrap().data, b"1".to_vec());
}
