use data_structure::linear::string;

#[test]
fn test_index_bf() {
    let s1 = string::String::new(&['a', 'b', 'a', 'b', 'c', 'a', 'b', 'c', 'a', 'c', 'b', 'a', 'b']);
    let s2 = string::String::new(&['a', 'b', 'c', 'a', 'c']);

    assert_eq!(s1.index_BF(&s2, 0), 5);

    let s3 = string::String::new(&['x', 'y', 'z']);
    assert_eq!(s1.index_BF(&s3, 0), 0);

    let s2_clone = s2.clone();
    assert_eq!(s1.index_BF(&s2_clone, 6), 0);
}

#[test]
fn test_index_kmp() {
    assert_eq!(
        string::index_KMP(&['a', 'b', 'a', 'b', 'c', 'a', 'b', 'c', 'a', 'c', 'b', 'a', 'b'], &['a', 'b', 'c', 'a', 'c']),
        Some(5)
    );

    assert_eq!(string::index_KMP(&['a', 'b', 'c'], &['x', 'y', 'z']), None);

    assert_eq!(string::index_KMP(&['a', 'b', 'c'], &[]), Some(0));
}

#[test]
fn bf_edges() {
    let s = string::String::new(&['a', 'a', 'b', 'a', 'a', 'b']);
    let p = string::String::new(&['a', 'b']);
    assert_eq!(s.index_BF(&p, 0), 1);
    assert_eq!(s.index_BF(&p, 2), 4);
    assert_eq!(s.index_BF(&p, 5), 0);
    let empty = string::String::new(&[]);
    assert_eq!(s.index_BF(&empty, 3), 3);
    assert_eq!(s.len, 6);
}

#[test]
fn kmp_compares_the_first_item() {
    assert_eq!(string::index_KMP(&['x', 'b', 'c'], &['a', 'b', 'c']), None);
    assert_eq!(string::index_KMP(&['a', 'a', 'a', 'b'], &['a', 'a', 'b']), Some(1));
    assert_eq!(string::index_KMP(&[1, 2, 1, 2, 1, 3], &[1, 2, 1, 3]), Some(2));
    assert_eq!(string::index_KMP(&[1, 2], &[1, 2, 3]), None);
    assert_eq!(string::index_KMP::<u8>(&[], &[]), Some(0));
}
