use data_structure::linear::list_raw::{LinkErr, NodeRaw};

#[test]
fn test_new_list() {
    let list = NodeRaw::new();
    assert_eq!(list.data, 0);
    assert!(list.get_ref(1).is_none());
}

#[test]
fn test_insert_at_head() {
    let mut list = NodeRaw::new();
    list.insert(1, 10).unwrap();
    assert_eq!(list.get_ref(1), Some(&10));
    assert!(list.get_ref(2).is_none());
}

#[test]
fn test_insert_at_position() {
    let mut list = NodeRaw::new();
    list.insert(1, 10).unwrap();
    list.insert(2, 20).unwrap();
    assert_eq!(list.get_ref(1), Some(&10));
    assert_eq!(list.get_ref(2), Some(&20));
}

#[test]
fn test_insert_invalid_position() {
    let mut list = NodeRaw::new();
    assert!(list.insert(0, 10).is_err());
    assert!(list.insert(2, 20).is_err());
}

#[test]
fn test_delete_node() {
    let mut list = NodeRaw::new();
    list.insert(1, 10).unwrap();
    list.insert(2, 20).unwrap();
    let deleted = list.delete(1).unwrap();
    assert_eq!(deleted.data, 10);
    assert_eq!(list.get_ref(1), Some(&20));
}

#[test]
fn test_delete_invalid_position() {
    let mut list = NodeRaw::new();
    assert!(list.delete(0).is_none());
    assert!(list.delete(2).is_none());
}

#[test]
fn test_get_ref() {
    let mut list = NodeRaw::new();
    list.insert(1, 10).unwrap();
    list.insert(2, 20).unwrap();
    list.insert(3, 30).unwrap();

    let first = list.get_ref(1).unwrap();
    assert_eq!(*first, 10);

    let second = list.get_ref(2).unwrap();
    assert_eq!(*second, 20);

    let third = list.get_ref(3).unwrap();
    assert_eq!(*third, 30);

    assert!(list.get_ref(4).is_none());

    assert!(list.get_ref(0).is_none());
}

fn values(list: &NodeRaw) -> Vec<i32> {
    let mut out = Vec::new();
    let mut k = 1;
    while let Some(v) = list.get_ref(k) {
        out.push(*v);
        k += 1;
    }
    out
}

#[test]
fn rl_delete_returns_detached_node() {
    let mut list = NodeRaw::new();
    list.insert(1, 10).unwrap();
    list.insert(2, 20).unwrap();
    let deleted = list.delete(1).unwrap();
    assert_eq!(deleted.data, 10);
    assert!(deleted.get_ref(1).is_none());
    assert_eq!(values(&list), vec![20]);
}

#[test]
fn rl_errors_are_typed_and_change_nothing() {
    let mut list = NodeRaw::new();
    list.insert(1, 1).unwrap();
    assert_eq!(list.insert(0, 5), Err(LinkErr::Index));
    assert_eq!(list.insert(3, 5), Err(LinkErr::Index));
    assert_eq!(list.insert(-2, 5), Err(LinkErr::Index));
    assert!(list.delete(2).is_none());
    assert!(list.get_ref(2).is_none());
    assert_eq!(values(&list), vec![1]);
}

#[test]
fn rl_empty_list_reports_absent_everywhere() {
    let mut list = NodeRaw::new();
    for i in -1..4 {
        assert!(list.delete(i).is_none());
        assert!(list.get_ref(i).is_none());
        assert!(list.get_mut(i).is_none());
    }
}

#[test]
fn rl_insert_then_delete_restores_every_position() {
    for i in 1..=4 {
        let mut list = NodeRaw::new();
        for (k, v) in [1, 2, 3].iter().enumerate() {
            list.insert(k as isize + 1, *v).unwrap();
        }
        list.insert(i, 99).unwrap();
        let node = list.delete(i).unwrap();
        assert_eq!(node.data, 99);
        assert_eq!(values(&list), vec![1, 2, 3]);
    }
}

#[test]
fn rl_get_mut_and_insert_next_node() {
    let mut list = NodeRaw::new();
    list.insert(1, 2).unwrap();
    *list.get_mut(1).unwrap() = 5;
    assert_eq!(NodeRaw::insert_next_node(Some(&mut list), 4), Ok(()));
    assert_eq!(NodeRaw::insert_next_node(None, 4), Err(LinkErr::Node));
    assert_eq!(values(&list), vec![4, 5]);
}

#[test]
fn rl_clear_releases_each_node_once_and_slots_are_reused() {
    let mut list = NodeRaw::new();
    for k in 1..=5 {
        list.insert(k, k as i32).unwrap();
    }
    list.delete(3).unwrap();
    list.insert(1, 9).unwrap();
    assert_eq!(values(&list), vec![9, 1, 2, 4, 5]);
    assert_eq!(list.clear(), 5);
    assert!(values(&list).is_empty());
    assert_eq!(list.clear(), 0);
    list.insert(1, 3).unwrap();
    assert_eq!(values(&list), vec![3]);
}
