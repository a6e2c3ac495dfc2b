use data_structure::linear::list_node::{delete, destroy_list, init_list, list_insert, LinkList, ListNode};

#[test]
fn test_init_list() {
    let mut list = LinkList::new();
    assert!(init_list(&mut list));
    assert!(list.get(0).is_some());
    assert_eq!(list.get(0), Some(0));
    assert_eq!(list.get(1), None);
}

#[test]
fn test_list_insert() {
    let mut list = LinkList::new();
    init_list(&mut list);
    assert!(list_insert(&mut list, 1, 42));
    assert_eq!(list.get(1), Some(42));
}

#[test]
fn test_delete() {
    let mut list = LinkList::new();
    init_list(&mut list);
    list_insert(&mut list, 1, 10);
    list_insert(&mut list, 2, 20);
    list_insert(&mut list, 3, 30);

    let deleted_node = delete(&mut list, 1);
    assert_eq!(deleted_node.data, 10);
    assert_eq!(list.get(1), Some(20));
}

#[test]
fn test_sentinel_head() {
    let mut head: Box<ListNode<i32>> = Box::new(ListNode::new());
    for i in 1..6 {
        head.push(i);
    }
    assert!(head.data.is_none());
    assert_eq!(head.next.unwrap().data, Some(1))
}

#[test]
fn test_get_mut() {
    let mut head: Box<ListNode<i32>> = Box::new(ListNode::new());
    for i in 1..6 {
        head.push(i);
    }
    let value = head.get_mut(1).unwrap();
    assert_eq!(value.data, Some(1));
    let value2 = head.get_mut(2).unwrap();
    assert_eq!(value2.data, Some(2));
    let zero = head.get(0).unwrap();
    assert!(zero.data.is_none());
}

#[test]
fn test_length() {
    let mut list: Box<ListNode<i32>> = Box::new(ListNode::new());
    list.push(1);
    list.push(2);
    list.push(3);
    list.push(4);
    assert_eq!(list.length(), 4);
}

fn sentinel_values(head: &ListNode<i32>) -> Vec<Option<i32>> {
    let mut out = Vec::new();
    let mut k = 1;
    while let Some(node) = head.get(k) {
        out.push(node.data);
        k += 1;
    }
    out
}

#[test]
fn sl_push_then_remove_shifts_positions() {
    let mut head = ListNode::new();
    for v in 1..=5 {
        head.push(v);
    }
    assert_eq!(head.length(), 5);
    head.remove(1);
    assert_eq!(head.length(), 4);
    assert_eq!(sentinel_values(&head), vec![Some(2), Some(3), Some(4), Some(5)]);
    assert_eq!(head.get(1).unwrap().data, Some(2));
}

#[test]
fn sl_insert_pop_tail_and_edges() {
    let mut head = ListNode::new();
    head.pop_tail();
    assert_eq!(head.length(), 0);
    assert!(head.get(1).is_none());
    assert!(head.get_mut(1).is_none());
    head.push(1);
    head.push(3);
    head.insert(2, 2);
    head.insert(1, 0);
    assert_eq!(sentinel_values(&head), vec![Some(0), Some(1), Some(2), Some(3)]);
    head.pop_tail();
    assert_eq!(sentinel_values(&head), vec![Some(0), Some(1), Some(2)]);
    *head.get_mut(2).unwrap().data.as_mut().unwrap() = 7;
    assert_eq!(sentinel_values(&head), vec![Some(0), Some(7), Some(2)]);
    assert!(head.get(4).is_none());
}

#[test]
fn sl_insert_then_remove_restores_every_position() {
    for i in 1..=4 {
        let mut head = ListNode::new();
        for v in 1..=3 {
            head.push(v);
        }
        head.insert(i, 99);
        head.remove(i);
        assert_eq!(sentinel_values(&head), vec![Some(1), Some(2), Some(3)]);
    }
}

fn ring_values(list: &LinkList) -> Vec<i32> {
    let mut out = Vec::new();
    let mut k = 0;
    while let Some(v) = list.get(k) {
        out.push(v);
        k += 1;
    }
    out
}

#[test]
fn rrl_swap_then_unlink_semantics() {
    let mut list = LinkList::new();
    assert!(init_list(&mut list));
    assert!(list_insert(&mut list, 1, 10));
    assert!(list_insert(&mut list, 2, 20));
    assert_eq!(ring_values(&list), vec![0, 10, 20]);
    let node = delete(&mut list, 1);
    assert_eq!(node.data, 10);
    assert!(node.next.is_none());
    assert_eq!(ring_values(&list), vec![0, 20]);
}

#[test]
fn rrl_delete_at_head_offset_swaps_head_value() {
    let mut list = LinkList::new();
    init_list(&mut list);
    list_insert(&mut list, 1, 5);
    let node = delete(&mut list, 0);
    assert_eq!(node.data, 0);
    assert_eq!(ring_values(&list), vec![5]);
}

#[test]
fn rrl_invalid_positions_change_nothing() {
    let mut list = LinkList::new();
    assert!(!list_insert(&mut list, 1, 3));
    assert_eq!(list.get(0), None);
    init_list(&mut list);
    list_insert(&mut list, 1, 7);
    assert!(!list_insert(&mut list, 0, 1));
    assert!(!list_insert(&mut list, 3, 1));
    assert_eq!(ring_values(&list), vec![0, 7]);
}

#[test]
fn rrl_insert_then_delete_restores() {
    for i in 1..=3 {
        let mut list = LinkList::new();
        init_list(&mut list);
        for (k, v) in [1, 2, 3].iter().enumerate() {
            list_insert(&mut list, k + 1, *v);
        }
        assert!(list_insert(&mut list, i, 99));
        let node = delete(&mut list, i);
        assert_eq!(node.data, 99);
        assert_eq!(ring_values(&list), vec![0, 1, 2, 3]);
    }
}

#[test]
fn rrl_destroy_releases_each_node_once() {
    let mut list = LinkList::new();
    init_list(&mut list);
    for k in 1..=6 {
        list_insert(&mut list, k, k as i32);
    }
    let node = delete(&mut list, 2);
    assert_eq!(node.data, 2);
    assert_eq!(destroy_list(&mut list), 6);
    assert_eq!(list.get(0), None);
    assert_eq!(destroy_list(&mut list), 0);
}
