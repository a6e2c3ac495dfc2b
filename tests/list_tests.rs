use data_structure::linear::list::List;

#[test]
fn test_insert_enum_link_list() {
    let mut list = List::new();
    assert!(list.insert(1, 10));
    assert_eq!(list.pop(), Some(10));

    list.push(30);
    list.push(10);
    assert!(list.insert(2, 20));
    assert_eq!(list.pop(), Some(10));
    assert_eq!(list.pop(), Some(20));
    assert_eq!(list.pop(), Some(30));

    assert!(!list.insert(0, 0));
    list.push(1);
    assert!(!list.insert(3, 2));
}

#[test]
fn test_delete_enum_link_list() {
    let mut list = List::new();
    assert!(!list.delete(1));

    list.push(3);
    list.push(2);
    list.push(1);
    assert!(list.delete(2));
    assert_eq!(list.pop(), Some(1));
    assert_eq!(list.pop(), Some(3));

    list.push(5);
    assert!(list.delete(1));
    assert_eq!(list.pop(), None);

    list.push(1);
    assert!(!list.delete(2));
}

fn drain(list: &mut List) -> Vec<i32> {
    let mut out = Vec::new();
    while let Some(v) = list.pop() {
        out.push(v);
    }
    out
}

fn build(values: &[i32]) -> List {
    let mut list = List::new();
    for v in values.iter().rev() {
        list.push(*v);
    }
    list
}

#[test]
fn ocl_push_insert_pop_order() {
    let mut list = List::new();
    list.push(30);
    list.push(10);
    assert!(list.insert(2, 20));
    assert_eq!(drain(&mut list), vec![10, 20, 30]);
}

#[test]
fn ocl_insert_then_delete_restores_every_position() {
    let base = [1, 2, 3, 4];
    for i in 1..=5 {
        let mut list = build(&base);
        assert!(list.insert(i, 99));
        assert!(list.delete(i));
        assert_eq!(drain(&mut list), base.to_vec());
    }
}

#[test]
fn ocl_empty_list_reports_absent_everywhere() {
    let mut list = List::new();
    for i in 0..4 {
        assert!(!list.delete(i));
    }
    assert_eq!(list.pop(), None);
}

#[test]
fn ocl_invalid_positions_leave_list_unchanged() {
    let mut list = build(&[5, 6]);
    assert!(!list.insert(0, 1));
    assert!(!list.insert(4, 1));
    assert!(!list.delete(0));
    assert!(!list.delete(3));
    assert_eq!(drain(&mut list), vec![5, 6]);
}

#[test]
fn ocl_long_chain_drops_without_overflow() {
    let mut list = List::new();
    for k in 0..200000 {
        list.push(k);
    }
    drop(list);
}
