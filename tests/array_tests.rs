use data_structure::linear::array::{ArrayList, SqList};
use data_structure::linear::List;
use data_structure::Error;

#[test]
fn test1() {
    let mut arr: ArrayList<char> = ArrayList::new();
    arr.insert(1, 'a').expect("insert at 1");
    arr.insert(2, 'b').expect("insert at 2");
    arr.insert(3, 'c').expect("insert at 3");
}

#[test]
fn array_list_positions_and_errors() {
    let mut arr: ArrayList<char> = ArrayList::new();
    assert_eq!(arr.insert(0, 'x'), Err("数组越界"));
    assert_eq!(arr.insert(2, 'x'), Err("数组越界"));
    assert_eq!(arr.insert(1, 'a'), Ok(()));
    assert_eq!(arr.insert(2, 'c'), Ok(()));
    assert_eq!(arr.insert(2, 'b'), Ok(()));
    assert_eq!(arr.length(), 3);
    assert!(arr.empty());
    assert_eq!(arr.get_element(1), Ok('a'));
    assert_eq!(arr.get_element(2), Ok('b'));
    assert_eq!(arr.get_element(3), Ok('c'));
    assert_eq!(arr.get_element(0), Err("数组越界"));
    assert_eq!(arr.get_element(4), Err("数组越界"));
    assert_eq!(arr.locate_index('c'), Ok(3));
    assert_eq!(arr.locate_index('z'), Err("查找失败"));
    assert_eq!(arr.prior_element('b'), Ok('a'));
    assert_eq!(arr.prior_element('a'), Err("当前元素为第一个元素,没有前驱"));
    assert_eq!(arr.prior_element('z'), Err("元素不存在!"));
    assert_eq!(arr.next_element('b'), Ok('c'));
    assert_eq!(arr.next_element('c'), Err("当前元素为最后一个元素,没有后继"));
    assert_eq!(arr.next_element('z'), Err("元素不存在!"));
    assert_eq!(arr.delete(0), Err("数组操作越界!"));
    assert_eq!(arr.delete(4), Err("数组操作越界!"));
    assert_eq!(arr.delete(1), Ok(()));
    assert_eq!(arr.get_element(1), Ok('b'));
    assert_eq!(arr.length(), 2);
    arr.clear();
    assert_eq!(arr.length(), 0);
    assert!(!arr.empty());
    assert_eq!(arr.prior_element('b'), Err("数组为空"));
    assert_eq!(arr.next_element('b'), Err("数组为空"));
}

#[test]
fn array_list_full_at_one_hundred() {
    let mut arr: ArrayList<i32> = ArrayList::new();
    for k in 0..100 {
        assert_eq!(arr.insert(k as usize + 1, k), Ok(()));
    }
    assert_eq!(arr.insert(101, 100), Err("数组已满"));
    assert_eq!(arr.insert(102, 100), Err("数组越界"));
    assert_eq!(arr.length(), 100);
    assert_eq!(arr.get_element(100), Ok(99));
}

#[test]
fn sq_list_contract() {
    let mut list: SqList<i32> = SqList::init_list();
    assert!(list.list_empty());
    assert_eq!(list.list_insert(0, 1), Err(Error::IndexErr));
    assert_eq!(list.list_insert(1, 42), Ok(()));
    assert_eq!(list.list_insert(2, 84), Ok(()));
    assert_eq!(list.list_insert(2, 63), Ok(()));
    assert_eq!(list.list_length(), 3);
    assert_eq!(list.get_elem(1), Some(42));
    assert_eq!(list.get_elem(2), Some(63));
    assert_eq!(list.get_elem(4), None);
    assert_eq!(list.locate_elem(84), 3);
    assert_eq!(list.locate_elem(7), 0);
    assert_eq!(list.prior_elem(84, &0), Some(63));
    assert_eq!(list.prior_elem(42, &0), None);
    assert_eq!(list.next_elem(42, &0), Some(63));
    assert_eq!(list.next_elem(84, &0), None);
    assert_eq!(list.traverse_list(), vec![42, 63, 84]);
    assert_eq!(list.list_delete(4), Err(Error::IndexErr));
    assert_eq!(list.list_delete(2), Ok(()));
    assert_eq!(list.traverse_list(), vec![42, 84]);
    list.clear_list();
    assert!(list.list_empty());
    assert_eq!(list.next_elem(42, &0), None);
    list.destroy_list();
}

#[test]
fn sq_list_full_error() {
    let mut list: SqList<i32> = SqList::init_list();
    for k in 0..100 {
        assert_eq!(list.list_insert(1, k), Ok(()));
    }
    assert_eq!(list.list_insert(1, 100), Err(Error::FullErr));
    assert_eq!(list.list_insert(102, 100), Err(Error::IndexErr));
    assert_eq!(list.get_elem(1), Some(99));
}
