use std::rc::Rc;

use ironcamel::builtin::IroncamelLinkedList;
use ironcamel::expr::ExprAST;

fn gei(x: i64) -> ExprAST {
    ExprAST::Int(x)
}

#[test]
fn build_linkedlist() {
    let list = IroncamelLinkedList::build(gei(5));
    assert_eq!(list.len, 1);
}

#[test]
fn insert_to_list() {
    let l1 = IroncamelLinkedList::build(gei(5));
    assert_eq!(l1.as_vector_i64(), vec![5]);
    let l2 = IroncamelLinkedList::cons(gei(42), &Rc::new(l1));
    assert_eq!(l2.as_vector_i64(), vec![42, 5]);
}

#[test]
fn car_cdr_list() {
    let l1 = IroncamelLinkedList::build(gei(5));
    assert_eq!(l1.as_vector_i64(), vec![5]);
    let l2 = IroncamelLinkedList::cons(gei(42), &Rc::new(l1));
    assert_eq!(l2.as_vector_i64(), vec![42, 5]);

    let v = l2.hd();
    match v {
        ExprAST::Int(x) => assert_eq!(*x, 42),
        _ => assert!(false),
    };

    let l3 = l2.tl();
    match l3 {
        Some(l3) => assert_eq!(l3.as_vector_i64(), vec![5]),
        None => assert!(false),
    };
}

#[test]
fn cached_length_follows_constructions() {
    let empty = Rc::new(IroncamelLinkedList::build_empty_list());
    assert_eq!(empty.len, 0);
    let one = Rc::new(IroncamelLinkedList::cons(gei(3), &empty));
    assert_eq!(one.len, 1);
    assert_eq!(one.as_vector().len(), 1);
    assert!(one.tl().is_none());
    let two = Rc::new(IroncamelLinkedList::cons(gei(2), &one));
    let three = Rc::new(IroncamelLinkedList::cons(gei(1), &two));
    assert_eq!(three.len, 3);
    assert_eq!(three.as_vector().len(), 3);
    assert_eq!(three.as_vector_i64(), vec![1, 2, 3]);
    let tail = three.tl().unwrap();
    assert_eq!(tail.len, 2);
    assert_eq!(tail.as_vector_i64(), vec![2, 3]);
    let single = IroncamelLinkedList::build(gei(9));
    assert!(single.tl().is_none());
    assert_eq!(single.as_vector().len(), 1);
}

#[test]
fn cons_shares_the_tail_node() {
    let t = Rc::new(IroncamelLinkedList::cons(gei(7), &Rc::new(IroncamelLinkedList::build(gei(8)))));
    let l = IroncamelLinkedList::cons(gei(6), &t);
    let back = l.tl().unwrap();
    assert!(Rc::ptr_eq(&back, &t));
    assert_eq!(Rc::strong_count(&t), 3);
}

#[test]
fn as_vector_lists_elements_in_order() {
    let l = IroncamelLinkedList::cons(gei(1), &Rc::new(IroncamelLinkedList::build(gei(2))));
    let v = l.as_vector();
    assert!(matches!(*v[0], ExprAST::Int(1)));
    assert!(matches!(*v[1], ExprAST::Int(2)));
}
