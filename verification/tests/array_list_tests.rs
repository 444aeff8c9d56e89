use dsa::array_list::ArrayList;

#[test]
fn growing() {
    let initial_cap = 2;
    let mut list = ArrayList::<u32>::new(initial_cap);
    assert_eq!(list.len(), 0);
    assert_eq!(list.print(), &[0, 0]);
    assert_eq!(list.cap(), initial_cap);

    list.push(1);
    assert_eq!(list.print(), &[1, 0]);
    assert_eq!(list.len(), 1);
    assert_eq!(list.cap(), initial_cap);

    list.push(2);
    assert_eq!(list.print(), &[1, 2]);
    assert_eq!(list.cap(), initial_cap);
    let mut prev_cap = list.cap();

    list.push(3);
    assert_eq!(list.print(), &[1, 2, 3, 0]);
    assert_eq!(list.cap(), prev_cap * 2);

    list.push(4);
    assert_eq!(list.print(), &[1, 2, 3, 4]);
    assert_eq!(list.cap(), prev_cap * 2);
    prev_cap = list.cap();

    list.push(5);
    assert_eq!(list.print(), &[1, 2, 3, 4, 5, 0, 0, 0]);
    assert_eq!(list.cap(), prev_cap * 2);
}

#[test]
fn pop() {
    let initial_cap = 4;
    let mut list = ArrayList::<u32>::new(initial_cap);
    assert_eq!(list.pop(), None);

    list.push(1);
    list.push(2);
    list.push(3);
    assert_eq!(list.print(), &[1, 2, 3, 0]);
    assert_eq!(list.pop(), Some(3));
    assert_eq!(list.print(), &[1, 2, 0, 0]);

    list.push(4);
    list.push(5);
    assert_eq!(list.print(), &[1, 2, 4, 5]);

    list.push(6);
    assert_eq!(list.pop(), Some(6));
    assert_eq!(list.print(), &[1, 2, 4, 5, 0, 0, 0, 0]);
}

#[test]
fn pop_front() {
    let initial_cap = 3;
    let mut list = ArrayList::<u32>::new(initial_cap);
    assert_eq!(list.pop_front(), None);
    list.push(1);
    list.push(2);
    list.push(3);
    assert_eq!(list.pop_front(), Some(1));
    assert_eq!(list.print(), &[2, 3]);

    assert_eq!(list.pop_front(), Some(2));
    assert_eq!(list.print(), &[3]);

    assert_eq!(list.pop_front(), Some(3));
    assert_eq!(list.print(), &[]);

    assert_eq!(list.pop_front(), None);
    assert_eq!(list.print(), &[]);
}

#[test]
fn push_front() {
    let initial_cap = 3;
    let mut list = ArrayList::<u32>::new(initial_cap);
    assert_eq!(list.len(), 0);

    list.push_front(1);
    assert_eq!(list.print(), &[1, 0, 0]);

    list.push_front(2);
    assert_eq!(list.print(), &[2, 1, 0]);

    list.push_front(3);
    assert_eq!(list.print(), &[3, 2, 1]);

    list.push_front(4);
    assert_eq!(list.print(), &[4, 3, 2, 1, 0, 0]);
}

#[test]
fn push_front_and_back() {
    let initial_cap = 4;
    let mut list = ArrayList::<u32>::new(initial_cap);

    list.push_front(1);
    assert_eq!(list.print(), &[1, 0, 0, 0]);

    list.push(2);
    assert_eq!(list.print(), &[1, 2, 0, 0]);

    list.push_front(3);
    assert_eq!(list.print(), &[3, 1, 2, 0]);

    list.push(4);
    assert_eq!(list.print(), &[3, 1, 2, 4]);
}

#[test]
fn growing_from_zero_capacity() {
    let mut list = ArrayList::<u32>::new(0);
    assert_eq!(list.len(), 0);
    assert_eq!(list.cap(), 0);
    assert_eq!(list.print(), &[]);

    list.push(7);
    assert_eq!(list.cap(), 1);
    assert_eq!(list.print(), &[7]);

    list.push(8);
    assert_eq!(list.cap(), 2);
    assert_eq!(list.print(), &[7, 8]);

    list.push(9);
    assert_eq!(list.cap(), 4);
    assert_eq!(list.print(), &[7, 8, 9, 0]);
}

#[test]
fn push_pop_round_trip() {
    let mut list = ArrayList::<u32>::new(2);
    list.push(5);
    let len_before = list.len();
    list.push(6);
    assert_eq!(list.pop(), Some(6));
    assert_eq!(list.len(), len_before);
}

#[test]
fn push_front_pop_front_round_trip() {
    let mut list = ArrayList::<u32>::new(3);
    list.push_front(1);
    let len_before = list.len();
    let cap_before = list.cap();
    list.push_front(2);
    assert_eq!(list.pop_front(), Some(2));
    assert_eq!(list.len(), len_before);
    assert_eq!(list.cap(), cap_before - 1);
}

#[test]
fn push_front_pop_front_round_trip_with_growth() {
    let mut list = ArrayList::<u32>::new(1);
    list.push(1);
    list.push_front(2);
    assert_eq!(list.cap(), 2);
    assert_eq!(list.pop_front(), Some(2));
    assert_eq!(list.len(), 1);
    assert_eq!(list.cap(), 1);
}

#[test]
fn pop_on_empty_keeps_length_and_capacity() {
    let mut list = ArrayList::<u32>::new(5);
    assert_eq!(list.pop(), None);
    assert_eq!(list.pop_front(), None);
    assert_eq!(list.len(), 0);
    assert_eq!(list.cap(), 5);
}
