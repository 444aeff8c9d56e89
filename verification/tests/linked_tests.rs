use dsa::doubly_linked_list::{DoublyLinkedList, ListError};
use dsa::queue::Queue;
use dsa::stack::Queue as StackQueue;

#[test]
fn insert_at_head() {
    let mut list: DoublyLinkedList<u32> = DoublyLinkedList::new();
    list.insert_at_head(1);
    assert_eq!(list.peek_head(), Some(1));
    assert_eq!(list.peek_tail(), Some(1));
    list.insert_at_head(2);
    assert_eq!(list.peek_head(), Some(2));
    assert_eq!(list.peek_tail(), Some(1));
    assert_eq!(list.len(), 2);
    list.insert_at_head(3);
    list.insert_at_head(4);
    assert_eq!(list.len(), 4);
    assert_eq!(list.peek_head(), Some(4));
    assert_eq!(list.peek_tail(), Some(1));
}

#[test]
fn insert_at_tail() {
    let mut list: DoublyLinkedList<u32> = DoublyLinkedList::new();
    list.insert_at_tail(1);
    assert_eq!(list.peek_head(), Some(1));
    assert_eq!(list.peek_tail(), Some(1));
    list.insert_at_tail(2);
    assert_eq!(list.peek_head(), Some(1));
    assert_eq!(list.peek_tail(), Some(2));
    assert_eq!(list.len(), 2);
    list.insert_at_tail(3);
    list.insert_at_tail(4);
    assert_eq!(list.len(), 4);
    assert_eq!(list.peek_head(), Some(1));
    assert_eq!(list.peek_tail(), Some(4));
}

#[test]
fn insert_after_success() {
    let mut list: DoublyLinkedList<u32> = DoublyLinkedList::new();
    list.insert_at_tail(1);
    list.insert_at_tail(2);
    list.insert_at_tail(3);
    list.insert_at_tail(4);
    assert_eq!(list.insert_after(1, 9), Ok(()));
    let head = list.head_index().unwrap();
    let second = list.node_at(head).unwrap().forward_traversal().unwrap();
    let third = list.node_at(second).unwrap().forward_traversal().unwrap();
    assert_eq!(list.node_at(third).unwrap().value(), 9);
}

#[test]
fn insert_after_empty_list() {
    let mut list: DoublyLinkedList<u32> = DoublyLinkedList::new();
    assert_eq!(list.insert_after(0, 9), Err(ListError::Empty));
    assert_eq!(list.len(), 0);
}

#[test]
fn insert_after_oob() {
    let mut list: DoublyLinkedList<u32> = DoublyLinkedList::new();
    list.insert_at_head(1);
    assert_eq!(list.insert_after(1, 9), Err(ListError::OutOfBounds));
    assert_eq!(list.len(), 1);
    assert_eq!(list.peek_head(), Some(1));
}

#[test]
fn traverse_forward() {
    let mut list: DoublyLinkedList<u32> = DoublyLinkedList::new();
    list.insert_at_tail(1);
    list.insert_at_tail(2);
    list.insert_at_tail(3);
    assert_eq!(list.len(), 3);
    let head = list.head_index().unwrap();
    let second = list.node_at(head).unwrap().forward_traversal().unwrap();
    assert_eq!(list.node_at(second).unwrap().value(), 2);
    let third = list.node_at(second).unwrap().forward_traversal().unwrap();
    assert_eq!(list.node_at(third).unwrap().value(), 3);
}

#[test]
fn dequeue_1() {
    let mut queue: Queue<u32> = Queue::new();
    queue.enqueue(1);
    queue.enqueue(2);
    queue.enqueue(3);
    assert_eq!(queue.deque(), Some(1));
    assert_eq!(queue.deque(), Some(2));
}

#[test]
fn queue_empty_operations() {
    let mut queue: Queue<u32> = Queue::new();
    assert_eq!(queue.peek(), None);
    assert_eq!(queue.deque(), None);
    queue.enqueue(4);
    assert_eq!(queue.peek(), Some(4));
    assert_eq!(queue.deque(), Some(4));
    assert_eq!(queue.deque(), None);
}

#[test]
fn stack_test_1() {
    let mut queue: StackQueue<u32> = StackQueue::new();
    queue.enqueue(1);
    assert_eq!(queue.peek(), Some(1));
    queue.enqueue(2);
    assert_eq!(queue.peek(), Some(1));
    queue.enqueue(3);
    assert_eq!(queue.deque(), Some(1));
    assert_eq!(queue.peek(), Some(2));
    assert_eq!(queue.deque(), Some(2));
    queue.enqueue(4);
    assert_eq!(queue.peek(), Some(3));
    assert_eq!(queue.deque(), Some(3));
    assert_eq!(queue.peek(), Some(4));
    assert_eq!(queue.peek(), Some(4));
    assert_eq!(queue.peek(), Some(4));
    assert_eq!(queue.deque(), Some(4));
}
