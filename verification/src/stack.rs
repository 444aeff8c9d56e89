use vstd::prelude::*;

verus! {

/// One link of a singly linked, singly owned chain of values.
pub struct Node<T> {
    value: T,
    next: Option<Box<Node<T>>>,
}

/// The values stored in the chain that starts at `node`, front first.
pub closed spec fn node_seq<T>(node: Node<T>) -> Seq<T>
    decreases node,
{
    match node.next {
        None => seq![node.value],
        Some(boxed) => seq![node.value] + node_seq(*boxed),
    }
}

/// The values stored in a possibly empty chain, front first.
pub closed spec fn chain_seq<T>(chain: Option<Box<Node<T>>>) -> Seq<T> {
    match chain {
        None => Seq::empty(),
        Some(boxed) => node_seq(*boxed),
    }
}

/// A chain always starts with the node's own value, followed by the values
/// of its successors.
proof fn lemma_node_seq_unfold<T>(node: Node<T>)
    ensures
        node_seq(node) == seq![node.value] + chain_seq(node.next),
        node_seq(node).len() >= 1,
{
    assert(node_seq(node) =~= seq![node.value] + chain_seq(node.next));
}

impl<T> View for Node<T> {
    type V = Seq<T>;

    closed spec fn view(&self) -> Seq<T> {
        node_seq(*self)
    }
}

impl<T: Copy> Node<T> {
    /// A node holding `value` with no successor.
    pub fn new(value: T) -> (r: Node<T>)
        ensures
            r@ == seq![value],
    {
        let r = Node { value, next: None };
        proof {
            lemma_node_seq_unfold(r);
            assert(r@ =~= seq![value]);
        }
        r
    }

    /// Make a node holding `value` the sole successor of this node,
    /// replacing whatever chain followed it.
    pub fn append(&mut self, value: T)
        ensures
            final(self)@ == seq![old(self)@[0], value],
    {
        proof {
            lemma_node_seq_unfold(*self);
        }
        self.next = Some(Box::new(Node::new(value)));
        proof {
            lemma_node_seq_unfold(*self);
            assert(self@ =~= seq![old(self)@[0], value]);
        }
    }
}

/// A first-in, first-out queue over an owned chain of nodes.
///
/// The abstract view (`@`) is the sequence of stored values, front first.
pub struct Queue<T: Copy> {
    length: usize,
    head: Option<Box<Node<T>>>,
}

impl<T: Copy> View for Queue<T> {
    type V = Seq<T>;

    closed spec fn view(&self) -> Seq<T> {
        chain_seq(self.head)
    }
}

/// The chain `chain` with `value` appended at its far end.
fn push_back_chain<T: Copy>(chain: Option<Box<Node<T>>>, value: T) -> (r: Box<Node<T>>)
    ensures
        r@ == chain_seq(chain).push(value),
    decreases chain,
{
    match chain {
        None => {
            let r = Box::new(Node::new(value));
            proof {
                assert(r@ =~= chain_seq(None::<Box<Node<T>>>).push(value));
            }
            r
        },
        Some(boxed) => {
            let node = *boxed;
            proof {
                lemma_node_seq_unfold(node);
            }
            let tail = push_back_chain(node.next, value);
            let r = Box::new(Node { value: node.value, next: Some(tail) });
            proof {
                lemma_node_seq_unfold(*r);
                assert(r@ =~= chain_seq(Some(boxed)).push(value));
            }
            r
        },
    }
}

impl<T: Copy> Queue<T> {
    /// An empty queue.
    pub fn new() -> (r: Self)
        ensures
            r@ == Seq::<T>::empty(),
            r.wf(),
    {
        Queue { length: 0, head: None }
    }

    /// The stored length agrees with the number of queued values.
    pub closed spec fn wf(self) -> bool {
        self.length == self@.len()
    }

    /// Add `value` at the back of the queue.
    pub fn enqueue(&mut self, value: T)
        requires
            old(self).wf(),
            old(self)@.len() < usize::MAX,
        ensures
            final(self).wf(),
            final(self)@ == old(self)@.push(value),
    {
        let head = self.head.take();
        self.head = Some(push_back_chain(head, value));
        self.length = self.length + 1;
    }

    /// Remove and return the front value, or nothing when the queue is
    /// empty.
    pub fn deque(&mut self) -> (r: Option<T>)
        requires
            old(self).wf(),
        ensures
            final(self).wf(),
            old(self)@.len() == 0 ==> r == None::<T> && final(self)@ == old(self)@,
            old(self)@.len() > 0 ==> r == Some(old(self)@[0]) && final(self)@ == old(
                self,
            )@.drop_first(),
    {
        match self.head.take() {
            None => None,
            Some(boxed) => {
                let node = *boxed;
                proof {
                    lemma_node_seq_unfold(node);
                }
                self.head = node.next;
                self.length = self.length - 1;
                proof {
                    assert(self@ =~= old(self)@.drop_first());
                }
                Some(node.value)
            },
        }
    }

    /// The front value, without removing it, or nothing when the queue is
    /// empty.
    pub fn peek(&self) -> (r: Option<T>)
        ensures
            self@.len() == 0 ==> r == None::<T>,
            self@.len() > 0 ==> r == Some(self@[0]),
    {
        match &self.head {
            None => None,
            Some(boxed) => {
                proof {
                    lemma_node_seq_unfold(**boxed);
                }
                Some(boxed.value)
            },
        }
    }
}

} // verus!
