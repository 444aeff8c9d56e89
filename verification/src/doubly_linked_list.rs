use vstd::prelude::*;

verus! {

/// Error returned by position-based insertion.
#[derive(Clone, Copy, Debug, PartialEq, Eq, Structural)]
pub enum ListError {
    /// The list holds no elements.
    Empty,
    /// The given position is not the position of an element.
    OutOfBounds,
}

/// One node of the list: a value and the arena indices of its neighbours.
///
/// Nodes live in the list's arena, and `next` and `prev` are indices into
/// it, so the links carry no ownership and need no shared mutation.
#[derive(Clone, Copy)]
pub struct Node<T> {
    value: T,
    next: Option<usize>,
    prev: Option<usize>,
}

impl<T> Node<T> {
    /// The stored value, as seen by specifications.
    pub closed spec fn spec_value(self) -> T {
        self.value
    }

    /// The arena index of the successor, as seen by specifications.
    pub closed spec fn spec_next(self) -> Option<usize> {
        self.next
    }

    /// The arena index of the predecessor, as seen by specifications.
    pub closed spec fn spec_prev(self) -> Option<usize> {
        self.prev
    }
}

impl<T: Copy> Node<T> {
    /// A detached node holding `value`, linked to nothing.
    pub fn new(value: T) -> (r: Node<T>)
        ensures
            r.spec_value() == value,
            r.spec_next() == None::<usize>,
            r.spec_prev() == None::<usize>,
    {
        Node { value, next: None, prev: None }
    }

    /// Step forward: the arena index of the successor, if there is one.
    pub fn forward_traversal(&self) -> (r: Option<usize>)
        ensures
            r == self.spec_next(),
    {
        self.next
    }

    /// The stored value.
    pub fn value(&self) -> (r: T)
        ensures
            r == self.spec_value(),
    {
        self.value
    }
}

/// A doubly linked list over an index arena.
///
/// The nodes sit in a growing arena and are never removed; the list order is
/// carried by the `next`/`prev` indices, mirrored by the ghost sequence
/// `spec_order`. The abstract view (`@`) is the sequence of values in list
/// order.
pub struct DoublyLinkedList<T> {
    nodes: Vec<Node<T>>,
    head: Option<usize>,
    tail: Option<usize>,
    length: usize,
    order: Ghost<Seq<usize>>,
}

impl<T> DoublyLinkedList<T> {
    /// The arena of nodes, as seen by specifications.
    pub closed spec fn spec_nodes(self) -> Seq<Node<T>> {
        self.nodes@
    }

    /// The arena indices of the elements, in list order.
    pub closed spec fn spec_order(self) -> Seq<usize> {
        self.order@
    }

    /// The arena index of the first element, if any.
    pub closed spec fn spec_head(self) -> Option<usize> {
        self.head
    }

    /// The arena index of the last element, if any.
    pub closed spec fn spec_tail(self) -> Option<usize> {
        self.tail
    }

    /// Number of elements.
    pub closed spec fn spec_len(self) -> nat {
        self.length as nat
    }

    /// Well-formed: the order lists distinct arena indices, and `head`,
    /// `tail` and every node's `next` and `prev` link exactly as that order
    /// says.
    pub open spec fn wf(self) -> bool {
        let ord = self.spec_order();
        let nodes = self.spec_nodes();
        &&& ord.len() == self.spec_len()
        &&& forall|k: int| 0 <= k < ord.len() ==> (#[trigger] ord[k]) < nodes.len()
        &&& forall|j: int, k: int| 0 <= j < k < ord.len() ==> ord[j] != ord[k]
        &&& (ord.len() == 0 ==> self.spec_head() == None::<usize> && self.spec_tail()
            == None::<usize>)
        &&& (ord.len() > 0 ==> self.spec_head() == Some(ord[0]) && self.spec_tail() == Some(
            ord[ord.len() - 1],
        ))
        &&& forall|k: int|
            0 <= k < ord.len() ==> nodes[#[trigger] ord[k] as int].spec_next() == (if k < ord.len()
                - 1 {
                Some(ord[k + 1])
            } else {
                None::<usize>
            })
        &&& forall|k: int|
            0 <= k < ord.len() ==> nodes[#[trigger] ord[k] as int].spec_prev() == (if k > 0 {
                Some(ord[k - 1])
            } else {
                None::<usize>
            })
    }
}

impl<T> View for DoublyLinkedList<T> {
    type V = Seq<T>;

    open spec fn view(&self) -> Seq<T> {
        Seq::new(
            self.spec_order().len(),
            |k: int| self.spec_nodes()[self.spec_order()[k] as int].spec_value(),
        )
    }
}

impl<T: Copy> DoublyLinkedList<T> {
    /// An empty list.
    pub fn new() -> (r: DoublyLinkedList<T>)
        ensures
            r.wf(),
            r@ == Seq::<T>::empty(),
            r.spec_len() == 0,
    {
        let r = DoublyLinkedList {
            nodes: Vec::new(),
            head: None,
            tail: None,
            length: 0,
            order: Ghost(Seq::empty()),
        };
        proof {
            assert(r@ =~= Seq::<T>::empty());
        }
        r
    }

    /// Number of elements.
    pub fn len(&self) -> (r: usize)
        ensures
            r == self.spec_len(),
    {
        self.length
    }

    /// Insert `value` as the new first element.
    pub fn insert_at_head(&mut self, value: T)
        requires
            old(self).wf(),
            old(self)@.len() < usize::MAX,
        ensures
            final(self).wf(),
            final(self)@ == seq![value] + old(self)@,
            final(self).spec_len() == old(self).spec_len() + 1,
    {
        let idx = self.nodes.len();
        let mut node = Node::new(value);
        node.next = self.head;
        self.nodes.push(node);
        match self.head {
            None => {
                self.tail = Some(idx);
            },
            Some(h) => {
                proof {
                    assert(old(self).spec_order()[0] < old(self).spec_nodes().len());
                }
                let mut old_head = self.nodes[h];
                old_head.prev = Some(idx);
                self.nodes.set(h, old_head);
            },
        }
        self.head = Some(idx);
        self.length = self.length + 1;
        proof {
            self.order@ = seq![idx] + self.order@;
            let ord0 = old(self).spec_order();
            let ord = self.spec_order();
            let nodes = self.spec_nodes();
            assert forall|k: int| 0 <= k < ord.len() implies (#[trigger] ord[k]) < nodes.len() by {
                if k > 0 {
                    assert(ord0[k - 1] < old(self).spec_nodes().len());
                }
            }
            assert forall|j: int, k: int| 0 <= j < k < ord.len() implies ord[j] != ord[k] by {
                assert(ord0[k - 1] < old(self).spec_nodes().len());
                if j > 0 {
                    assert(ord0[j - 1] != ord0[k - 1]);
                }
            }
            assert forall|k: int|
                0 <= k < ord.len() implies nodes[#[trigger] ord[k] as int].spec_next() == (if k
                < ord.len() - 1 {
                Some(ord[k + 1])
            } else {
                None::<usize>
            }) by {
                if k > 0 {
                    assert(ord0[k - 1] < old(self).spec_nodes().len());
                    if k - 1 > 0 {
                        assert(ord0[0] != ord0[k - 1]);
                    }
                }
            }
            assert forall|k: int|
                0 <= k < ord.len() implies nodes[#[trigger] ord[k] as int].spec_prev() == (if k
                > 0 {
                Some(ord[k - 1])
            } else {
                None::<usize>
            }) by {
                if k > 0 {
                    assert(ord0[k - 1] < old(self).spec_nodes().len());
                    if k - 1 > 0 {
                        assert(ord0[0] != ord0[k - 1]);
                    }
                }
            }
            assert forall|k: int| 0 <= k < self@.len() implies self@[k] == (seq![value] + old(
                self,
            )@)[k] by {
                if k > 0 {
                    assert(ord0[k - 1] < old(self).spec_nodes().len());
                    if k - 1 > 0 {
                        assert(ord0[0] != ord0[k - 1]);
                    }
                }
            }
            assert(self@ =~= seq![value] + old(self)@);
        }
    }

    /// Insert `value` as the new last element.
    pub fn insert_at_tail(&mut self, value: T)
        requires
            old(self).wf(),
            old(self)@.len() < usize::MAX,
        ensures
            final(self).wf(),
            final(self)@ == old(self)@ + seq![value],
            final(self).spec_len() == old(self).spec_len() + 1,
    {
        let idx = self.nodes.len();
        let mut node = Node::new(value);
        node.prev = self.tail;
        self.nodes.push(node);
        match self.tail {
            None => {
                self.head = Some(idx);
            },
            Some(t) => {
                proof {
                    let n0 = old(self).spec_order().len();
                    assert(old(self).spec_order()[n0 - 1] < old(self).spec_nodes().len());
                }
                let mut old_tail = self.nodes[t];
                old_tail.next = Some(idx);
                self.nodes.set(t, old_tail);
            },
        }
        self.tail = Some(idx);
        self.length = self.length + 1;
        proof {
            self.order@ = self.order@ + seq![idx];
            let ord0 = old(self).spec_order();
            let n0 = ord0.len() as int;
            let ord = self.spec_order();
            let nodes = self.spec_nodes();
            assert forall|k: int| 0 <= k < ord.len() implies (#[trigger] ord[k]) < nodes.len() by {
                if k < n0 {
                    assert(ord0[k] < old(self).spec_nodes().len());
                }
            }
            assert forall|j: int, k: int| 0 <= j < k < ord.len() implies ord[j] != ord[k] by {
                assert(ord0[j] < old(self).spec_nodes().len());
                if k < n0 {
                    assert(ord0[j] != ord0[k]);
                }
            }
            assert forall|k: int|
                0 <= k < ord.len() implies nodes[#[trigger] ord[k] as int].spec_next() == (if k
                < ord.len() - 1 {
                Some(ord[k + 1])
            } else {
                None::<usize>
            }) by {
                if k < n0 {
                    assert(ord0[k] < old(self).spec_nodes().len());
                    if k < n0 - 1 {
                        assert(ord0[k] != ord0[n0 - 1]);
                    }
                }
            }
            assert forall|k: int|
                0 <= k < ord.len() implies nodes[#[trigger] ord[k] as int].spec_prev() == (if k
                > 0 {
                Some(ord[k - 1])
            } else {
                None::<usize>
            }) by {
                if k < n0 {
                    assert(ord0[k] < old(self).spec_nodes().len());
                    if k < n0 - 1 {
                        assert(ord0[k] != ord0[n0 - 1]);
                    }
                }
            }
            assert forall|k: int| 0 <= k < self@.len() implies self@[k] == (old(self)@ + seq![
                value,
            ])[k] by {
                if k < n0 {
                    assert(ord0[k] < old(self).spec_nodes().len());
                    if k < n0 - 1 {
                        assert(ord0[k] != ord0[n0 - 1]);
                    }
                }
            }
            assert(self@ =~= old(self)@ + seq![value]);
        }
    }

    /// The first value, if any.
    pub fn peek_head(&self) -> (r: Option<T>)
        requires
            self.wf(),
        ensures
            self@.len() == 0 ==> r == None::<T>,
            self@.len() > 0 ==> r == Some(self@[0]),
    {
        match self.head {
            None => None,
            Some(h) => {
                proof {
                    assert(self.spec_order()[0] < self.spec_nodes().len());
                }
                Some(self.nodes[h].value)
            },
        }
    }

    /// The last value, if any.
    pub fn peek_tail(&self) -> (r: Option<T>)
        requires
            self.wf(),
        ensures
            self@.len() == 0 ==> r == None::<T>,
            self@.len() > 0 ==> r == Some(self@[self@.len() - 1]),
    {
        match self.tail {
            None => None,
            Some(t) => {
                proof {
                    assert(self.spec_order()[self.spec_order().len() - 1]
                        < self.spec_nodes().len());
                }
                Some(self.nodes[t].value)
            },
        }
    }

    /// Insert `value` directly after the element at position `pos`, counting
    /// positions from zero at the head. On an empty list or a position at or
    /// beyond the length, report the error and change nothing.
    #[verifier::rlimit(100)]
    pub fn insert_after(&mut self, pos: u32, value: T) -> (r: Result<(), ListError>)
        requires
            old(self).wf(),
            old(self)@.len() < usize::MAX,
        ensures
            final(self).wf(),
            old(self)@.len() == 0 ==> r == Err::<(), ListError>(ListError::Empty) && final(self)@
                == old(self)@ && final(self).spec_len() == old(self).spec_len(),
            old(self)@.len() > 0 && pos >= old(self)@.len() ==> r == Err::<(), ListError>(
                ListError::OutOfBounds,
            ) && final(self)@ == old(self)@ && final(self).spec_len() == old(self).spec_len(),
            pos < old(self)@.len() ==> r == Ok::<(), ListError>(()) && final(self)@ == old(
                self,
            )@.insert(pos as int + 1, value) && final(self).spec_len() == old(self).spec_len() + 1,
    {
        if self.length == 0 {
            return Err(ListError::Empty);
        }
        if pos as usize >= self.length {
            return Err(ListError::OutOfBounds);
        }
        let mut current: usize = match self.head {
            Some(h) => h,
            None => vstd::pervasive::unreached(),
        };
        let mut k: usize = 0;
        while k < pos as usize
            invariant
                *self == *old(self),
                self.wf(),
                k <= pos as usize,
                (pos as usize) < self.spec_order().len(),
                current == self.spec_order()[k as int],
            decreases pos as usize - k,
        {
            proof {
                assert(self.spec_order()[k as int] < self.spec_nodes().len());
            }
            let node = self.nodes[current];
            current = match node.next {
                Some(nxt) => nxt,
                None => vstd::pervasive::unreached(),
            };
            k = k + 1;
        }
        let ghost ord0 = old(self).spec_order();
        let ghost nodes0 = old(self).spec_nodes();
        let ghost n0 = ord0.len() as int;
        let ghost p = pos as int;
        let new_idx = self.nodes.len();
        proof {
            assert(ord0[p] < nodes0.len());
        }
        let cur_node = self.nodes[current];
        let new_node = Node { value, next: cur_node.next, prev: Some(current) };
        self.nodes.push(new_node);
        let mut cur_mod = cur_node;
        cur_mod.next = Some(new_idx);
        self.nodes.set(current, cur_mod);
        match cur_node.next {
            Some(nxt) => {
                proof {
                    assert(nodes0[ord0[p] as int].spec_next() == (if p < n0 - 1 {
                        Some(ord0[p + 1])
                    } else {
                        None::<usize>
                    }));
                    assert(p < n0 - 1 && nxt == ord0[p + 1]);
                    assert(ord0[p + 1] < nodes0.len());
                    assert(ord0[p] != ord0[p + 1]);
                }
                let mut nxt_node = self.nodes[nxt];
                nxt_node.prev = Some(new_idx);
                self.nodes.set(nxt, nxt_node);
            },
            None => {
                proof {
                    assert(nodes0[ord0[p] as int].spec_next() == (if p < n0 - 1 {
                        Some(ord0[p + 1])
                    } else {
                        None::<usize>
                    }));
                    assert(p == n0 - 1);
                }
                self.tail = Some(new_idx);
            },
        }
        self.length = self.length + 1;
        proof {
            self.order@ = self.order@.insert(p + 1, new_idx as usize);
            let ord = self.spec_order();
            let nodes = self.spec_nodes();
            assert(ord.len() == n0 + 1);
            assert forall|k2: int| 0 <= k2 <= n0 implies ord[k2] == (if k2 <= p {
                ord0[k2]
            } else if k2 == p + 1 {
                new_idx
            } else {
                ord0[k2 - 1]
            }) by {}
            assert forall|k2: int| 0 <= k2 < ord.len() implies (#[trigger] ord[k2])
                < nodes.len() by {
                if k2 != p + 1 {
                    let j = if k2 <= p {
                        k2
                    } else {
                        k2 - 1
                    };
                    assert(ord0[j] < nodes0.len());
                }
            }
            assert forall|j2: int, k2: int| 0 <= j2 < k2 < ord.len() implies ord[j2] != ord[k2] by {
                let a = if j2 <= p {
                    j2
                } else {
                    j2 - 1
                };
                let b = if k2 <= p {
                    k2
                } else {
                    k2 - 1
                };
                if j2 != p + 1 {
                    assert(ord0[a] < nodes0.len());
                }
                if k2 != p + 1 {
                    assert(ord0[b] < nodes0.len());
                }
                if j2 != p + 1 && k2 != p + 1 {
                    assert(ord0[a] != ord0[b]);
                }
            }
            assert forall|k2: int|
                0 <= k2 < ord.len() implies nodes[#[trigger] ord[k2] as int].spec_next() == (if k2
                < ord.len() - 1 {
                Some(ord[k2 + 1])
            } else {
                None::<usize>
            }) by {
                if k2 <= p {
                    assert(ord0[k2] < nodes0.len());
                    if k2 < p {
                        assert(ord0[k2] != ord0[p]);
                        if p < n0 - 1 {
                            assert(ord0[k2] != ord0[p + 1]);
                        }
                    }
                } else if k2 > p + 1 {
                    assert(ord0[k2 - 1] < nodes0.len());
                    assert(ord0[p] != ord0[k2 - 1]);
                    if k2 - 1 > p + 1 && p < n0 - 1 {
                        assert(ord0[p + 1] != ord0[k2 - 1]);
                    }
                    if k2 < n0 {
                        assert(ord0[k2] < nodes0.len());
                    }
                }
            }
            assert forall|k2: int|
                0 <= k2 < ord.len() implies nodes[#[trigger] ord[k2] as int].spec_prev() == (if k2
                > 0 {
                Some(ord[k2 - 1])
            } else {
                None::<usize>
            }) by {
                if k2 <= p {
                    assert(ord0[k2] < nodes0.len());
                    if k2 < p {
                        assert(ord0[k2] != ord0[p]);
                        if p < n0 - 1 {
                            assert(ord0[k2] != ord0[p + 1]);
                        }
                    }
                } else if k2 > p + 1 {
                    assert(ord0[k2 - 1] < nodes0.len());
                    if k2 - 1 > p + 1 {
                        assert(ord0[p] != ord0[k2 - 1]);
                        if p < n0 - 1 {
                            assert(ord0[p + 1] != ord0[k2 - 1]);
                        }
                    }
                }
            }
            assert forall|k2: int| 0 <= k2 < self@.len() implies self@[k2] == old(self)@.insert(
                p + 1,
                value,
            )[k2] by {
                if k2 != p + 1 {
                    let j = if k2 <= p {
                        k2
                    } else {
                        k2 - 1
                    };
                    assert(ord0[j] < nodes0.len());
                    if j != p {
                        assert(ord0[j] != ord0[p]);
                    }
                    if p < n0 - 1 && j != p + 1 {
                        assert(ord0[j] != ord0[p + 1]);
                    }
                }
            }
            assert(self@ =~= old(self)@.insert(p + 1, value));
        }
        Ok(())
    }

    /// The arena index of the first element, if any.
    pub fn head_index(&self) -> (r: Option<usize>)
        ensures
            r == self.spec_head(),
    {
        self.head
    }

    /// A copy of the node at arena index `idx`, if the index is in the arena.
    pub fn node_at(&self, idx: usize) -> (r: Option<Node<T>>)
        ensures
            idx < self.spec_nodes().len() ==> r == Some(self.spec_nodes()[idx as int]),
            idx >= self.spec_nodes().len() ==> r == None::<Node<T>>,
    {
        if idx < self.nodes.len() {
            Some(self.nodes[idx])
        } else {
            None
        }
    }
}

} // verus!
