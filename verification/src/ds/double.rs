//! A doubly linked list: elements enter and leave at either end.
//!
//! The nodes live in a vector and point at each other by index. A node
//! that leaves the list gives up its slot to the node in the last slot, so
//! the vector holds the nodes of the list and nothing else.

use vstd::prelude::*;

verus! {

// Each node in the middle of the list is pointed at by its predecessor and
// its successor, and the nodes at the ends by the list itself:
// the head has no `prev`, the tail has no `next`.
struct DoubleNode<T> {
    key: T,
    next: Option<usize>,
    prev: Option<usize>,
}

impl<T> DoubleNode<T> {
    fn new(key: T) -> (node: Self)
        ensures
            node.key == key,
            node.next is None,
            node.prev is None,
    {
        Self { key, next: None, prev: None }
    }
}

/// The slot of the predecessor of the node at place `p` of the list.
spec fn prev_of(order: Seq<usize>, p: int) -> Option<usize> {
    if p == 0 {
        None
    } else {
        Some(order[p - 1])
    }
}

/// The slot of the successor of the node at place `p` of the list.
spec fn next_of(order: Seq<usize>, p: int) -> Option<usize> {
    if p == order.len() - 1 {
        None
    } else {
        Some(order[p + 1])
    }
}

/// The node at place `p` of the list points at its neighbours.
spec fn linked_at<T>(nodes: Seq<DoubleNode<T>>, order: Seq<usize>, p: int) -> bool {
    &&& order[p] < nodes.len()
    &&& nodes[order[p] as int].prev == prev_of(order, p)
    &&& nodes[order[p] as int].next == next_of(order, p)
}

/// `order` lists the slots of the nodes from the front of the list to its
/// back: no slot occurs twice, each node points at its neighbours, and
/// `head` and `tail` point at the ends.
spec fn linked<T>(
    nodes: Seq<DoubleNode<T>>,
    head: Option<usize>,
    tail: Option<usize>,
    order: Seq<usize>,
) -> bool {
    &&& forall|p: int| 0 <= p < order.len() ==> #[trigger] linked_at(nodes, order, p)
    &&& forall|p: int, q: int|
        0 <= p < q < order.len() ==> #[trigger] order[p] != #[trigger] order[q]
    &&& head == if order.len() == 0 {
        None
    } else {
        Some(order[0])
    }
    &&& tail == if order.len() == 0 {
        None
    } else {
        Some(order[order.len() - 1])
    }
}

/// Every slot before `n` but `except` is a slot of the list.
spec fn covers(order: Seq<usize>, n: nat, except: int) -> bool {
    forall|s: usize| s < n && s != except ==> #[trigger] order.contains(s)
}

/// The keys of the nodes in the order of the list.
spec fn keys_of<T>(nodes: Seq<DoubleNode<T>>, order: Seq<usize>) -> Seq<T> {
    Seq::new(order.len(), |p: int| nodes[order[p] as int].key)
}

/// A doubly linked list. Its view is the sequence of its elements from
/// the front to the back.
pub struct DoubleLinked<T> {
    nodes: Vec<DoubleNode<T>>,
    head: Option<usize>,
    tail: Option<usize>,
    order: Ghost<Seq<usize>>,
}

impl<T> View for DoubleLinked<T> {
    type V = Seq<T>;

    closed spec fn view(&self) -> Seq<T> {
        keys_of(self.nodes@, self.order@)
    }
}

impl<T> DoubleLinked<T> {
    /// The links of the list are in order: the nodes form one chain from
    /// the head to the tail, and every slot holds a node of the chain.
    pub closed spec fn wf(&self) -> bool {
        &&& linked(self.nodes@, self.head, self.tail, self.order@)
        &&& self.order@.len() == self.nodes@.len()
        &&& covers(self.order@, self.nodes@.len(), -1)
    }

    /// The empty list.
    pub fn new() -> (list: Self)
        ensures
            list.wf(),
            list@ == Seq::<T>::empty(),
    {
        let list = Self { nodes: Vec::new(), head: None, tail: None, order: Ghost(Seq::empty()) };
        assert(list@ =~= Seq::<T>::empty());
        list
    }

    /// Puts `key` at the front of the list.
    pub fn push_front(&mut self, key: T)
        requires
            old(self).wf(),
        ensures
            final(self).wf(),
            final(self)@ == seq![key] + old(self)@,
    {
        let ghost order0 = self.order@;
        let ghost nodes0 = self.nodes@;
        let slot: usize = self.nodes.len();
        let mut new_head = DoubleNode::new(key);
        match self.head {
            Some(last_head) => {
                assert(linked_at(nodes0, order0, 0));
                new_head.next = Some(last_head);
                self.nodes.push(new_head);
                self.nodes[last_head].prev = Some(slot);
                self.head = Some(slot);
            },
            None => {
                self.nodes.push(new_head);
                self.head = Some(slot);
                self.tail = Some(slot);
            },
        }
        proof {
            let order1 = seq![slot] + order0;
            self.order@ = order1;
            let nodes1 = self.nodes@;
            assert forall|p: int| 0 <= p < order1.len() implies #[trigger] linked_at(
                nodes1,
                order1,
                p,
            ) by {
                if p > 0 {
                    assert(linked_at(nodes0, order0, p - 1));
                    assert(order1[p] == order0[p - 1]);
                    if p > 1 {
                        assert(order1[p - 1] == order0[p - 2]);
                    }
                }
            }
            assert forall|p: int, q: int| 0 <= p < q < order1.len() implies #[trigger] order1[p]
                != #[trigger] order1[q] by {
                assert(linked_at(nodes0, order0, q - 1));
                if p > 0 {
                    assert(order0[p - 1] != order0[q - 1]);
                }
            }
            assert forall|s: usize| s < nodes1.len() implies #[trigger] order1.contains(s) by {
                if s == slot {
                    assert(order1[0] == s);
                } else {
                    assert(order0.contains(s));
                    let p = choose|p: int| 0 <= p < order0.len() && order0[p] == s;
                    assert(order1[p + 1] == s);
                }
            }
            assert(self@ =~= seq![key] + old(self)@) by {
                assert forall|p: int| 1 <= p < order1.len() implies nodes1[order1[p] as int].key
                    == nodes0[order0[p - 1] as int].key by {
                    assert(linked_at(nodes0, order0, p - 1));
                }
            }
        }
    }

    /// Puts `key` at the back of the list.
    pub fn push_back(&mut self, key: T)
        requires
            old(self).wf(),
        ensures
            final(self).wf(),
            final(self)@ == old(self)@.push(key),
    {
        let ghost order0 = self.order@;
        let ghost nodes0 = self.nodes@;
        let slot: usize = self.nodes.len();
        let mut new_tail = DoubleNode::new(key);
        match self.tail {
            Some(last_tail) => {
                assert(linked_at(nodes0, order0, order0.len() - 1));
                new_tail.prev = Some(last_tail);
                self.nodes.push(new_tail);
                self.nodes[last_tail].next = Some(slot);
                self.tail = Some(slot);
            },
            None => {
                self.nodes.push(new_tail);
                self.tail = Some(slot);
                self.head = Some(slot);
            },
        }
        proof {
            let order1 = order0.push(slot);
            self.order@ = order1;
            let nodes1 = self.nodes@;
            assert forall|p: int| 0 <= p < order1.len() implies #[trigger] linked_at(
                nodes1,
                order1,
                p,
            ) by {
                if p < order0.len() {
                    assert(linked_at(nodes0, order0, p));
                }
            }
            assert forall|p: int, q: int| 0 <= p < q < order1.len() implies #[trigger] order1[p]
                != #[trigger] order1[q] by {
                assert(linked_at(nodes0, order0, p));
                if q < order0.len() {
                    assert(order0[p] != order0[q]);
                }
            }
            assert forall|s: usize| s < nodes1.len() implies #[trigger] order1.contains(s) by {
                if s == slot {
                    assert(order1[order0.len() as int] == s);
                } else {
                    assert(order0.contains(s));
                    let p = choose|p: int| 0 <= p < order0.len() && order0[p] == s;
                    assert(order1[p] == s);
                }
            }
            assert(self@ =~= old(self)@.push(key)) by {
                assert forall|p: int| 0 <= p < order0.len() implies nodes1[order1[p] as int].key
                    == nodes0[order0[p] as int].key by {
                    assert(linked_at(nodes0, order0, p));
                }
            }
        }
    }

    /// Takes the element at the front off the list, if there is one.
    pub fn pop_front(&mut self) -> (r: Option<T>)
        requires
            old(self).wf(),
        ensures
            final(self).wf(),
            old(self)@.len() == 0 ==> r is None && final(self)@ == old(self)@,
            old(self)@.len() > 0 ==> r == Some(old(self)@[0]) && final(self)@ == old(self)@.skip(1),
    {
        let ghost order0 = self.order@;
        let ghost nodes0 = self.nodes@;
        match self.head {
            None => None,
            Some(last_head) => {
                assert(linked_at(nodes0, order0, 0));
                // The node after the head becomes the head of the list.
                match self.nodes[last_head].next {
                    Some(new_head) => {
                        assert(linked_at(nodes0, order0, 1));
                        self.nodes[new_head].prev = None;
                        self.head = Some(new_head);
                    },
                    None => {
                        // The head was the only node.
                        self.head = None;
                        self.tail = None;
                    },
                }
                proof {
                    let order1 = order0.drop_first();
                    self.order@ = order1;
                    let nodes1 = self.nodes@;
                    assert forall|p: int| 0 <= p < order1.len() implies #[trigger] linked_at(
                        nodes1,
                        order1,
                        p,
                    ) by {
                        assert(linked_at(nodes0, order0, p + 1));
                        assert(order0[1] != order0[p + 1] || p == 0);
                    }
                    assert forall|p: int, q: int|
                        0 <= p < q < order1.len() implies #[trigger] order1[p]
                        != #[trigger] order1[q] by {
                        assert(order0[p + 1] != order0[q + 1]);
                    }
                    assert forall|s: usize|
                        s < nodes1.len() && s != last_head implies #[trigger] order1.contains(
                        s,
                    ) by {
                        assert(order0.contains(s));
                        let p = choose|p: int| 0 <= p < order0.len() && order0[p] == s;
                        assert(order1[p - 1] == s);
                    }
                    assert(!order1.contains(last_head)) by {
                        if order1.contains(last_head) {
                            let p = choose|p: int| 0 <= p < order1.len() && order1[p] == last_head;
                            assert(order0[0] != order0[p + 1]);
                        }
                    }
                    assert(keys_of(nodes1, order1) =~= keys_of(nodes0, order0).skip(1)) by {
                        assert forall|p: int|
                            0 <= p < order1.len() implies nodes1[order1[p] as int].key
                            == nodes0[order0[p + 1] as int].key by {
                            assert(linked_at(nodes0, order0, p + 1));
                        }
                    }
                }
                Some(self.release(last_head))
            },
        }
    }

    /// Takes the element at the back off the list, if there is one.
    pub fn pop_back(&mut self) -> (r: Option<T>)
        requires
            old(self).wf(),
        ensures
            final(self).wf(),
            old(self)@.len() == 0 ==> r is None && final(self)@ == old(self)@,
            old(self)@.len() > 0 ==> r == Some(old(self)@.last()) && final(self)@ == old(self)@
                .drop_last(),
    {
        let ghost order0 = self.order@;
        let ghost nodes0 = self.nodes@;
        match self.tail {
            None => None,
            Some(last_tail) => {
                let ghost end = order0.len() - 1;
                assert(linked_at(nodes0, order0, end));
                // The node before the tail becomes the tail of the list.
                match self.nodes[last_tail].prev {
                    Some(new_tail) => {
                        assert(linked_at(nodes0, order0, end - 1));
                        self.nodes[new_tail].next = None;
                        self.tail = Some(new_tail);
                    },
                    None => {
                        // The tail was the only node.
                        self.head = None;
                        self.tail = None;
                    },
                }
                proof {
                    let order1 = order0.drop_last();
                    self.order@ = order1;
                    let nodes1 = self.nodes@;
                    assert forall|p: int| 0 <= p < order1.len() implies #[trigger] linked_at(
                        nodes1,
                        order1,
                        p,
                    ) by {
                        assert(linked_at(nodes0, order0, p));
                        assert(order0[p] != order0[end - 1] || p == end - 1);
                    }
                    assert forall|p: int, q: int|
                        0 <= p < q < order1.len() implies #[trigger] order1[p]
                        != #[trigger] order1[q] by {
                        assert(order0[p] != order0[q]);
                    }
                    assert forall|s: usize|
                        s < nodes1.len() && s != last_tail implies #[trigger] order1.contains(
                        s,
                    ) by {
                        assert(order0.contains(s));
                        let p = choose|p: int| 0 <= p < order0.len() && order0[p] == s;
                        assert(order1[p] == s);
                    }
                    assert(!order1.contains(last_tail)) by {
                        if order1.contains(last_tail) {
                            let p = choose|p: int| 0 <= p < order1.len() && order1[p] == last_tail;
                            assert(order0[p] != order0[end]);
                        }
                    }
                    assert(keys_of(nodes1, order1) =~= keys_of(nodes0, order0).drop_last()) by {
                        assert forall|p: int|
                            0 <= p < order1.len() implies nodes1[order1[p] as int].key
                            == nodes0[order0[p] as int].key by {
                            assert(linked_at(nodes0, order0, p));
                        }
                    }
                }
                Some(self.release(last_tail))
            },
        }
    }

    /// Takes the node in `slot`, which the chain has let go of, out of the
    /// vector and hands out its key. The node of the last slot moves into
    /// the free slot, and its neighbours are told.
    fn release(&mut self, slot: usize) -> (key: T)
        requires
            slot < old(self).nodes@.len(),
            linked(old(self).nodes@, old(self).head, old(self).tail, old(self).order@),
            old(self).order@.len() + 1 == old(self).nodes@.len(),
            covers(old(self).order@, old(self).nodes@.len(), slot as int),
            !old(self).order@.contains(slot),
        ensures
            final(self).wf(),
            key == old(self).nodes@[slot as int].key,
            final(self)@ == keys_of(old(self).nodes@, old(self).order@),
    {
        let ghost order0 = self.order@;
        let ghost nodes0 = self.nodes@;
        let last: usize = self.nodes.len() - 1;
        let node = self.nodes.swap_remove(slot);
        let ghost nodes1 = self.nodes@;
        let ghost place: int = 0;
        if slot != last {
            proof {
                assert(order0.contains(last));
                place = choose|p: int| 0 <= p < order0.len() && order0[p] == last;
                assert(linked_at(nodes0, order0, place));
                if place > 0 {
                    assert(linked_at(nodes0, order0, place - 1));
                    assert(order0[place - 1] != order0[place]);
                }
                if place < order0.len() - 1 {
                    assert(linked_at(nodes0, order0, place + 1));
                    assert(order0[place] != order0[place + 1]);
                }
            }
            match self.nodes[slot].prev {
                Some(prev) => {
                    self.nodes[prev].next = Some(slot);
                },
                None => {
                    self.head = Some(slot);
                },
            }
            match self.nodes[slot].next {
                Some(next) => {
                    self.nodes[next].prev = Some(slot);
                },
                None => {
                    self.tail = Some(slot);
                },
            }
        }
        proof {
            let order1 = Seq::new(
                order0.len(),
                |p: int|
                    if order0[p] == last {
                        slot
                    } else {
                        order0[p]
                    },
            );
            self.order@ = order1;
            let nodes2 = self.nodes@;
            assert forall|p: int| 0 <= p < order1.len() implies order0[p] != slot by {
                assert(order0.contains(order0[p]));
            }
            assert forall|p: int| 0 <= p < order1.len() && p != place implies order1[p]
                == order0[p] && order0[p] != last by {
                if slot != last {
                    if p < place {
                        assert(order0[p] != order0[place]);
                    } else {
                        assert(order0[place] != order0[p]);
                    }
                }
            }
            assert forall|p: int| 0 <= p < order1.len() implies #[trigger] linked_at(
                nodes2,
                order1,
                p,
            ) by {
                assert(linked_at(nodes0, order0, p));
                if p > 0 {
                    assert(linked_at(nodes0, order0, p - 1));
                    assert(order0[p - 1] != order0[p]);
                }
                if p < order0.len() - 1 {
                    assert(linked_at(nodes0, order0, p + 1));
                    assert(order0[p] != order0[p + 1]);
                }
                if slot != last {
                    if p + 1 < place {
                        assert(order0[p] != order0[place - 1]);
                    }
                    if p > place + 1 {
                        assert(order0[place + 1] != order0[p]);
                    }
                    if p < place && place + 1 < order0.len() {
                        assert(order0[p] != order0[place + 1]);
                    }
                    if p > place && place > 0 {
                        assert(order0[place - 1] != order0[p]);
                    }
                }
            }
            assert forall|p: int, q: int| 0 <= p < q < order1.len() implies #[trigger] order1[p]
                != #[trigger] order1[q] by {
                assert(order0[p] != order0[q]);
            }
            assert forall|s: usize| s < nodes2.len() implies #[trigger] order1.contains(s) by {
                if s == slot {
                    assert(order1[place] == s);
                } else {
                    assert(order0.contains(s));
                    let p = choose|p: int| 0 <= p < order0.len() && order0[p] == s;
                    assert(order1[p] == s);
                }
            }
            assert(keys_of(nodes2, order1) =~= keys_of(nodes0, order0)) by {
                assert forall|p: int| 0 <= p < order1.len() implies nodes2[order1[p] as int].key
                    == nodes0[order0[p] as int].key by {
                    assert(linked_at(nodes0, order0, p));
                }
            }
        }
        node.key
    }

    /// Whether the list has no elements.
    pub fn is_empty(&self) -> (empty: bool)
        requires
            self.wf(),
        ensures
            empty == (self@.len() == 0),
    {
        self.head.is_none()
    }

    /// The element at the front of the list, if there is one.
    pub fn peek_front(&self) -> (r: Option<&T>)
        requires
            self.wf(),
        ensures
            self@.len() == 0 ==> r is None,
            self@.len() > 0 ==> r == Some(&self@[0]),
    {
        match self.head {
            None => None,
            Some(slot) => {
                assert(linked_at(self.nodes@, self.order@, 0));
                Some(&self.nodes[slot].key)
            },
        }
    }
}

impl<T> Default for DoubleLinked<T> {
    fn default() -> (list: Self)
        ensures
            list.wf(),
            list@ == Seq::<T>::empty(),
    {
        Self::new()
    }
}

} // verus!
