//! A stack as a singly linked list of boxed nodes.

use vstd::prelude::*;

verus! {

/// A node of a list: an element and the nodes after it.
pub struct Node<T> {
    key: T,
    next: Option<Box<Node<T>>>,
}

impl<T> Node<T> {
    fn new(key: T, next: Option<Box<Node<T>>>) -> (node: Self)
        ensures
            node.key == key,
            node.next == next,
    {
        Node { key, next }
    }
}

/// The keys of a chain of nodes, the first node's first.
spec fn keys_of<T>(chain: Option<Box<Node<T>>>) -> Seq<T>
    decreases chain,
{
    match chain {
        None => Seq::empty(),
        Some(node) => seq![node.key] + keys_of(node.next),
    }
}

/// The keys of the chain that starts with `node`.
spec fn keys_from<T>(node: Node<T>) -> Seq<T> {
    seq![node.key] + keys_of(node.next)
}

impl<T> View for Node<T> {
    type V = Seq<T>;

    /// The element of the node and those of the nodes after it.
    closed spec fn view(&self) -> Seq<T> {
        keys_from(*self)
    }
}

/// A singly linked list. Its view is the sequence of its elements, the
/// head first: the element that was pushed last.
pub struct SingleLinkedList<T> {
    head: Option<Box<Node<T>>>,
}

impl<T> View for SingleLinkedList<T> {
    type V = Seq<T>;

    closed spec fn view(&self) -> Seq<T> {
        keys_of(self.head)
    }
}

impl<T> SingleLinkedList<T> {
    /// The empty list.
    pub fn new() -> (list: Self)
        ensures
            list@ == Seq::<T>::empty(),
    {
        SingleLinkedList { head: None }
    }

    /// Puts `key` in front of the list.
    pub fn push(&mut self, key: T)
        ensures
            final(self)@ == seq![key] + old(self)@,
    {
        let node = Box::new(Node::new(key, self.head.take()));
        self.head = Some(node);
    }

    /// Takes the first element off the list, if there is one.
    pub fn pop(&mut self) -> (r: Option<T>)
        ensures
            old(self)@.len() == 0 ==> r is None && final(self)@ == old(self)@,
            old(self)@.len() > 0 ==> r == Some(old(self)@[0]) && final(self)@ == old(self)@.skip(1),
    {
        match self.head.take() {
            None => None,
            Some(node) => {
                let node = *node;
                proof {
                    assert((seq![node.key] + keys_of(node.next)).skip(1) =~= keys_of(node.next));
                }
                self.head = node.next;
                Some(node.key)
            },
        }
    }

    /// The first element of the list, if there is one.
    pub fn peek(&self) -> (r: Option<&T>)
        ensures
            self@.len() == 0 ==> r is None,
            self@.len() > 0 ==> r == Some(&self@[0]),
    {
        match &self.head {
            None => None,
            Some(node) => Some(&node.key),
        }
    }

    /// The first element of the list, if there is one, for the caller to
    /// change in place.
    pub fn peek_mut(&mut self) -> (r: Option<&mut T>)
        ensures
            old(self)@.len() == 0 ==> r is None && final(self)@ == old(self)@,
            old(self)@.len() > 0 ==> r is Some && *r.unwrap() == old(self)@[0] && final(self)@
                == old(self)@.update(0, *final(r.unwrap())),
    {
        match &mut self.head {
            None => None,
            Some(node) => {
                proof {
                    assert(keys_from(**node).update(0, final(node).key) =~= seq![
                        final(node).key,
                    ] + keys_of(node.next));
                }
                Some(&mut node.key)
            },
        }
    }

    /// An iterator that takes the elements off the list, the head first.
    pub fn into_iter(self) -> (iter: SingleLinkedListIntoIter<T>)
        ensures
            iter@ == self@,
    {
        SingleLinkedListIntoIter(self)
    }

    /// An iterator through the elements of the list, the head first.
    pub fn iter(&self) -> (iter: SingleLinkedListIter<'_, T>)
        ensures
            iter@ == self@,
    {
        SingleLinkedListIter {
            next: match &self.head {
                None => None,
                Some(node) => Some(&**node),
            },
        }
    }

    /// An iterator through the elements of the list, the head first, that
    /// lets the caller change each in place. When the iterator and the
    /// references it has handed out are given up, the list holds what the
    /// iterator's cursor then leads to.
    pub fn iter_mut(&mut self) -> (iter: SingleLinkedListIterMut<'_, T>)
        ensures
            iter@ == old(self)@,
            iter.cursor() is None <==> iter@.len() == 0,
            final(self)@ == (match iter.cursor() {
                None => Seq::<T>::empty(),
                Some(node) => final(node)@,
            }),
    {
        SingleLinkedListIterMut {
            next: match &mut self.head {
                None => None,
                Some(node) => Some(&mut **node),
            },
        }
    }
}

impl<T> Default for SingleLinkedList<T> {
    fn default() -> (list: Self)
        ensures
            list@ == Seq::<T>::empty(),
    {
        Self::new()
    }
}

impl<T> Drop for SingleLinkedList<T> {
    /// Takes the list apart node by node, so that giving up a long list
    /// does not nest one call per node.
    fn drop(&mut self)
        opens_invariants none
        no_unwind
    {
        let mut list: Option<Box<Node<T>>> = None;
        core::mem::swap(&mut list, &mut self.head);
        loop
            decreases list,
        {
            match list {
                None => {
                    break ;
                },
                Some(mut node) => {
                    list = None;
                    core::mem::swap(&mut list, &mut node.next);
                },
            }
        }
    }
}

/// An iterator that owns a list and takes its elements off one by one.
/// Its view is the sequence of the elements still to come.
pub struct SingleLinkedListIntoIter<T>(SingleLinkedList<T>);

impl<T> View for SingleLinkedListIntoIter<T> {
    type V = Seq<T>;

    closed spec fn view(&self) -> Seq<T> {
        self.0@
    }
}

impl<T> SingleLinkedListIntoIter<T> {
    /// The next element, if there is one.
    pub fn next(&mut self) -> (r: Option<T>)
        ensures
            old(self)@.len() == 0 ==> r is None && final(self)@ == old(self)@,
            old(self)@.len() > 0 ==> r == Some(old(self)@[0]) && final(self)@ == old(self)@.skip(1),
    {
        self.0.pop()
    }
}

/// An iterator through the elements of a list. Its view is the sequence
/// of the elements still to come.
pub struct SingleLinkedListIter<'a, T> {
    next: Option<&'a Node<T>>,
}

impl<'a, T> View for SingleLinkedListIter<'a, T> {
    type V = Seq<T>;

    closed spec fn view(&self) -> Seq<T> {
        match self.next {
            None => Seq::empty(),
            Some(node) => keys_from(*node),
        }
    }
}

impl<'a, T> SingleLinkedListIter<'a, T> {
    /// The next element, if there is one.
    pub fn next(&mut self) -> (r: Option<&'a T>)
        ensures
            old(self)@.len() == 0 ==> r is None && final(self)@ == old(self)@,
            old(self)@.len() > 0 ==> r == Some(&old(self)@[0]) && final(self)@ == old(self)@.skip(
                1,
            ),
    {
        match self.next {
            None => None,
            Some(node) => {
                proof {
                    assert(keys_from(*node).skip(1) =~= keys_of(node.next));
                }
                self.next = match &node.next {
                    None => None,
                    Some(rest) => Some(&**rest),
                };
                Some(&node.key)
            },
        }
    }
}

/// An iterator through the elements of a list that hands each out for
/// change. Its view is the sequence of the elements still to come.
pub struct SingleLinkedListIterMut<'a, T> {
    next: Option<&'a mut Node<T>>,
}

impl<'a, T> View for SingleLinkedListIterMut<'a, T> {
    type V = Seq<T>;

    closed spec fn view(&self) -> Seq<T> {
        match self.next {
            None => Seq::empty(),
            Some(node) => keys_from(*node),
        }
    }
}

impl<'a, T> SingleLinkedListIterMut<'a, T> {
    /// The reference to the nodes still to come that the iterator holds.
    pub closed spec fn cursor(&self) -> Option<&'a mut Node<T>> {
        self.next
    }

    /// The next element, if there is one, for the caller to change in
    /// place. What the elements from here on will be is what the
    /// reference that is handed out leads to, followed by what the rest of
    /// the iteration leaves.
    pub fn next(&mut self) -> (r: Option<&'a mut T>)
        ensures
            old(self)@.len() == 0 ==> r is None && final(self)@ == old(self)@,
            old(self)@.len() > 0 ==> r is Some && *r.unwrap() == old(self)@[0] && final(self)@
                == old(self)@.skip(1),
            final(self).cursor() is None <==> final(self)@.len() == 0,
            match old(self).cursor() {
                None => final(self).cursor() is None,
                Some(node) => final(node)@ == seq![*final(r.unwrap())] + (match final(self)
                    .cursor() {
                    None => Seq::<T>::empty(),
                    Some(rest) => final(rest)@,
                }),
            },
    {
        match self.next.take() {
            None => None,
            Some(node) => {
                proof {
                    assert(keys_from(*node).skip(1) =~= keys_of(node.next));
                }
                self.next = match &mut node.next {
                    None => None,
                    Some(rest) => Some(&mut **rest),
                };
                Some(&mut node.key)
            },
        }
    }
}

} // verus!
