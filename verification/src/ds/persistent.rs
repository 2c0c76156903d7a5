//! A persistent singly linked list that threads can share: lists share
//! their tails through atomically reference-counted pointers, and no
//! operation changes a list that exists.

use std::sync::Arc;
use vstd::prelude::*;

verus! {

/// `Arc::clone` makes another pointer to the same allocation: the clone
/// points at the value that `pointer` points at.
#[verifier::external_body]
fn share<T>(pointer: &Arc<T>) -> (other: Arc<T>)
    ensures
        other == *pointer,
{
    Arc::clone(pointer)
}

/// `Arc::try_unwrap` hands out the value where `pointer` is the only
/// pointer to it, and hands the pointer back where it is not. It does not
/// panic.
#[verifier::external_body]
fn take_unique<T>(pointer: Arc<T>) -> (r: Result<T, Arc<T>>)
    ensures
        match r {
            Ok(value) => value == *pointer,
            Err(shared) => shared == pointer,
        },
    opens_invariants none
    no_unwind
{
    Arc::try_unwrap(pointer)
}

struct PersistentNode<T> {
    key: T,
    next: Option<Arc<PersistentNode<T>>>,
}

impl<T> PersistentNode<T> {
    fn new(key: T, next: Option<Arc<PersistentNode<T>>>) -> (node: Self)
        ensures
            node.key == key,
            node.next == next,
    {
        Self { key, next }
    }
}

/// The keys of a chain of nodes, the first node's first.
spec fn keys_of<T>(chain: Option<Arc<PersistentNode<T>>>) -> Seq<T>
    decreases chain,
{
    match chain {
        None => Seq::empty(),
        Some(node) => seq![node.key] + keys_of(node.next),
    }
}

/// The keys of the chain that starts with `node`.
spec fn keys_from<T>(node: PersistentNode<T>) -> Seq<T> {
    seq![node.key] + keys_of(node.next)
}

/// A persistent list. Its view is the sequence of its elements, the head
/// first: the element that was prepended last.
pub struct Persistent<T> {
    head: Option<Arc<PersistentNode<T>>>,
}

impl<T> View for Persistent<T> {
    type V = Seq<T>;

    closed spec fn view(&self) -> Seq<T> {
        keys_of(self.head)
    }
}

impl<T> Persistent<T> {
    /// The empty list.
    pub fn new() -> (list: Self)
        ensures
            list@ == Seq::<T>::empty(),
    {
        Self { head: None }
    }

    /// The list with `key` in front of the elements of this one.
    pub fn prepend(&self, key: T) -> (list: Self)
        ensures
            list@ == seq![key] + self@,
    {
        let rest = match &self.head {
            None => None,
            Some(node) => Some(share(node)),
        };
        Self { head: Some(Arc::new(PersistentNode::new(key, rest))) }
    }

    /// The list without its first element; the empty list where there is
    /// none.
    pub fn tail(&self) -> (list: Self)
        ensures
            self@.len() == 0 ==> list@ == Seq::<T>::empty(),
            self@.len() > 0 ==> list@ == self@.skip(1),
    {
        match &self.head {
            None => Self { head: None },
            Some(node) => {
                proof {
                    assert(keys_from(**node).skip(1) =~= keys_of(node.next));
                }
                Self {
                    head: match &node.next {
                        None => None,
                        Some(rest) => Some(share(rest)),
                    },
                }
            },
        }
    }

    /// The first element of the list, if there is one.
    pub fn head(&self) -> (r: Option<&T>)
        ensures
            self@.len() == 0 ==> r is None,
            self@.len() > 0 ==> r == Some(&self@[0]),
    {
        match &self.head {
            None => None,
            Some(node) => Some(&node.key),
        }
    }

    /// An iterator through the elements of the list, the head first.
    pub fn iter(&self) -> (iter: PersistentIter<'_, T>)
        ensures
            iter@ == self@,
    {
        PersistentIter {
            next: match &self.head {
                None => None,
                Some(node) => Some(&**node),
            },
        }
    }
}

impl<T> Default for Persistent<T> {
    fn default() -> (list: Self)
        ensures
            list@ == Seq::<T>::empty(),
    {
        Self::new()
    }
}

impl<T> Drop for Persistent<T> {
    /// Takes apart, node by node, the front of the list that no other
    /// list shares, so that giving up a long list does not nest one call
    /// per node.
    fn drop(&mut self)
        opens_invariants none
        no_unwind
    {
        let mut head: Option<Arc<PersistentNode<T>>> = None;
        core::mem::swap(&mut head, &mut self.head);
        loop
            decreases head,
        {
            match head {
                None => {
                    break ;
                },
                Some(pointer) => {
                    match take_unique(pointer) {
                        Ok(mut node) => {
                            head = None;
                            core::mem::swap(&mut head, &mut node.next);
                        },
                        Err(_) => {
                            break ;
                        },
                    }
                },
            }
        }
    }
}

/// An iterator through the elements of a persistent list. Its view is the
/// sequence of the elements still to come.
pub struct PersistentIter<'a, T> {
    next: Option<&'a PersistentNode<T>>,
}

impl<'a, T> View for PersistentIter<'a, T> {
    type V = Seq<T>;

    closed spec fn view(&self) -> Seq<T> {
        match self.next {
            None => Seq::empty(),
            Some(node) => keys_from(*node),
        }
    }
}

impl<'a, T> PersistentIter<'a, T> {
    /// The next element, if there is one.
    pub fn next(&mut self) -> (r: Option<&'a T>)
        ensures
            old(self)@.len() == 0 ==> r is None && final(self)@ == old(self)@,
            old(self)@.len() > 0 ==> r == Some(&old(self)@[0]) && final(self)@ == old(self)@.skip(
                1,
            ),
    {
        match self.next {
            None => None,
            Some(node) => {
                proof {
                    assert(keys_from(*node).skip(1) =~= keys_of(node.next));
                }
                self.next = match &node.next {
                    None => None,
                    Some(rest) => Some(&**rest),
                };
                Some(&node.key)
            },
        }
    }
}

} // verus!
