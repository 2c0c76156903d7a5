use algae::ds::{DoubleLinked, Persistent, PersistentLinkedList, SingleLinkedList};
use algae::list::SingleLinked;

#[test]
fn front_push_n_pop() {
    let mut list = DoubleLinked::new();
    assert_eq!(list.pop_front(), None);
    for x in 0..3 {
        list.push_front(x);
    }
    for x in (0..3).rev() {
        assert_eq!(list.pop_front(), Some(x));
    }
    assert_eq!(list.pop_front(), None);
}

#[test]
fn back_push_n_pop() {
    let mut list = DoubleLinked::new();
    assert_eq!(list.pop_back(), None);
    for x in 0..3 {
        list.push_back(x);
    }
    for x in (0..3).rev() {
        assert_eq!(list.pop_back(), Some(x));
    }
    assert_eq!(list.pop_back(), None);
}

#[test]
fn is_empty() {
    let mut list = DoubleLinked::new();
    assert!(list.is_empty());

    list.push_front(3);
    assert!(!list.is_empty());

    // ensure that `is_empty` call didn't mess up with the list
    assert!(!list.is_empty());

    list.pop_front();
    assert!(list.is_empty());
}

#[test]
fn peek_front() {
    let mut list = DoubleLinked::new();

    let check_empty = |node: Option<&i32>| {
        if node.is_some() {
            panic!("Node should be None.");
        }
    };
    check_empty(list.peek_front());

    for x in 0..3 {
        list.push_front(x);
    }
    for x in (0..3).rev() {
        assert_eq!(&*list.peek_front().unwrap(), &x);
        list.pop_front();
    }

    check_empty(list.peek_front());
}

#[test]
fn double_ends_meet() {
    let mut list = DoubleLinked::default();
    list.push_back(2);
    list.push_front(1);
    list.push_back(3);
    assert_eq!(list.peek_front(), Some(&1));
    assert_eq!(list.pop_back(), Some(3));
    assert_eq!(list.pop_front(), Some(1));
    assert_eq!(list.pop_front(), Some(2));
    assert_eq!(list.pop_back(), None);
    assert!(list.is_empty());
}

#[test]
fn double_behaves_as_a_deque() {
    let mut list = DoubleLinked::new();
    let mut model = std::collections::VecDeque::new();
    for (step, x) in algae::sort::rand_vec(4000).into_iter().enumerate() {
        match x.rem_euclid(6) {
            0 | 1 => {
                list.push_front(step);
                model.push_front(step);
            }
            2 | 3 => {
                list.push_back(step);
                model.push_back(step);
            }
            4 => assert_eq!(list.pop_front(), model.pop_front()),
            _ => assert_eq!(list.pop_back(), model.pop_back()),
        }
        assert_eq!(list.peek_front(), model.front());
        assert_eq!(list.is_empty(), model.is_empty());
    }
    while let Some(x) = model.pop_front() {
        assert_eq!(list.pop_front(), Some(x));
    }
    assert_eq!(list.pop_front(), None);
    assert_eq!(list.pop_back(), None);
    assert!(list.is_empty());
}

#[test]
fn double_takes_any_element_type() {
    let mut list = DoubleLinked::new();
    list.push_back(String::from("b"));
    list.push_front(String::from("a"));
    list.push_back(String::from("c"));
    assert_eq!(list.pop_back(), Some(String::from("c")));
    assert_eq!(list.peek_front().map(|s| s.as_str()), Some("a"));
    assert_eq!(list.pop_front(), Some(String::from("a")));
    assert_eq!(list.pop_front(), Some(String::from("b")));
    assert_eq!(list.pop_front(), None);
}

#[test]
fn persistent_basics() {
    let list = Persistent::new();
    // Check head and tail in empty case
    assert_eq!(list.head(), None);
    assert_eq!(list.tail().head(), None);

    let list = list.prepend(0).prepend(1).prepend(2);
    assert_eq!(list.head(), Some(&2));

    // Check tail
    let list = list.tail();
    assert_eq!(list.head(), Some(&1));

    let list = list.tail();
    assert_eq!(list.head(), Some(&0));

    let list = list.tail();
    assert_eq!(list.head(), None);
}

#[test]
fn persistent_iter() {
    let list = Persistent::new().prepend(0).prepend(1).prepend(2);

    let mut iter = list.iter();
    for x in (0..3).rev() {
        assert_eq!(iter.next(), Some(&x));
    }
    assert_eq!(iter.next(), None);
}

#[test]
fn persistent_lists_share_their_tail() {
    let base = Persistent::default().prepend(1).prepend(2);
    let left = base.prepend(10);
    let right = base.prepend(20);
    assert_eq!(left.head(), Some(&10));
    assert_eq!(right.head(), Some(&20));
    assert_eq!(left.tail().head(), Some(&2));
    assert_eq!(right.tail().tail().head(), Some(&1));
    assert_eq!(base.head(), Some(&2));
}

#[test]
fn persistent_long_list_is_given_up() {
    let mut list = Persistent::new();
    for x in 0..200_000 {
        list = list.prepend(x);
    }
    let shared = list.tail();
    assert_eq!(list.head(), Some(&199_999));
    drop(list);
    assert_eq!(shared.head(), Some(&199_998));
}

#[test]
fn persistent_linked_list_long_list_is_given_up() {
    let mut list = PersistentLinkedList::new();
    for x in 0..200_000 {
        list = list.prepend(x);
    }
    let shared = list.tail();
    drop(list);
    assert_eq!(shared.head(), Some(&199_998));
    assert_eq!(shared.tail().head(), Some(&199_997));
}

#[test]
fn persistent_linked_list_basics() {
    let list = PersistentLinkedList::new();
    assert_eq!(list.head(), None);
    assert_eq!(list.tail().head(), None);

    let list = list.prepend(0).prepend(1).prepend(2);
    assert_eq!(list.head(), Some(&2));
    let rest = list.tail();
    assert_eq!(rest.head(), Some(&1));
    assert_eq!(list.head(), Some(&2));
    assert_eq!(rest.tail().head(), Some(&0));
    assert_eq!(rest.tail().tail().head(), None);
}

#[test]
fn persistent_linked_list_iter() {
    let list = PersistentLinkedList::default()
        .prepend(0)
        .prepend(1)
        .prepend(2);
    let mut iter = list.iter();
    for x in (0..3).rev() {
        assert_eq!(iter.next(), Some(&x));
    }
    assert_eq!(iter.next(), None);
    assert_eq!(iter.next(), None);
}

#[test]
fn single_push_n_pop() {
    let mut list = SingleLinked::new();

    // Verify the correctness of pop for the empty case
    assert_eq!(list.pop(), None);

    for x in 0..4 {
        list.push(x);
    }

    for x in (0..4).rev() {
        assert_eq!(list.pop(), Some(x));
    }

    assert_eq!(list.pop(), None);
}

#[test]
fn single_peek() {
    let mut list = SingleLinked::new();
    assert_eq!(list.peek(), None);
    assert_eq!(list.peek_mut(), None);

    list.push(1);
    assert_eq!(list.peek(), Some(&1));

    list.peek_mut().map(|key| {
        *key += 2;
    });
    assert_eq!(list.peek_mut(), Some(&mut 3));
    assert_eq!(list.peek(), Some(&3));
}

#[test]
fn single_into_iter() {
    let mut list = SingleLinked::new();
    for x in 0..3 {
        list.push(x);
    }
    let mut iter = list.into_iter();
    for x in (0..3).rev() {
        assert_eq!(iter.next(), Some(x));
    }
    assert_eq!(iter.next(), None);
}

#[test]
fn single_iter() {
    let mut list = SingleLinked::new();
    for x in 0..3 {
        list.push(x);
    }
    let mut iter = list.iter();
    for x in (0..3).rev() {
        assert_eq!(iter.next(), Some(&x));
    }
    assert_eq!(iter.next(), None);
}

#[test]
fn single_iter_mut() {
    let mut list = SingleLinked::new();
    for x in 0..3 {
        list.push(x);
    }
    let mut iter = list.iter_mut();
    for mut x in (0..3).rev() {
        assert_eq!(iter.next(), Some(&mut x));
    }
    assert_eq!(iter.next(), None);
}

#[test]
fn single_iter_mut_changes_the_list() {
    let mut list = SingleLinked::default();
    for x in 0..3 {
        list.push(x);
    }
    let mut iter = list.iter_mut();
    while let Some(key) = iter.next() {
        *key *= 10;
    }
    assert_eq!(list.pop(), Some(20));
    assert_eq!(list.pop(), Some(10));
    assert_eq!(list.pop(), Some(0));
    assert_eq!(list.pop(), None);
}

#[test]
fn single_long_list_is_given_up() {
    let mut list = SingleLinked::new();
    for x in 0..200_000 {
        list.push(x);
    }
    assert_eq!(list.peek(), Some(&199_999));
}

#[test]
fn single_linked_list_push_n_pop() {
    let mut list = SingleLinkedList::new();
    assert_eq!(list.pop(), None);
    for x in 0..4 {
        list.push(x);
    }
    for x in (0..4).rev() {
        assert_eq!(list.pop(), Some(x));
    }
    assert_eq!(list.pop(), None);
}

#[test]
fn single_linked_list_peek() {
    let mut list = SingleLinkedList::default();
    assert_eq!(list.peek(), None);
    assert_eq!(list.peek_mut(), None);
    list.push(1);
    list.push(5);
    assert_eq!(list.peek(), Some(&5));
    if let Some(key) = list.peek_mut() {
        *key += 2;
    }
    assert_eq!(list.peek(), Some(&7));
    assert_eq!(list.pop(), Some(7));
    assert_eq!(list.peek(), Some(&1));
}

#[test]
fn single_linked_list_iterators() {
    let mut list = SingleLinkedList::new();
    for x in 0..3 {
        list.push(x);
    }
    {
        let mut iter = list.iter();
        for x in (0..3).rev() {
            assert_eq!(iter.next(), Some(&x));
        }
        assert_eq!(iter.next(), None);
    }
    {
        let mut iter = list.iter_mut();
        while let Some(key) = iter.next() {
            *key += 1;
        }
    }
    let mut iter = list.into_iter();
    for x in (1..4).rev() {
        assert_eq!(iter.next(), Some(x));
    }
    assert_eq!(iter.next(), None);
}
