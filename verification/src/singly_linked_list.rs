//! A singly linked list: each node owns the node after it, and the list owns
//! the first. Elements enter and leave at the head.

use std::collections::VecDeque;
use vstd::prelude::*;
use crate::model::{popped, pushed, taken, End};

verus! {

/// A link to the rest of a chain: the next node, or nothing at the end.
pub type Node<T> = Option<Box<ListNode<T>>>;

/// One element of the list and the chain that follows it.
#[derive(Debug)]
pub struct ListNode<T> {
    pub value: T,
    pub next: Node<T>,
}

impl<T> ListNode<T> {
    /// A node that holds `value` in front of the chain `next`.
    pub fn new(value: T, next: Node<T>) -> (node: Self)
        ensures
            node.value == value,
            node.next == next,
    {
        ListNode { value, next }
    }
}

/// The values along the chain that starts at `link`, in the order in which
/// the forward links reach them.
pub open spec fn values<T>(link: Node<T>) -> Seq<T>
    decreases link,
{
    match link {
        None => Seq::empty(),
        Some(node) => seq![node.value] + values(node.next),
    }
}

/// A singly linked list. Its view is the sequence of its elements from the
/// head onwards.
#[derive(Debug)]
pub struct SinglyLinkedList<T> {
    head: Node<T>,
    size: usize,
}

impl<T> View for SinglyLinkedList<T> {
    type V = Seq<T>;

    closed spec fn view(&self) -> Seq<T> {
        values(self.head)
    }
}

impl<T> SinglyLinkedList<T> {
    /// The list is consistent: the count is the number of nodes that the
    /// forward links reach from the head.
    pub closed spec fn wf(&self) -> bool {
        self.size == values(self.head).len()
    }

    /// An empty list.
    pub fn new() -> (list: Self)
        ensures
            list.wf(),
            list@ == Seq::<T>::empty(),
    {
        SinglyLinkedList { head: None, size: 0 }
    }

    /// The number of elements.
    pub fn len(&self) -> (n: usize)
        requires
            self.wf(),
        ensures
            n == self@.len(),
    {
        self.size
    }

    /// Whether the list holds no element.
    pub fn is_empty(&self) -> (empty: bool)
        requires
            self.wf(),
        ensures
            empty <==> self@.len() == 0,
    {
        self.size == 0
    }

    /// Puts `value` at the head; the former head becomes the second element.
    pub fn push(&mut self, value: T)
        requires
            old(self).wf(),
            old(self)@.len() < usize::MAX,
        ensures
            final(self).wf(),
            final(self)@ == pushed(old(self)@, End::Front, value),
    {
        let node = ListNode::new(value, self.head.take());
        self.head = Some(Box::new(node));
        self.size = self.size + 1;
    }

    /// Removes the element at the head and returns it, or returns `None` and
    /// leaves the list as it is when there is no element.
    pub fn pop(&mut self) -> (value: Option<T>)
        requires
            old(self).wf(),
        ensures
            final(self).wf(),
            value == taken(old(self)@, End::Front),
            final(self)@ == popped(old(self)@, End::Front),
    {
        match self.head.take() {
            None => None,
            Some(node) => {
                let node = *node;
                self.head = node.next;
                self.size = self.size - 1;
                assert(self@ =~= old(self)@.drop_first());
                Some(node.value)
            },
        }
    }

    /// The element at the head, left in place.
    pub fn get(&self) -> (value: Option<&T>)
        ensures
            referent(value) == taken(self@, End::Front),
    {
        match &self.head {
            None => None,
            Some(node) => Some(&node.value),
        }
    }

    /// A traversal from the head to the end that hands out each element by
    /// shared reference and leaves the list untouched.
    pub fn iter(&self) -> (iter: Iter<'_, T>)
        requires
            self.wf(),
        ensures
            iter@ == self@,
    {
        Iter { head: &self.head, size: self.size }
    }

    /// A traversal from the head to the end that hands out each element by
    /// exclusive reference. The references stand for the elements in order:
    /// each starts at its element's value, and the value it is left with is
    /// the element's value once the traversal is over. The references are
    /// gathered when the traversal is made, so the number of elements is
    /// settled from then on.
    pub fn iter_mut(&mut self) -> (iter: IterMut<'_, T>)
        requires
            old(self).wf(),
        ensures
            iter@.len() == old(self)@.len(),
            forall|i: int| 0 <= i < iter@.len() ==> *(#[trigger] iter@[i]) == old(self)@[i],
            final(self).wf(),
            final(self)@.len() == iter@.len(),
            forall|i: int|
                #![trigger iter@[i]]
                #![trigger final(self)@[i]]
                0 <= i < iter@.len() ==> final(self)@[i] == *final(iter@[i]),
    {
        IterMut { pending: value_refs(&mut self.head) }
    }

    /// Consumes the list and hands out its elements from the head onwards,
    /// one for each call of [`IntoListIterator::next`].
    pub fn into_iter(self) -> (iter: IntoListIterator<T>)
        requires
            self.wf(),
        ensures
            iter.wf(),
            iter@ == self@,
    {
        IntoListIterator { list: self }
    }
}

/// The value that an optional shared reference refers to.
pub open spec fn referent<T>(item: Option<&T>) -> Option<T> {
    match item {
        Some(value) => Some(*value),
        None => None,
    }
}

/// A traversal of a list by shared reference. Its view is the sequence of
/// elements still to come.
pub struct Iter<'a, T> {
    head: &'a Node<T>,
    size: usize,
}

impl<'a, T> View for Iter<'a, T> {
    type V = Seq<T>;

    /// The chain from the current link on, cut off after as many elements as
    /// the traversal has been told to hand out.
    closed spec fn view(&self) -> Seq<T> {
        let rest = values(*self.head);
        if self.size < rest.len() {
            rest.take(self.size as int)
        } else {
            rest
        }
    }
}

impl<'a, T> Iter<'a, T> {
    /// Hands out the next element and moves on; `None` once the end of the
    /// chain is reached or the count is used up.
    pub fn next(&mut self) -> (item: Option<&'a T>)
        ensures
            referent(item) == taken(old(self)@, End::Front),
            final(self)@ == popped(old(self)@, End::Front),
    {
        if self.size > 0 {
            match self.head {
                Some(node) => {
                    self.head = &node.next;
                    self.size = self.size - 1;
                    assert(self@ =~= old(self)@.drop_first());
                    Some(&node.value)
                },
                None => None,
            }
        } else {
            None
        }
    }
}

/// Collects a reference to every value along the chain that starts at
/// `link`, in the chain's order. Whatever is later written through the
/// reference at a position becomes the value at that position of the chain.
fn value_refs<'a, T>(link: &'a mut Node<T>) -> (refs: VecDeque<&'a mut T>)
    ensures
        refs@.len() == values(*old(link)).len(),
        forall|i: int| 0 <= i < refs@.len() ==> *(#[trigger] refs@[i]) == values(*old(link))[i],
        values(*final(link)).len() == refs@.len(),
        forall|i: int|
            0 <= i < refs@.len() ==> values(*final(link))[i] == *final(#[trigger] refs@[i]),
{
    let ghost start = values(*link);
    let ghost end = values(*final(link));
    let mut refs: VecDeque<&'a mut T> = VecDeque::new();
    let mut cursor: &'a mut Node<T> = link;
    loop
        invariant
            refs@.len() <= start.len(),
            refs@.len() <= end.len(),
            forall|i: int|
                0 <= i < refs@.len() ==> *(#[trigger] refs@[i]) == start[i] && *final(refs@[i])
                    == end[i],
            start.skip(refs@.len() as int) == values(*cursor),
            end.skip(refs@.len() as int) == values(*final(cursor)),
        ensures
            refs@.len() == start.len(),
            refs@.len() == end.len(),
            forall|i: int|
                0 <= i < refs@.len() ==> *(#[trigger] refs@[i]) == start[i] && *final(refs@[i])
                    == end[i],
        decreases values(*cursor).len(),
    {
        let ghost taken = refs@.len() as int;
        match cursor {
            None => {
                break;
            },
            Some(node) => {
                let node: &'a mut ListNode<T> = &mut **node;
                let value = &mut node.value;
                let next = &mut node.next;
                proof {
                    assert(start.skip(taken)[0] == *value);
                    assert(end.skip(taken)[0] == *final(value));
                    assert(start.skip(taken + 1) =~= start.skip(taken).drop_first());
                    assert(end.skip(taken + 1) =~= end.skip(taken).drop_first());
                }
                refs.push_back(value);
                cursor = next;
            },
        }
    }
    refs
}

/// A traversal of a list by exclusive reference. It borrows the list for as
/// long as it or any reference it has handed out is in use. Its view is the
/// sequence of references still to come, one to each remaining element.
pub struct IterMut<'a, T> {
    pending: VecDeque<&'a mut T>,
}

impl<'a, T> View for IterMut<'a, T> {
    type V = Seq<&'a mut T>;

    closed spec fn view(&self) -> Seq<&'a mut T> {
        self.pending@
    }
}

impl<'a, T> IterMut<'a, T> {
    /// Hands out the reference to the next element; `None` once all have
    /// been handed out.
    pub fn next(&mut self) -> (item: Option<&'a mut T>)
        ensures
            item == taken(old(self)@, End::Front),
            final(self)@ == popped(old(self)@, End::Front),
    {
        let item = self.pending.pop_front();
        assert(self@ =~= popped(old(self)@, End::Front));
        item
    }
}

/// A list that is being consumed from its head. Its view is the sequence of
/// elements still to come.
pub struct IntoListIterator<T> {
    list: SinglyLinkedList<T>,
}

impl<T> View for IntoListIterator<T> {
    type V = Seq<T>;

    closed spec fn view(&self) -> Seq<T> {
        self.list@
    }
}

impl<T> IntoListIterator<T> {
    /// The list that is being consumed is consistent.
    pub closed spec fn wf(&self) -> bool {
        self.list.wf()
    }

    /// Removes the next element and returns it; `None` once all are gone.
    pub fn next(&mut self) -> (item: Option<T>)
        requires
            old(self).wf(),
        ensures
            final(self).wf(),
            item == taken(old(self)@, End::Front),
            final(self)@ == popped(old(self)@, End::Front),
    {
        self.list.pop()
    }
}

} // verus!
