//! A doubly linked list whose nodes live in an arena.
//!
//! Every node sits in a slot of one backing vector and names its neighbours
//! by their slot numbers. A slot number stays valid for as long as its node is
//! in the list, so the backward link is a plain lookup and owns nothing.
//! Slots that a pop has emptied are remembered and filled again by later
//! pushes.

use vstd::prelude::*;
use vstd::std_specs::convert::FromSpecImpl;
use crate::model::{popped, pushed, taken, End};

verus! {

/// One element of the list and the slots of its two neighbours.
#[derive(Debug)]
pub struct Node<T> {
    pub value: T,
    pub next: Option<usize>,
    pub prev: Option<usize>,
}

impl<T> Node<T> {
    /// A node that holds `value` and is linked to nothing.
    pub fn new(value: T) -> (node: Self)
        ensures
            node.value == value,
            node.next is None,
            node.prev is None,
    {
        Node { value, next: None, prev: None }
    }
}

/// The slots of the arena: an occupied slot holds a node, an empty one waits
/// to be filled again.
type Slots<T> = Vec<Option<Node<T>>>;

/// A doubly linked list. Its view is the sequence of its elements from the
/// head to the tail.
pub struct LinkedList<T> {
    slots: Slots<T>,
    vacant: Vec<usize>,
    head: Option<usize>,
    tail: Option<usize>,
    size: usize,
    order: Ghost<Seq<usize>>,
}

/// The slot that follows position `i` in `order`, if any.
spec fn after(order: Seq<usize>, i: int) -> Option<usize> {
    if i + 1 < order.len() {
        Some(order[i + 1])
    } else {
        None
    }
}

/// The slot that precedes position `i` in `order`, if any.
spec fn before(order: Seq<usize>, i: int) -> Option<usize> {
    if 0 < i {
        Some(order[i - 1])
    } else {
        None
    }
}

/// The node at position `i` of `order` is in its slot and linked to the
/// nodes at the positions on either side of it.
spec fn linked_at<T>(slots: Seq<Option<Node<T>>>, order: Seq<usize>, i: int) -> bool {
    &&& order[i] < slots.len()
    &&& slots[order[i] as int] matches Some(node)
    &&& node.next == after(order, i)
    &&& node.prev == before(order, i)
}

/// The slot named at position `j` of `vacant` exists and is empty.
spec fn vacant_at<T>(slots: Seq<Option<Node<T>>>, vacant: Seq<usize>, j: int) -> bool {
    &&& vacant[j] < slots.len()
    &&& slots[vacant[j] as int] is None
}

/// Every slot that `vacant` names is empty and none is named twice.
spec fn vacancies<T>(slots: Seq<Option<Node<T>>>, vacant: Seq<usize>) -> bool {
    &&& vacant.no_duplicates()
    &&& forall|j: int| 0 <= j < vacant.len() ==> #[trigger] vacant_at(slots, vacant, j)
}

/// The nodes that `order` names form one chain, each linked to the next and
/// back to the one before.
spec fn chained<T>(slots: Seq<Option<Node<T>>>, order: Seq<usize>) -> bool {
    &&& order.no_duplicates()
    &&& forall|i: int| 0 <= i < order.len() ==> #[trigger] linked_at(slots, order, i)
}

/// Puts `node` into an empty slot, the one recorded last if there is any and
/// a new one at the end of the arena otherwise, and returns the slot.
fn occupy<T>(slots: &mut Slots<T>, vacant: &mut Vec<usize>, node: Node<T>) -> (at: usize)
    requires
        vacancies(old(slots)@, old(vacant)@),
    ensures
        match taken(old(vacant)@, End::Back) {
            Some(slot) => {
                &&& at == slot
                &&& at < old(slots)@.len()
                &&& final(vacant)@ == old(vacant)@.drop_last()
                &&& final(slots)@ == old(slots)@.update(at as int, Some(node))
            },
            None => {
                &&& at == old(slots)@.len()
                &&& final(vacant)@ == old(vacant)@
                &&& final(slots)@ == old(slots)@.push(Some(node))
            },
        },
        at < old(slots)@.len() ==> old(slots)@[at as int] is None,
        at < final(slots)@.len(),
        vacancies(final(slots)@, final(vacant)@),
{
    let at: usize = match vacant.pop() {
        Some(at) => {
            assert(vacant_at(old(slots)@, old(vacant)@, old(vacant)@.len() - 1));
            slots[at] = Some(node);
            at
        },
        None => {
            slots.push(Some(node));
            slots.len() - 1
        },
    };
    proof {
        assert forall|j: int| 0 <= j < vacant@.len() implies #[trigger] vacant_at(
            slots@,
            vacant@,
            j,
        ) by {
            assert(vacant_at(old(slots)@, old(vacant)@, j));
        }
    }
    at
}

/// Takes the node out of slot `at` and records the slot as empty.
fn vacate<T>(slots: &mut Slots<T>, vacant: &mut Vec<usize>, at: usize) -> (node: Node<T>)
    requires
        at < old(slots)@.len(),
        old(slots)@[at as int] is Some,
        vacancies(old(slots)@, old(vacant)@),
    ensures
        Some(node) == old(slots)@[at as int],
        final(slots)@ == old(slots)@.update(at as int, None),
        final(vacant)@ == old(vacant)@.push(at),
        vacancies(final(slots)@, final(vacant)@),
{
    let node = slots[at].take().unwrap();
    vacant.push(at);
    proof {
        assert forall|j: int| 0 <= j < old(vacant)@.len() implies old(vacant)@[j] != at by {
            assert(vacant_at(old(slots)@, old(vacant)@, j));
        }
        assert forall|j: int| 0 <= j < vacant@.len() implies #[trigger] vacant_at(
            slots@,
            vacant@,
            j,
        ) by {
            if j < old(vacant)@.len() {
                assert(vacant_at(old(slots)@, old(vacant)@, j));
            }
        }
    }
    node
}

/// Whatever changes in an occupied slot, the empty slots stay as recorded.
proof fn lemma_vacancies_kept<T>(
    slots: Seq<Option<Node<T>>>,
    vacant: Seq<usize>,
    at: int,
    node: Node<T>,
)
    requires
        vacancies(slots, vacant),
        0 <= at < slots.len(),
        slots[at] is Some,
    ensures
        vacancies(slots.update(at, Some(node)), vacant),
{
    assert forall|j: int| 0 <= j < vacant.len() implies #[trigger] vacant_at(
        slots.update(at, Some(node)),
        vacant,
        j,
    ) by {
        assert(vacant_at(slots, vacant, j));
    }
}

/// Makes the node in slot `at` point forward to `next`.
fn set_next<T>(slots: &mut Slots<T>, at: usize, next: Option<usize>)
    requires
        at < old(slots)@.len(),
        old(slots)@[at as int] is Some,
    ensures
        final(slots)@ == old(slots)@.update(
            at as int,
            Some(Node { next, ..old(slots)@[at as int].unwrap() }),
        ),
        forall|vacant: Seq<usize>|
            vacancies(old(slots)@, vacant) ==> #[trigger] vacancies(final(slots)@, vacant),
{
    match &mut slots[at] {
        Some(node) => {
            node.next = next;
        },
        None => {},
    }
    proof {
        let changed = slots@[at as int].unwrap();
        assert forall|vacant: Seq<usize>|
            vacancies(old(slots)@, vacant) implies #[trigger] vacancies(slots@, vacant) by {
            lemma_vacancies_kept(old(slots)@, vacant, at as int, changed);
        }
    }
}

/// Makes the node in slot `at` point back to `prev`.
fn set_prev<T>(slots: &mut Slots<T>, at: usize, prev: Option<usize>)
    requires
        at < old(slots)@.len(),
        old(slots)@[at as int] is Some,
    ensures
        final(slots)@ == old(slots)@.update(
            at as int,
            Some(Node { prev, ..old(slots)@[at as int].unwrap() }),
        ),
        forall|vacant: Seq<usize>|
            vacancies(old(slots)@, vacant) ==> #[trigger] vacancies(final(slots)@, vacant),
{
    match &mut slots[at] {
        Some(node) => {
            node.prev = prev;
        },
        None => {},
    }
    proof {
        let changed = slots@[at as int].unwrap();
        assert forall|vacant: Seq<usize>|
            vacancies(old(slots)@, vacant) implies #[trigger] vacancies(slots@, vacant) by {
            lemma_vacancies_kept(old(slots)@, vacant, at as int, changed);
        }
    }
}

impl<T> View for LinkedList<T> {
    type V = Seq<T>;

    closed spec fn view(&self) -> Seq<T> {
        Seq::new(self.order@.len(), |i: int| self.slots@[self.order@[i] as int].unwrap().value)
    }
}

impl<T> LinkedList<T> {
    /// The list is consistent: its nodes form one chain from the head to the
    /// tail with matching forward and backward links, the count is the number
    /// of nodes in that chain, and every other slot is empty and on record.
    pub closed spec fn wf(&self) -> bool {
        &&& self.size == self.order@.len()
        &&& self.order@.len() + self.vacant@.len() == self.slots@.len()
        &&& chained(self.slots@, self.order@)
        &&& vacancies(self.slots@, self.vacant@)
        &&& self.head == taken(self.order@, End::Front)
        &&& self.tail == taken(self.order@, End::Back)
    }

    /// An empty list.
    pub fn new() -> (list: Self)
        ensures
            list.wf(),
            list@ == Seq::<T>::empty(),
    {
        LinkedList {
            slots: Vec::new(),
            vacant: Vec::new(),
            head: None,
            tail: None,
            size: 0,
            order: Ghost(Seq::empty()),
        }
    }

    /// The number of elements.
    pub fn len(&self) -> (n: usize)
        requires
            self.wf(),
        ensures
            n == self@.len(),
    {
        self.size
    }

    /// Whether the list holds no element.
    pub fn is_empty(&self) -> (empty: bool)
        requires
            self.wf(),
        ensures
            empty <==> self@.len() == 0,
    {
        self.size == 0
    }

    /// Appends `value` after the last element.
    pub fn push_back(&mut self, value: T)
        requires
            old(self).wf(),
        ensures
            final(self).wf(),
            final(self)@ == pushed(old(self)@, End::Back, value),
    {
        let ghost order = self.order@;
        let mut node = Node::new(value);
        node.prev = self.tail;
        let at: usize = occupy(&mut self.slots, &mut self.vacant, node);
        let ghost placed = self.slots@;
        proof {
            assert forall|i: int| 0 <= i < order.len() implies (#[trigger] order[i]) != at
                && linked_at(placed, order, i) by {
                assert(linked_at(old(self).slots@, order, i));
            }
        }
        match self.tail {
            Some(tail) => {
                assert(linked_at(placed, order, order.len() - 1));
                set_next(&mut self.slots, tail, Some(at));
            },
            None => {
                self.head = Some(at);
            },
        }
        self.tail = Some(at);
        assert(self.size < self.slots.len());
        self.size = self.size + 1;
        proof {
            self.order = Ghost(order.push(at));
            assert forall|i: int| 0 <= i < order.len() + 1 implies #[trigger] linked_at(
                self.slots@,
                self.order@,
                i,
            ) by {
                if i < order.len() {
                    assert(linked_at(placed, order, i));
                }
            }
            assert forall|i: int| 0 <= i < order.len() implies self@[i] == old(self)@[i] by {
                assert(linked_at(placed, order, i));
            }
            assert(self@ =~= old(self)@.push(value));
        }
    }

    /// Inserts `value` before the first element.
    pub fn push_front(&mut self, value: T)
        requires
            old(self).wf(),
        ensures
            final(self).wf(),
            final(self)@ == pushed(old(self)@, End::Front, value),
    {
        let ghost order = self.order@;
        let mut node = Node::new(value);
        node.next = self.head;
        let at: usize = occupy(&mut self.slots, &mut self.vacant, node);
        let ghost placed = self.slots@;
        proof {
            assert forall|i: int| 0 <= i < order.len() implies (#[trigger] order[i]) != at
                && linked_at(placed, order, i) by {
                assert(linked_at(old(self).slots@, order, i));
            }
        }
        match self.head {
            Some(head) => {
                assert(linked_at(placed, order, 0));
                set_prev(&mut self.slots, head, Some(at));
            },
            None => {
                self.tail = Some(at);
            },
        }
        self.head = Some(at);
        assert(self.size < self.slots.len());
        self.size = self.size + 1;
        proof {
            self.order = Ghost(seq![at] + order);
            assert forall|i: int| 0 <= i < order.len() + 1 implies #[trigger] linked_at(
                self.slots@,
                self.order@,
                i,
            ) by {
                if 0 < i {
                    assert(linked_at(placed, order, i - 1));
                }
            }
            assert forall|i: int| 0 <= i < order.len() implies self@[i + 1] == old(self)@[i] by {
                assert(linked_at(placed, order, i));
            }
            assert(self@ =~= seq![value] + old(self)@);
        }
    }

    /// Removes the last element and returns it, or returns `None` and leaves
    /// the list as it is when there is no element.
    pub fn pop_back(&mut self) -> (value: Option<T>)
        requires
            old(self).wf(),
        ensures
            final(self).wf(),
            value == taken(old(self)@, End::Back),
            final(self)@ == popped(old(self)@, End::Back),
    {
        match self.tail {
            None => None,
            Some(at) => {
                let ghost order = self.order@;
                let ghost last = order.len() - 1;
                assert(linked_at(self.slots@, order, last));
                let node = vacate(&mut self.slots, &mut self.vacant, at);
                match node.prev {
                    Some(prev) => {
                        assert(linked_at(old(self).slots@, order, last - 1));
                        set_next(&mut self.slots, prev, None);
                        self.tail = Some(prev);
                    },
                    None => {
                        self.head = None;
                        self.tail = None;
                    },
                }
                self.size = self.size - 1;
                proof {
                    self.order = Ghost(order.drop_last());
                    assert forall|i: int| 0 <= i < last implies #[trigger] linked_at(
                        self.slots@,
                        self.order@,
                        i,
                    ) by {
                        assert(linked_at(old(self).slots@, order, i));
                    }
                    assert forall|i: int| 0 <= i < last implies self@[i] == old(self)@[i] by {
                        assert(linked_at(old(self).slots@, order, i));
                    }
                    assert(self@ =~= old(self)@.drop_last());
                }
                Some(node.value)
            },
        }
    }

    /// Removes the first element and returns it, or returns `None` and leaves
    /// the list as it is when there is no element.
    pub fn pop_front(&mut self) -> (value: Option<T>)
        requires
            old(self).wf(),
        ensures
            final(self).wf(),
            value == taken(old(self)@, End::Front),
            final(self)@ == popped(old(self)@, End::Front),
    {
        match self.head {
            None => None,
            Some(at) => {
                let ghost order = self.order@;
                assert(linked_at(self.slots@, order, 0));
                let node = vacate(&mut self.slots, &mut self.vacant, at);
                match node.next {
                    Some(next) => {
                        assert(linked_at(old(self).slots@, order, 1));
                        set_prev(&mut self.slots, next, None);
                        self.head = Some(next);
                    },
                    None => {
                        self.head = None;
                        self.tail = None;
                    },
                }
                self.size = self.size - 1;
                proof {
                    self.order = Ghost(order.drop_first());
                    assert forall|i: int| 0 <= i < order.len() - 1 implies #[trigger] linked_at(
                        self.slots@,
                        self.order@,
                        i,
                    ) by {
                        assert(linked_at(old(self).slots@, order, i + 1));
                    }
                    assert forall|i: int| 0 <= i < order.len() - 1 implies self@[i] == old(
                        self,
                    )@[i + 1] by {
                        assert(linked_at(old(self).slots@, order, i + 1));
                    }
                    assert(self@ =~= old(self)@.drop_first());
                }
                Some(node.value)
            },
        }
    }

    /// Consumes the list and hands out its elements from the head to the
    /// tail, one for each call of [`IntoIter::next`].
    pub fn into_iter(self) -> (iter: IntoIter<T>)
        requires
            self.wf(),
        ensures
            iter.wf(),
            iter@ == self@,
    {
        IntoIter { list: self }
    }
}

impl<T, const N: usize> From<[T; N]> for LinkedList<T> {
    /// The list of the array's elements in the array's order.
    fn from(value: [T; N]) -> (list: Self)
        ensures
            list.wf(),
            list@ == value@,
    {
        let mut list = Self::new();
        let boxed: Box<[T]> = Box::new(value);
        let items = boxed.into_vec();
        for item in it: items
            invariant
                list.wf(),
                it.seq() == value@,
                list@ == value@.take(it.index()),
        {
            list.push_back(item);
        }
        list
    }
}

/// Two lists with the same elements may keep them in different slots, so no
/// one list is the conversion's result in specifications; what `from` returns
/// is stated in its own contract.
impl<T, const N: usize> FromSpecImpl<[T; N]> for LinkedList<T> {
    open spec fn obeys_from_spec() -> bool {
        false
    }

    open spec fn from_spec(value: [T; N]) -> Self {
        choose|list: Self| list.wf() && list@ == value@
    }
}

/// What is left of a list that is being consumed from its head. Its view is
/// the sequence of elements still to come.
pub struct IntoIter<T> {
    list: LinkedList<T>,
}

impl<T> View for IntoIter<T> {
    type V = Seq<T>;

    closed spec fn view(&self) -> Seq<T> {
        self.list@
    }
}

impl<T> IntoIter<T> {
    /// The list that is being consumed is consistent.
    pub closed spec fn wf(&self) -> bool {
        self.list.wf()
    }

    /// Removes the next element and returns it; `None` once all are gone.
    pub fn next(&mut self) -> (item: Option<T>)
        requires
            old(self).wf(),
        ensures
            final(self).wf(),
            item == taken(old(self)@, End::Front),
            final(self)@ == popped(old(self)@, End::Front),
    {
        self.list.pop_front()
    }
}

} // verus!
