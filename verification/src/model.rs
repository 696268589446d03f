//! The vocabulary in which the lists' contracts speak.
//!
//! A list is described by the sequence of its elements, head first. The
//! functions here say what one push or one pop at either end makes of such a
//! sequence, and what a whole run of them does. The proof functions that
//! follow state what holds of every run.

use vstd::prelude::*;

verus! {

/// One of the two ends of a list.
pub enum End {
    Front,
    Back,
}

/// The sequence after `value` has been pushed at `end`.
pub open spec fn pushed<T>(s: Seq<T>, end: End, value: T) -> Seq<T> {
    match end {
        End::Front => seq![value] + s,
        End::Back => s.push(value),
    }
}

/// What a pop at `end` returns: the element at that end, or nothing when
/// there is no element.
pub open spec fn taken<T>(s: Seq<T>, end: End) -> Option<T> {
    if s.len() == 0 {
        None
    } else {
        match end {
            End::Front => Some(s.first()),
            End::Back => Some(s.last()),
        }
    }
}

/// The sequence after a pop at `end`: without the element at that end, or
/// unchanged when there is no element.
pub open spec fn popped<T>(s: Seq<T>, end: End) -> Seq<T> {
    if s.len() == 0 {
        s
    } else {
        match end {
            End::Front => s.drop_first(),
            End::Back => s.drop_last(),
        }
    }
}

/// The sequence after each value of `pushes` has been pushed at the end that
/// stands beside it, the first pair first.
pub open spec fn after_pushes<T>(s: Seq<T>, pushes: Seq<(End, T)>) -> Seq<T>
    decreases pushes.len(),
{
    if pushes.len() == 0 {
        s
    } else {
        after_pushes(pushed(s, pushes[0].0, pushes[0].1), pushes.drop_first())
    }
}

/// The sequence after one pop at each end that `pops` names, the first one
/// first.
pub open spec fn after_pops<T>(s: Seq<T>, pops: Seq<End>) -> Seq<T>
    decreases pops.len(),
{
    if pops.len() == 0 {
        s
    } else {
        after_pops(popped(s, pops[0]), pops.drop_first())
    }
}

/// `values` as pushes that all go to `end`.
pub open spec fn all_at<T>(end: End, values: Seq<T>) -> Seq<(End, T)> {
    Seq::new(values.len(), |i: int| (end, values[i]))
}

/// `count` pops that all go to `end`.
pub open spec fn times(end: End, count: nat) -> Seq<End> {
    Seq::new(count, |i: int| end)
}

/// Each push makes the sequence longer by one, at whichever end it goes in.
pub proof fn lemma_len_after_pushes<T>(s: Seq<T>, pushes: Seq<(End, T)>)
    ensures
        after_pushes(s, pushes).len() == s.len() + pushes.len(),
    decreases pushes.len(),
{
    if pushes.len() > 0 {
        lemma_len_after_pushes(pushed(s, pushes[0].0, pushes[0].1), pushes.drop_first());
    }
}

/// Each pop makes the sequence shorter by one until nothing is left, and
/// leaves an empty sequence empty.
pub proof fn lemma_len_after_pops<T>(s: Seq<T>, pops: Seq<End>)
    ensures
        after_pops(s, pops).len() == if s.len() >= pops.len() {
            s.len() - pops.len()
        } else {
            0
        },
    decreases pops.len(),
{
    if pops.len() > 0 {
        lemma_len_after_pops(popped(s, pops[0]), pops.drop_first());
    }
}

/// Pushes followed by pops on an empty list leave as many elements as there
/// were pushes over and above the pops, and none when the pops are as many
/// or more, whichever end each push and each pop goes to.
pub proof fn law_len_after_pushes_then_pops<T>(pushes: Seq<(End, T)>, pops: Seq<End>)
    ensures
        after_pops(after_pushes(Seq::<T>::empty(), pushes), pops).len() == if pushes.len()
            >= pops.len() {
            pushes.len() - pops.len()
        } else {
            0
        },
{
    lemma_len_after_pushes(Seq::<T>::empty(), pushes);
    lemma_len_after_pops(after_pushes(Seq::<T>::empty(), pushes), pops);
}

/// A pop on an empty list returns nothing, at either end, and any number of
/// pops leave the list empty.
pub proof fn law_pop_on_empty<T>(pops: Seq<End>)
    ensures
        forall|end: End| taken(Seq::<T>::empty(), end) is None,
        after_pops(Seq::<T>::empty(), pops) == Seq::<T>::empty(),
    decreases pops.len(),
{
    if pops.len() > 0 {
        law_pop_on_empty::<T>(pops.drop_first());
    }
}

/// Values pushed at the front one after the other stand in the list in the
/// reverse of the order in which they were pushed.
pub proof fn law_front_pushes_reverse<T>(values: Seq<T>)
    ensures
        after_pushes(Seq::<T>::empty(), all_at(End::Front, values)) == values.reverse(),
{
    lemma_front_pushes_onto(Seq::<T>::empty(), values);
}

/// Values pushed at the back one after the other stand in the list in the
/// order in which they were pushed.
pub proof fn law_back_pushes_keep_order<T>(values: Seq<T>)
    ensures
        after_pushes(Seq::<T>::empty(), all_at(End::Back, values)) == values,
{
    lemma_back_pushes_onto(Seq::<T>::empty(), values);
}

/// Pops at the front hand out the elements in the list's order: after
/// `count` of them the next one returns the element at position `count`, and
/// nothing once every element has been handed out.
pub proof fn law_front_pops_in_order<T>(s: Seq<T>, count: nat)
    ensures
        taken(after_pops(s, times(End::Front, count)), End::Front) == if count < s.len() {
            Some(s[count as int])
        } else {
            None
        },
{
    lemma_front_pops_skip(s, count);
}

/// Pops at the back hand out the elements in the reverse of the list's order:
/// after `count` of them the next one returns the element `count` places
/// before the last, and nothing once every element has been handed out.
pub proof fn law_back_pops_in_reverse<T>(s: Seq<T>, count: nat)
    ensures
        taken(after_pops(s, times(End::Back, count)), End::Back) == if count < s.len() {
            Some(s[s.len() - 1 - count])
        } else {
            None
        },
{
    lemma_back_pops_take(s, count);
}

/// Values pushed at the front of `s` one after the other end up before `s`,
/// the last one first.
proof fn lemma_front_pushes_onto<T>(s: Seq<T>, values: Seq<T>)
    ensures
        after_pushes(s, all_at(End::Front, values)) == values.reverse() + s,
    decreases values.len(),
{
    if values.len() == 0 {
        assert(values.reverse() + s =~= s);
    } else {
        let rest = values.drop_first();
        let grown = pushed(s, End::Front, values[0]);
        assert(all_at(End::Front, values).drop_first() =~= all_at(End::Front, rest));
        lemma_front_pushes_onto(grown, rest);
        assert(rest.reverse() + grown =~= values.reverse() + s);
    }
}

/// Values pushed at the back of `s` one after the other end up after `s`, in
/// their own order.
proof fn lemma_back_pushes_onto<T>(s: Seq<T>, values: Seq<T>)
    ensures
        after_pushes(s, all_at(End::Back, values)) == s + values,
    decreases values.len(),
{
    if values.len() == 0 {
        assert(s + values =~= s);
    } else {
        let rest = values.drop_first();
        let grown = pushed(s, End::Back, values[0]);
        assert(all_at(End::Back, values).drop_first() =~= all_at(End::Back, rest));
        lemma_back_pushes_onto(grown, rest);
        assert(grown + rest =~= s + values);
    }
}

/// `count` pops at the front remove the first `count` elements, or all of
/// them when there are fewer.
proof fn lemma_front_pops_skip<T>(s: Seq<T>, count: nat)
    ensures
        after_pops(s, times(End::Front, count)) == if count < s.len() {
            s.skip(count as int)
        } else {
            Seq::empty()
        },
    decreases count,
{
    if count == 0 {
        assert(s.skip(0) =~= s);
    } else {
        let rest = popped(s, End::Front);
        assert(times(End::Front, count).drop_first() =~= times(End::Front, (count - 1) as nat));
        lemma_front_pops_skip(rest, (count - 1) as nat);
        if count < s.len() {
            assert(rest.skip(count - 1) =~= s.skip(count as int));
        }
    }
}

/// `count` pops at the back remove the last `count` elements, or all of them
/// when there are fewer.
proof fn lemma_back_pops_take<T>(s: Seq<T>, count: nat)
    ensures
        after_pops(s, times(End::Back, count)) == if count < s.len() {
            s.take(s.len() - count)
        } else {
            Seq::empty()
        },
    decreases count,
{
    if count == 0 {
        assert(s.take(s.len() as int) =~= s);
    } else {
        let rest = popped(s, End::Back);
        assert(times(End::Back, count).drop_first() =~= times(End::Back, (count - 1) as nat));
        lemma_back_pops_take(rest, (count - 1) as nat);
        if count < s.len() {
            assert(rest.take(rest.len() - (count - 1)) =~= s.take(s.len() - count));
        }
    }
}

} // verus!
