//! Listeners: who listens to which entity's events, the order in which an event
//! reaches them and which of them stay subscribed after a delivery; and the
//! listeners of each kind of action, called in the order they were added.
use std::any::TypeId;

use vstd::prelude::*;

use crate::entity::{type_ids_equal, EntityId};

verus! {

/// The id of a subscription, handed out in increasing order.
#[derive(Debug, Clone, Copy, PartialEq, Eq, Structural)]
pub struct SubscriptionId(pub u64);

/// A listener to the events of type `event_ty` that `emitter` emits.
#[derive(Debug)]
pub struct Subscriber<C> {
    pub id: SubscriptionId,
    pub emitter: EntityId,
    pub event_ty: TypeId,
    pub callback: C,
}

/// Whether an event of type `event_ty` from `emitter` is delivered to `s`.
pub open spec fn is_target<C>(s: Subscriber<C>, emitter: EntityId, event_ty: TypeId) -> bool {
    s.emitter == emitter && s.event_ty == event_ty
}

/// The subscriptions an event of type `event_ty` from `emitter` is delivered to, in
/// the order of the subscribers.
pub open spec fn targets<C>(subs: Seq<Subscriber<C>>, emitter: EntityId, event_ty: TypeId) -> Seq<SubscriptionId>
    decreases subs.len(),
{
    if subs.len() == 0 {
        Seq::empty()
    } else {
        let prev = targets(subs.drop_last(), emitter, event_ty);
        if is_target(subs.last(), emitter, event_ty) {
            prev.push(subs.last().id)
        } else {
            prev
        }
    }
}

/// The subscribers that stay after an event of type `event_ty` from `emitter` was
/// delivered and the `k`-th call answered `keep[k]`: every subscriber not called,
/// and each one called whose call answered `true`, in their order.
pub open spec fn kept<C>(subs: Seq<Subscriber<C>>, emitter: EntityId, event_ty: TypeId, keep: Seq<bool>) -> Seq<
    Subscriber<C>,
>
    decreases subs.len(),
{
    if subs.len() == 0 {
        Seq::empty()
    } else {
        let prev = kept(subs.drop_last(), emitter, event_ty, keep);
        if is_target(subs.last(), emitter, event_ty) {
            if keep[targets(subs.drop_last(), emitter, event_ty).len() as int] {
                prev.push(subs.last())
            } else {
                prev
            }
        } else {
            prev.push(subs.last())
        }
    }
}

/// The ids whose answer in `keep` is `true`, in order.
pub open spec fn selected(ids: Seq<SubscriptionId>, keep: Seq<bool>) -> Seq<SubscriptionId>
    decreases ids.len(),
{
    if ids.len() == 0 {
        Seq::empty()
    } else {
        let prev = selected(ids.drop_last(), keep);
        if keep[ids.len() - 1] {
            prev.push(ids.last())
        } else {
            prev
        }
    }
}

pub proof fn lemma_targets_concat<C>(a: Seq<Subscriber<C>>, b: Seq<Subscriber<C>>, emitter: EntityId, event_ty: TypeId)
    ensures
        targets(a + b, emitter, event_ty) == targets(a, emitter, event_ty) + targets(b, emitter, event_ty),
    decreases b.len(),
{
    if b.len() == 0 {
        assert(a + b =~= a);
        assert(targets(a, emitter, event_ty) + Seq::<SubscriptionId>::empty() =~= targets(a, emitter, event_ty));
    } else {
        lemma_targets_concat(a, b.drop_last(), emitter, event_ty);
        assert((a + b).drop_last() =~= a + b.drop_last());
        assert((a + b).last() == b.last());
        let ta = targets(a, emitter, event_ty);
        let tb = targets(b.drop_last(), emitter, event_ty);
        assert((ta + tb).push(b.last().id) =~= ta + tb.push(b.last().id));
    }
}

/// The mathematical value of a `SubscriptionSet`.
pub struct SubscriptionSetView<C> {
    pub subscribers: Seq<Subscriber<C>>,
    pub next_id: u64,
}

/// The subscribers to events, in the order they subscribed, and the id the next
/// subscription gets.
#[derive(Debug)]
pub struct SubscriptionSet<C> {
    subscribers: Vec<Subscriber<C>>,
    next_id: u64,
}

impl<C> View for SubscriptionSet<C> {
    type V = SubscriptionSetView<C>;

    closed spec fn view(&self) -> SubscriptionSetView<C> {
        SubscriptionSetView { subscribers: self.subscribers@, next_id: self.next_id }
    }
}

impl<C> SubscriptionSet<C> {
    /// No subscriber; the first subscription gets id 0.
    pub fn new() -> (r: Self)
        ensures
            r@.subscribers == Seq::<Subscriber<C>>::empty(),
            r@.next_id == 0,
    {
        SubscriptionSet { subscribers: Vec::new(), next_id: 0 }
    }

    /// Subscribes `callback` to the events of type `event_ty` that `emitter` emits;
    /// it is called after every earlier subscriber to them.
    pub fn insert(&mut self, emitter: EntityId, event_ty: TypeId, callback: C) -> (r: SubscriptionId)
        requires
            old(self)@.next_id < u64::MAX,
        ensures
            r == SubscriptionId(old(self)@.next_id),
            final(self)@.next_id == old(self)@.next_id + 1,
            final(self)@.subscribers == old(self)@.subscribers.push(
                Subscriber { id: r, emitter, event_ty, callback },
            ),
    {
        let id = SubscriptionId(self.next_id);
        self.subscribers.push(Subscriber { id, emitter, event_ty, callback });
        self.next_id = self.next_id + 1;
        id
    }

    /// The subscribers, in the order they subscribed.
    pub fn subscribers(&self) -> (r: &Vec<Subscriber<C>>)
        ensures
            r@ == self@.subscribers,
    {
        &self.subscribers
    }

    /// The subscriptions an event of type `event_ty` from `emitter` is delivered
    /// to, in the order their callbacks are called.
    pub fn targets(&self, emitter: EntityId, event_ty: TypeId) -> (r: Vec<SubscriptionId>)
        ensures
            r@ == targets(self@.subscribers, emitter, event_ty),
    {
        let mut r: Vec<SubscriptionId> = Vec::new();
        let mut i: usize = 0;
        while i < self.subscribers.len()
            invariant
                i <= self.subscribers.len(),
                r@ == targets(self.subscribers@.take(i as int), emitter, event_ty),
            decreases self.subscribers.len() - i,
        {
            let s = &self.subscribers[i];
            proof {
                assert(self.subscribers@.take(i + 1).drop_last() =~= self.subscribers@.take(i as int));
                assert(self.subscribers@.take(i + 1).last() == *s);
            }
            if s.emitter == emitter && type_ids_equal(&s.event_ty, &event_ty) {
                r.push(s.id);
            }
            i = i + 1;
        }
        proof {
            assert(self.subscribers@.take(self.subscribers.len() as int) =~= self.subscribers@);
        }
        r
    }

    /// Settles a delivery of an event of type `event_ty` from `emitter`: `keep[k]`
    /// is what the call of the `k`-th target answered; a target that answered
    /// `false` is unsubscribed, every other subscriber stays, in order.
    pub fn retain(&mut self, emitter: EntityId, event_ty: TypeId, keep: &Vec<bool>)
        requires
            keep@.len() == targets(old(self)@.subscribers, emitter, event_ty).len(),
        ensures
            final(self)@.subscribers == kept(old(self)@.subscribers, emitter, event_ty, keep@),
            final(self)@.next_id == old(self)@.next_id,
    {
        let ghost orig = self.subscribers@;
        let n = self.subscribers.len();
        let mut i: usize = 0;
        let mut j: usize = 0;
        let mut k: usize = 0;
        proof {
            assert(orig.take(0) =~= Seq::<Subscriber<C>>::empty());
            assert(orig.skip(0) =~= orig);
            assert(kept(orig.take(0), emitter, event_ty, keep@) + orig.skip(0) =~= orig);
        }
        while j < n
            invariant
                n == orig.len(),
                j <= n,
                keep@.len() == targets(orig, emitter, event_ty).len(),
                self.subscribers@ == kept(orig.take(j as int), emitter, event_ty, keep@) + orig.skip(j as int),
                i == kept(orig.take(j as int), emitter, event_ty, keep@).len(),
                k == targets(orig.take(j as int), emitter, event_ty).len(),
                self.next_id == old(self).next_id,
            decreases n - j,
        {
            let ghost pre = kept(orig.take(j as int), emitter, event_ty, keep@);
            proof {
                assert(orig.take(j + 1).drop_last() =~= orig.take(j as int));
                assert(orig.take(j + 1).last() == orig[j as int]);
                assert(self.subscribers@[i as int] == orig[j as int]);
                lemma_targets_concat(orig.take(j + 1), orig.skip(j + 1), emitter, event_ty);
                assert(orig.take(j + 1) + orig.skip(j + 1) =~= orig);
                assert(orig.skip(j as int).drop_first() =~= orig.skip(j + 1));
            }
            assert(self.subscribers@.len() == i + (n - j));
            assert(i < self.subscribers.len());
            assert(i < usize::MAX);
            let target = self.subscribers[i].emitter == emitter && type_ids_equal(
                &self.subscribers[i].event_ty,
                &event_ty,
            );
            if target {
                proof {
                    assert(targets(orig.take(j + 1), emitter, event_ty).len() == k + 1);
                    assert(targets(orig, emitter, event_ty).len() >= k + 1);
                    assert(k < keep.len());
                    assert(k < usize::MAX);
                }
                if keep[k] {
                    proof {
                        assert(pre.push(orig[j as int]) + orig.skip(j + 1) =~= pre + orig.skip(j as int));
                    }
                    i = i + 1;
                } else {
                    self.subscribers.remove(i);
                    proof {
                        assert(self.subscribers@ =~= pre + orig.skip(j + 1));
                    }
                }
                k = k + 1;
            } else {
                proof {
                    assert(pre.push(orig[j as int]) + orig.skip(j + 1) =~= pre + orig.skip(j as int));
                }
                i = i + 1;
            }
            j = j + 1;
        }
        proof {
            assert(orig.take(n as int) =~= orig);
            assert(orig.skip(n as int) =~= Seq::<Subscriber<C>>::empty());
            assert(self.subscribers@ =~= kept(orig, emitter, event_ty, keep@));
        }
    }
}


/// Delivering an event of type `event_ty` from `emitter` unsubscribes exactly the
/// targets whose call answered `false`: the next such event reaches the targets
/// that answered `true`, in the same order, and every other event reaches the same
/// subscribers as before.
pub proof fn lemma_delivery_keeps_answered_true<C>(
    subs: Seq<Subscriber<C>>,
    emitter: EntityId,
    event_ty: TypeId,
    keep: Seq<bool>,
)
    requires
        targets(subs, emitter, event_ty).len() <= keep.len(),
    ensures
        targets(kept(subs, emitter, event_ty, keep), emitter, event_ty) == selected(
            targets(subs, emitter, event_ty),
            keep,
        ),
        forall|e: EntityId, t: TypeId|
            !(e == emitter && t == event_ty) ==> #[trigger] targets(kept(subs, emitter, event_ty, keep), e, t)
                == targets(subs, e, t),
    decreases subs.len(),
{
    if subs.len() > 0 {
        let p = subs.drop_last();
        let last = subs.last();
        lemma_delivery_keeps_answered_true(p, emitter, event_ty, keep);
        let tp = targets(p, emitter, event_ty);
        let k = kept(p, emitter, event_ty, keep);
        assert(k.push(last).drop_last() =~= k);
        assert(k.push(last).last() == last);
        assert(tp.push(last.id).drop_last() =~= tp);
        if is_target(last, emitter, event_ty) {
            assert(targets(subs, emitter, event_ty) == tp.push(last.id));
            assert(selected(tp.push(last.id), keep) == if keep[tp.len() as int] {
                selected(tp, keep).push(last.id)
            } else {
                selected(tp, keep)
            });
        }
        assert forall|e: EntityId, t: TypeId|
            !(e == emitter && t == event_ty) implies #[trigger] targets(kept(subs, emitter, event_ty, keep), e, t)
                == targets(subs, e, t) by {
            assert(targets(kept(p, emitter, event_ty, keep), e, t) == targets(p, e, t));
            assert(targets(k.push(last), e, t) == if is_target(last, e, t) {
                targets(k, e, t).push(last.id)
            } else {
                targets(k, e, t)
            });
        }
    }
}

/// A new subscriber to an event is called after every earlier one.
pub proof fn lemma_new_subscriber_called_last<C>(
    subs: Seq<Subscriber<C>>,
    s: Subscriber<C>,
    emitter: EntityId,
    event_ty: TypeId,
)
    requires
        is_target(s, emitter, event_ty),
    ensures
        targets(subs.push(s), emitter, event_ty) == targets(subs, emitter, event_ty).push(s.id),
{
    assert(subs.push(s).drop_last() =~= subs);
}

/// The positions of the listeners of actions of type `ty`, in the order they were
/// added.
pub open spec fn positions_of<L>(ls: Seq<(TypeId, L)>, ty: TypeId) -> Seq<int>
    decreases ls.len(),
{
    if ls.len() == 0 {
        Seq::empty()
    } else {
        let prev = positions_of(ls.drop_last(), ty);
        if ls.last().0 == ty {
            prev.push(ls.len() - 1)
        } else {
            prev
        }
    }
}

/// A listener added for actions of type `ty` is called after every listener added
/// before it; listeners of other actions are not touched.
pub proof fn lemma_added_listener_called_last<L>(ls: Seq<(TypeId, L)>, ty: TypeId, l: L)
    ensures
        positions_of(ls.push((ty, l)), ty) == positions_of(ls, ty).push(ls.len() as int),
        forall|t: TypeId| t != ty ==> #[trigger] positions_of(ls.push((ty, l)), t) == positions_of(ls, t),
{
    assert(ls.push((ty, l)).drop_last() =~= ls);
}

/// The listeners of actions, each with the type of action it listens to, in the
/// order they were added.
#[derive(Debug)]
pub struct ActionListeners<L> {
    listeners: Vec<(TypeId, L)>,
}

impl<L> View for ActionListeners<L> {
    type V = Seq<(TypeId, L)>;

    closed spec fn view(&self) -> Seq<(TypeId, L)> {
        self.listeners@
    }
}

impl<L> ActionListeners<L> {
    /// No listener.
    pub fn new() -> (r: Self)
        ensures
            r@ == Seq::<(TypeId, L)>::empty(),
    {
        ActionListeners { listeners: Vec::new() }
    }

    /// Adds a listener to actions of type `ty`.
    pub fn add(&mut self, ty: TypeId, listener: L)
        ensures
            final(self)@ == old(self)@.push((ty, listener)),
    {
        self.listeners.push((ty, listener));
    }

    /// The positions of the listeners that an action of type `ty` is dispatched to,
    /// in the order they are called.
    pub fn dispatch_order(&self, ty: TypeId) -> (r: Vec<usize>)
        ensures
            r@.len() == positions_of(self@, ty).len(),
            forall|i: int| 0 <= i < r@.len() ==> r@[i] as int == #[trigger] positions_of(self@, ty)[i],
    {
        let mut r: Vec<usize> = Vec::new();
        let mut i: usize = 0;
        while i < self.listeners.len()
            invariant
                i <= self.listeners.len(),
                r@.len() == positions_of(self.listeners@.take(i as int), ty).len(),
                forall|j: int|
                    0 <= j < r@.len() ==> r@[j] as int == #[trigger] positions_of(
                        self.listeners@.take(i as int),
                        ty,
                    )[j],
            decreases self.listeners.len() - i,
        {
            proof {
                assert(self.listeners@.take(i + 1).drop_last() =~= self.listeners@.take(i as int));
                assert(self.listeners@.take(i + 1).last() == self.listeners@[i as int]);
            }
            if type_ids_equal(&self.listeners[i].0, &ty) {
                r.push(i);
            }
            i = i + 1;
        }
        proof {
            assert(self.listeners@.take(self.listeners.len() as int) =~= self.listeners@);
        }
        r
    }

    /// The listener at a position.
    pub fn listener(&self, i: usize) -> (r: &L)
        requires
            i < self@.len(),
        ensures
            *r == self@[i as int].1,
    {
        &self.listeners[i].1
    }
}

} // verus!
