//! Effects: the notifications and events that updates queue, and when they are
//! delivered.
use std::any::TypeId;
use std::collections::VecDeque;

use vstd::prelude::*;

use crate::entity::EntityId;

verus! {

/// Something to deliver once the current update is over: an entity changed, or an
/// entity emitted an event (of type `event_ty`, held in `event`).
#[derive(Debug)]
pub enum Effect<Ev> {
    Notify { entity_id: EntityId },
    Emit { emitter: EntityId, event_ty: TypeId, event: Ev },
}

/// The mathematical value of `Effects`.
pub struct EffectsView<Ev> {
    /// How many updates are running, nested.
    pub updates: usize,
    /// The entities with a notification waiting.
    pub notified: Set<EntityId>,
    /// The effects waiting, oldest first.
    pub queue: Seq<Effect<Ev>>,
    /// Whether waiting effects are being delivered.
    pub flushing: bool,
}

pub open spec fn is_notify_of<Ev>(e: Effect<Ev>, id: EntityId) -> bool {
    e matches Effect::Notify { entity_id } && entity_id == id
}

/// An entity has a notification waiting exactly when one notification for it is
/// queued.
pub open spec fn notify_consistent<Ev>(notified: Set<EntityId>, queue: Seq<Effect<Ev>>) -> bool {
    &&& forall|id: EntityId|
        notified.contains(id) <==> exists|i: int| 0 <= i < queue.len() && #[trigger] is_notify_of(queue[i], id)
    &&& forall|i: int, j: int, id: EntityId|
        0 <= i < j < queue.len() && #[trigger] is_notify_of(queue[i], id) ==> !#[trigger] is_notify_of(
            queue[j],
            id,
        )
}

pub proof fn lemma_push_to_set<A>(s: Seq<A>, y: A)
    ensures
        s.push(y).to_set() == s.to_set().insert(y),
{
    assert forall|x: A| s.push(y).to_set().contains(x) <==> s.to_set().insert(y).contains(x) by {
        if s.push(y).contains(x) {
            let k = choose|k: int| 0 <= k < s.push(y).len() && s.push(y)[k] == x;
            if k < s.len() {
                assert(s[k] == x);
                assert(s.contains(x));
            }
        }
        if s.contains(x) {
            let k = choose|k: int| 0 <= k < s.len() && s[k] == x;
            assert(s.push(y)[k] == x);
            assert(s.push(y).contains(x));
        }
        if x == y {
            assert(s.push(y)[s.len() as int] == x);
            assert(s.push(y).contains(x));
        }
    }
    assert(s.push(y).to_set() =~= s.to_set().insert(y));
}

impl<Ev> EffectsView<Ev> {
    pub open spec fn wf(self) -> bool {
        notify_consistent(self.notified, self.queue)
    }

    /// After notifying `id`: a notification is queued unless one already waits.
    pub open spec fn notified_of(self, id: EntityId) -> EffectsView<Ev> {
        if self.notified.contains(id) {
            self
        } else {
            EffectsView {
                notified: self.notified.insert(id),
                queue: self.queue.push(Effect::Notify { entity_id: id }),
                ..self
            }
        }
    }

    /// Whether ending an update now starts delivery: it is the outermost update
    /// and no delivery is running.
    pub open spec fn finish_flushes(self) -> bool {
        !self.flushing && self.updates == 1
    }

    /// After an update ends: delivery starts where it is the outermost update and
    /// none is running; otherwise the update is counted off.
    pub open spec fn finished(self) -> EffectsView<Ev> {
        if self.finish_flushes() {
            EffectsView { flushing: true, ..self }
        } else {
            EffectsView { updates: (self.updates - 1) as usize, ..self }
        }
    }

    /// After every waiting effect is taken for delivery.
    pub open spec fn drained(self) -> EffectsView<Ev> {
        EffectsView { notified: Set::empty(), queue: Seq::empty(), ..self }
    }

    /// After delivery ends: the update that started it is counted off.
    pub open spec fn flush_ended(self) -> EffectsView<Ev> {
        EffectsView { flushing: false, updates: (self.updates - 1) as usize, ..self }
    }

    /// After taking the oldest effect: a notification taken no longer waits.
    pub open spec fn taken(self) -> EffectsView<Ev> {
        if self.queue.len() == 0 {
            self
        } else {
            EffectsView {
                notified: match self.queue[0] {
                    Effect::Notify { entity_id } => self.notified.remove(entity_id),
                    _ => self.notified,
                },
                queue: self.queue.drop_first(),
                ..self
            }
        }
    }
}

/// Notifying an entity twice queues what notifying it once does.
pub proof fn lemma_notify_idempotent<Ev>(v: EffectsView<Ev>, id: EntityId)
    ensures
        v.notified_of(id).notified_of(id) == v.notified_of(id),
{
}

/// Once every effect is taken, no entity has a notification waiting.
pub proof fn lemma_drained_nothing_waits<Ev>(v: EffectsView<Ev>)
    requires
        v.wf(),
        v.queue.len() == 0,
    ensures
        v.notified == Set::<EntityId>::empty(),
{
    assert(v.notified =~= Set::<EntityId>::empty());
}

/// The end of the outermost update starts delivery, and once the waiting effects
/// are delivered and delivery ends, nothing waits and no update runs. The end of an
/// update inside another one, or during delivery, delivers nothing: every effect
/// keeps waiting.
pub proof fn lemma_update_end<Ev>(v: EffectsView<Ev>)
    requires
        v.wf(),
        v.updates >= 1,
    ensures
        v.finish_flushes() <==> (v.updates == 1 && !v.flushing),
        v.finish_flushes() ==> v.finished().flushing && v.finished().drained().flush_ended() == (EffectsView {
            updates: 0,
            notified: Set::<EntityId>::empty(),
            queue: Seq::<Effect<Ev>>::empty(),
            flushing: false,
        }),
        !v.finish_flushes() ==> v.finished().queue == v.queue && v.finished().notified == v.notified
            && v.finished().updates == v.updates - 1,
{
}

/// Taking a notification lets the entity be notified anew: the next notify queues
/// one again.
pub proof fn lemma_taken_notification_requeues<Ev>(v: EffectsView<Ev>, id: EntityId)
    requires
        v.wf(),
        v.queue.len() > 0,
        is_notify_of(v.queue[0], id),
    ensures
        v.taken().notified_of(id).queue == v.queue.drop_first().push(Effect::Notify { entity_id: id }),
{
}

/// The effects queued by updates, and the bookkeeping that decides when to deliver
/// them: once, when the outermost update ends.
#[derive(Debug)]
pub struct Effects<Ev> {
    pending_updates: usize,
    pending_notifications: Vec<EntityId>,
    pending_effects: VecDeque<Effect<Ev>>,
    flushing_effects: bool,
}

impl<Ev> View for Effects<Ev> {
    type V = EffectsView<Ev>;

    closed spec fn view(&self) -> EffectsView<Ev> {
        EffectsView {
            updates: self.pending_updates,
            notified: self.pending_notifications@.to_set(),
            queue: self.pending_effects@,
            flushing: self.flushing_effects,
        }
    }
}

impl<Ev> Effects<Ev> {
    pub closed spec fn wf(&self) -> bool {
        self@.wf() && self.pending_notifications@.no_duplicates()
    }

    /// No update running, nothing waiting.
    pub fn new() -> (r: Self)
        ensures
            r.wf(),
            r@.updates == 0,
            r@.notified == Set::<EntityId>::empty(),
            r@.queue == Seq::<Effect<Ev>>::empty(),
            !r@.flushing,
    {
        let r = Effects {
            pending_updates: 0,
            pending_notifications: Vec::new(),
            pending_effects: VecDeque::new(),
            flushing_effects: false,
        };
        proof {
            assert(r.pending_notifications@.to_set() =~= Set::<EntityId>::empty());
        }
        r
    }

    fn contains(&self, id: EntityId) -> (r: bool)
        ensures
            r == self.pending_notifications@.contains(id),
    {
        let mut i: usize = 0;
        while i < self.pending_notifications.len()
            invariant
                i <= self.pending_notifications.len(),
                forall|j: int| 0 <= j < i ==> self.pending_notifications@[j] != id,
            decreases self.pending_notifications.len() - i,
        {
            if self.pending_notifications[i] == id {
                return true;
            }
            i = i + 1;
        }
        false
    }

    /// Records that the entity changed; its notification is queued unless one
    /// already waits.
    pub fn notify(&mut self, entity_id: EntityId)
        requires
            old(self).wf(),
        ensures
            final(self).wf(),
            final(self)@ == old(self)@.notified_of(entity_id),
    {
        if !self.contains(entity_id) {
            let ghost q = self.pending_effects@;
            self.pending_notifications.push(entity_id);
            self.pending_effects.push_back(Effect::Notify { entity_id });
            proof {
                lemma_push_to_set(old(self).pending_notifications@, entity_id);
                assert(self.pending_notifications@.no_duplicates()) by {
                    let a = self.pending_notifications@;
                    assert forall|i: int, j: int| 0 <= i < a.len() && 0 <= j < a.len() && i != j implies a[i] != a[j] by {
                        if i < a.len() - 1 && j < a.len() - 1 {
                            assert(a[i] == old(self).pending_notifications@[i]);
                            assert(a[j] == old(self).pending_notifications@[j]);
                        } else if i == a.len() - 1 {
                            assert(a[j] == old(self).pending_notifications@[j]);
                        } else {
                            assert(a[i] == old(self).pending_notifications@[i]);
                        }
                    }
                }
                let q2 = self.pending_effects@;
                assert(q2 == q.push(Effect::Notify { entity_id }));
                assert(is_notify_of(q2[q.len() as int], entity_id));
                assert forall|id: EntityId| self@.notified.contains(id) <==> exists|i: int|
                    0 <= i < q2.len() && #[trigger] is_notify_of(q2[i], id) by {
                    if exists|i: int| 0 <= i < q2.len() && #[trigger] is_notify_of(q2[i], id) {
                        let i = choose|i: int| 0 <= i < q2.len() && #[trigger] is_notify_of(q2[i], id);
                        if i < q.len() {
                            assert(q2[i] == q[i]);
                        }
                    }
                    if old(self)@.notified.contains(id) {
                        let i = choose|i: int| 0 <= i < q.len() && #[trigger] is_notify_of(q[i], id);
                        assert(q2[i] == q[i]);
                    }
                }
                assert forall|i: int, j: int, id: EntityId|
                    0 <= i < j < q2.len() && #[trigger] is_notify_of(q2[i], id) implies !#[trigger] is_notify_of(
                        q2[j],
                        id,
                    ) by {
                    assert(q2[i] == q[i]);
                    if j < q.len() {
                        assert(q2[j] == q[j]);
                    } else if is_notify_of(q2[j], id) {
                        assert(id == entity_id);
                        assert(old(self)@.notified.contains(id));
                    }
                }
            }
        }
    }

    /// Queues an event that `emitter` emitted.
    pub fn emit(&mut self, emitter: EntityId, event_ty: TypeId, event: Ev)
        requires
            old(self).wf(),
        ensures
            final(self).wf(),
            final(self)@ == (EffectsView {
                queue: old(self)@.queue.push(Effect::Emit { emitter, event_ty, event }),
                ..old(self)@
            }),
    {
        let ghost q = self.pending_effects@;
        let ghost ev = event;
        self.pending_effects.push_back(Effect::Emit { emitter, event_ty, event });
        proof {
            let q2 = self.pending_effects@;
            assert(q2 == q.push(Effect::Emit { emitter, event_ty, event: ev }));
            assert forall|id: EntityId| self@.notified.contains(id) <==> exists|i: int|
                0 <= i < q2.len() && #[trigger] is_notify_of(q2[i], id) by {
                if exists|i: int| 0 <= i < q2.len() && #[trigger] is_notify_of(q2[i], id) {
                    let i = choose|i: int| 0 <= i < q2.len() && #[trigger] is_notify_of(q2[i], id);
                    assert(i < q.len());
                    assert(q2[i] == q[i]);
                }
                if old(self)@.notified.contains(id) {
                    let i = choose|i: int| 0 <= i < q.len() && #[trigger] is_notify_of(q[i], id);
                    assert(q2[i] == q[i]);
                }
            }
            assert forall|i: int, j: int, id: EntityId|
                0 <= i < j < q2.len() && #[trigger] is_notify_of(q2[i], id) implies !#[trigger] is_notify_of(
                    q2[j],
                    id,
                ) by {
                assert(q2[i] == q[i]);
                if j < q.len() {
                    assert(q2[j] == q[j]);
                }
            }
        }
    }

    /// An update begins.
    pub fn begin_update(&mut self)
        requires
            old(self).wf(),
            old(self)@.updates < usize::MAX,
        ensures
            final(self).wf(),
            final(self)@ == (EffectsView { updates: (old(self)@.updates + 1) as usize, ..old(self)@ }),
    {
        self.pending_updates = self.pending_updates + 1;
    }

    /// An update ends. Where it is the outermost one and no delivery is running,
    /// delivery starts and `true` is returned: the caller then takes the effects
    /// with `next_effect` and calls `end_flush`. Otherwise the update is counted off.
    pub fn finish_update(&mut self) -> (flush: bool)
        requires
            old(self).wf(),
            old(self)@.updates >= 1,
        ensures
            final(self).wf(),
            flush == old(self)@.finish_flushes(),
            final(self)@ == old(self)@.finished(),
    {
        if !self.flushing_effects && self.pending_updates == 1 {
            self.flushing_effects = true;
            true
        } else {
            self.pending_updates = self.pending_updates - 1;
            false
        }
    }

    /// Delivery is over: the update that started it is counted off.
    pub fn end_flush(&mut self)
        requires
            old(self).wf(),
            old(self)@.updates >= 1,
        ensures
            final(self).wf(),
            final(self)@ == old(self)@.flush_ended(),
    {
        self.flushing_effects = false;
        self.pending_updates = self.pending_updates - 1;
    }

    /// Takes the oldest waiting effect; a notification taken no longer waits.
    pub fn next_effect(&mut self) -> (r: Option<Effect<Ev>>)
        requires
            old(self).wf(),
        ensures
            final(self).wf(),
            final(self)@ == old(self)@.taken(),
            old(self)@.queue.len() == 0 ==> r is None,
            old(self)@.queue.len() > 0 ==> r == Some(old(self)@.queue[0]),
    {
        let ghost q = self.pending_effects@;
        let r = self.pending_effects.pop_front();
        match &r {
            None => {},
            Some(Effect::Notify { entity_id }) => {
                let id = *entity_id;
                self.remove_notified(id);
            },
            Some(_) => {},
        }
        proof {
            if q.len() > 0 {
                let q2 = self.pending_effects@;
                assert(q2 == q.drop_first());
                assert forall|id: EntityId| self@.notified.contains(id) <==> exists|i: int|
                    0 <= i < q2.len() && #[trigger] is_notify_of(q2[i], id) by {
                    if exists|i: int| 0 <= i < q2.len() && #[trigger] is_notify_of(q2[i], id) {
                        let i = choose|i: int| 0 <= i < q2.len() && #[trigger] is_notify_of(q2[i], id);
                        assert(q2[i] == q[i + 1]);
                        assert(old(self)@.notified.contains(id));
                        if is_notify_of(q[0], id) {
                            assert(!is_notify_of(q[i + 1], id));
                        }
                    }
                    if self@.notified.contains(id) {
                        assert(old(self)@.notified.contains(id));
                        let i = choose|i: int| 0 <= i < q.len() && #[trigger] is_notify_of(q[i], id);
                        assert(i != 0);
                        assert(q2[i - 1] == q[i]);
                    }
                }
                assert forall|i: int, j: int, id: EntityId|
                    0 <= i < j < q2.len() && #[trigger] is_notify_of(q2[i], id) implies !#[trigger] is_notify_of(
                        q2[j],
                        id,
                    ) by {
                    assert(q2[i] == q[i + 1]);
                    assert(q2[j] == q[j + 1]);
                }
            }
        }
        r
    }

    /// Takes every waiting effect for delivery, oldest first; afterwards nothing
    /// waits.
    pub fn flush_effects(&mut self) -> (delivered: Vec<Effect<Ev>>)
        requires
            old(self).wf(),
        ensures
            final(self).wf(),
            delivered@ == old(self)@.queue,
            final(self)@ == old(self)@.drained(),
    {
        let mut delivered: Vec<Effect<Ev>> = Vec::new();
        loop
            invariant
                self.wf(),
                delivered@ + self@.queue == old(self)@.queue,
                self@.updates == old(self)@.updates,
                self@.flushing == old(self)@.flushing,
            decreases self@.queue.len(),
        {
            let ghost before = self@;
            match self.next_effect() {
                Some(e) => {
                    proof {
                        assert(e == before.queue[0]);
                        assert(delivered@.push(e) + self@.queue =~= delivered@ + before.queue);
                    }
                    delivered.push(e);
                },
                None => {
                    proof {
                        assert(before.queue.len() == 0);
                        assert(delivered@ + self@.queue =~= delivered@);
                        lemma_drained_nothing_waits(self@);
                        assert(self@.queue =~= Seq::<Effect<Ev>>::empty());
                    }
                    return delivered;
                },
            }
        }
    }

    fn remove_notified(&mut self, id: EntityId)
        requires
            old(self).pending_notifications@.no_duplicates(),
        ensures
            final(self).pending_notifications@.no_duplicates(),
            final(self).pending_notifications@.to_set() == old(self).pending_notifications@.to_set().remove(id),
            final(self).pending_effects == old(self).pending_effects,
            final(self).pending_updates == old(self).pending_updates,
            final(self).flushing_effects == old(self).flushing_effects,
    {
        let mut i: usize = 0;
        while i < self.pending_notifications.len()
            invariant
                i <= self.pending_notifications.len(),
                old(self).pending_notifications@.no_duplicates(),
                self.pending_notifications == old(self).pending_notifications,
                self.pending_effects == old(self).pending_effects,
                self.pending_updates == old(self).pending_updates,
                self.flushing_effects == old(self).flushing_effects,
                forall|j: int| 0 <= j < i ==> self.pending_notifications@[j] != id,
            decreases self.pending_notifications.len() - i,
        {
            if self.pending_notifications[i] == id {
                let ghost before = self.pending_notifications@;
                self.pending_notifications.remove(i);
                proof {
                    let after = self.pending_notifications@;
                    assert(after == before.remove(i as int));
                    assert(after.no_duplicates()) by {
                        assert forall|a: int, b: int| 0 <= a < after.len() && 0 <= b < after.len() && a != b implies after[a] != after[b] by {
                            let a2 = if a < i { a } else { a + 1 };
                            let b2 = if b < i { b } else { b + 1 };
                            assert(after[a] == before[a2]);
                            assert(after[b] == before[b2]);
                        }
                    }
                    assert(after.to_set() =~= before.to_set().remove(id)) by {
                        assert forall|x: EntityId| after.to_set().contains(x) <==> before.to_set().remove(id).contains(x) by {
                            if after.contains(x) {
                                let k = choose|k: int| 0 <= k < after.len() && after[k] == x;
                                let k2 = if k < i { k } else { k + 1 };
                                assert(before[k2] == x);
                                assert(k2 != i);
                            }
                            if before.contains(x) && x != id {
                                let k = choose|k: int| 0 <= k < before.len() && before[k] == x;
                                assert(k != i);
                                let k2 = if k < i { k } else { k - 1 };
                                assert(after[k2] == x);
                            }
                        }
                    }
                }
                return;
            }
            i = i + 1;
        }
        proof {
            assert(self.pending_notifications@.to_set() =~= old(self).pending_notifications@.to_set().remove(id));
        }
    }
}

} // verus!
