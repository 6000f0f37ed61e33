use std::any::TypeId;

use hat::effect::{Effect, Effects};
use hat::entity::{AnyEntity, AnyWindowHandle, Entity, EntityId, Lease, WindowHandle, WindowId};
use hat::pane::{Direction, Pane, PaneId, PaneNode};
use hat::subscription::{ActionListeners, SubscriptionId, SubscriptionSet};
use hat::window::{clamp_area, drawn_area, Rect, Window, WindowConfig};

#[test]
fn entity_handles() {
    let e = Entity::<u32>::new(EntityId(3));
    assert_eq!(e.id(), EntityId(3));
    let any = e.clone().into_any();
    assert_eq!(any.ty_id, TypeId::of::<u32>());
    assert!(any.downcast::<u32>().is_some());
    assert!(any.downcast::<String>().is_none());
    let a = AnyEntity::new(EntityId(4), TypeId::of::<String>());
    assert_eq!(a.downcast_to::<String>(TypeId::of::<String>()).unwrap().id(), EntityId(4));
    assert!(a.downcast_to::<String>(TypeId::of::<u8>()).is_none());
    let lease: Lease<u8, Box<u8>> = Lease::new(Box::new(7), EntityId(5));
    assert_eq!(*lease.entity, 7);
    assert_eq!(lease.entity_id, EntityId(5));
}

#[test]
fn window_handles() {
    let w = WindowHandle::<u8>::new(WindowId(9));
    let c = w;
    assert_eq!(c.into_any().window_id, WindowId(9));
    let a = AnyWindowHandle::new::<u8>(WindowId(2));
    assert_eq!(a.ty, TypeId::of::<u8>());
}

#[test]
fn effects_notify_once_until_taken() {
    let mut fx: Effects<&'static str> = Effects::new();
    fx.begin_update();
    fx.notify(EntityId(1));
    fx.notify(EntityId(1));
    fx.notify(EntityId(2));
    fx.emit(EntityId(3), TypeId::of::<u8>(), "event");
    assert!(fx.finish_update());
    assert!(matches!(fx.next_effect(), Some(Effect::Notify { entity_id: EntityId(1) })));
    fx.notify(EntityId(1));
    assert!(matches!(fx.next_effect(), Some(Effect::Notify { entity_id: EntityId(2) })));
    assert!(matches!(fx.next_effect(), Some(Effect::Emit { emitter: EntityId(3), event: "event", .. })));
    assert!(matches!(fx.next_effect(), Some(Effect::Notify { entity_id: EntityId(1) })));
    assert!(fx.next_effect().is_none());
    fx.end_flush();
}

#[test]
fn effects_flush_only_at_outermost_update() {
    let mut fx: Effects<u8> = Effects::new();
    fx.begin_update();
    fx.begin_update();
    assert!(!fx.finish_update());
    assert!(fx.finish_update());
    fx.begin_update();
    assert!(!fx.finish_update());
    fx.end_flush();
    fx.begin_update();
    assert!(fx.finish_update());
    fx.end_flush();
}

fn leaf(id: u32, view: &'static str) -> PaneNode<&'static str, f32> {
    PaneNode::Leaf(Pane { id: PaneId(id), view })
}

#[test]
fn pane_find_first_leaf_left_to_right() {
    let tree = PaneNode::Split {
        direction: Direction::Horizontal,
        children: vec![
            PaneNode::Split { direction: Direction::Vertical, children: vec![leaf(1, "info"), leaf(3, "chat")], weights: vec![1.0, 6.0] },
            leaf(2, "input"),
            leaf(3, "second"),
        ],
        weights: vec![5.0, 1.0, 1.0],
    };
    assert_eq!(tree.find(PaneId(3)).unwrap().view, "chat");
    assert_eq!(tree.find(PaneId(2)).unwrap().view, "input");
    assert!(tree.find(PaneId(7)).is_none());
}

#[test]
fn window_pane_ids_and_active_view() {
    let area = Rect { x: 0, y: 0, width: 80, height: 24 };
    let mut w: Window<&'static str, f32> = Window::new(AnyWindowHandle::new::<u8>(WindowId(1)), WindowConfig { area });
    assert_eq!(w.active_pane, Some(PaneId(0)));
    assert!(w.active_view().is_none());
    assert_eq!(w.next_pane_id(), PaneId(1));
    assert_eq!(w.next_pane_id(), PaneId(2));
    w.root = Some(PaneNode::Split { direction: Direction::Vertical, children: vec![leaf(1, "a"), leaf(2, "b")], weights: vec![1.0, 1.0] });
    w.active_pane = Some(PaneId(2));
    assert_eq!(w.active_view(), Some(&"b"));
    assert_eq!(w.area, area);
}

#[test]
fn window_gets_a_root_pane_once() {
    let area = Rect { x: 1, y: 2, width: 3, height: 4 };
    let mut w: Window<&'static str, f32> = Window::new(AnyWindowHandle::new::<u8>(WindowId(1)), WindowConfig { area });
    w.ensure_root("root");
    assert_eq!(w.active_pane, Some(PaneId(1)));
    assert_eq!(w.active_view(), Some(&"root"));
    w.ensure_root("other");
    assert_eq!(w.active_view(), Some(&"root"));
    assert_eq!(w.next_pane_id(), PaneId(2));
}

#[test]
fn effects_outermost_update_delivers_everything() {
    let mut fx: Effects<&'static str> = Effects::new();
    fx.begin_update();
    fx.notify(EntityId(7));
    fx.begin_update();
    fx.emit(EntityId(8), TypeId::of::<u8>(), "inner");
    fx.notify(EntityId(7));
    assert!(!fx.finish_update());
    assert!(fx.finish_update());
    let delivered = fx.flush_effects();
    assert_eq!(delivered.len(), 2);
    assert!(matches!(delivered[0], Effect::Notify { entity_id: EntityId(7) }));
    assert!(matches!(delivered[1], Effect::Emit { emitter: EntityId(8), event: "inner", .. }));
    assert!(fx.next_effect().is_none());
    fx.end_flush();
    // Nothing waits any more: a new notification is queued again.
    fx.begin_update();
    fx.notify(EntityId(7));
    assert!(fx.finish_update());
    assert_eq!(fx.flush_effects().len(), 1);
    fx.end_flush();
}

#[test]
fn panes_are_clamped_to_the_window() {
    let window = Rect { x: 0, y: 0, width: 80, height: 24 };
    let inside = Rect { x: 10, y: 2, width: 20, height: 5 };
    assert_eq!(clamp_area(inside, window), inside);
    let overhanging = Rect { x: 70, y: 20, width: 20, height: 10 };
    assert_eq!(clamp_area(overhanging, window), Rect { x: 70, y: 20, width: 10, height: 4 });
    let outside = Rect { x: 90, y: 0, width: 5, height: 5 };
    assert_eq!(clamp_area(outside, window), Rect { x: 90, y: 0, width: 0, height: 5 });
    assert_eq!(drawn_area(outside, window), None);
    assert_eq!(drawn_area(overhanging, window), Some(Rect { x: 70, y: 20, width: 10, height: 4 }));
    let flat = Rect { x: 1, y: 1, width: 5, height: 0 };
    assert_eq!(drawn_area(flat, window), None);
    let far = Rect { x: 65530, y: 0, width: 100, height: 1 };
    let wide = Rect { x: 65000, y: 0, width: 1000, height: 1 };
    assert_eq!(clamp_area(far, wide), Rect { x: 65530, y: 0, width: 5, height: 1 });
}

#[test]
fn subscribers_called_in_order_and_kept_when_answering_true() {
    let mut set: SubscriptionSet<&'static str> = SubscriptionSet::new();
    let a = set.insert(EntityId(1), TypeId::of::<u8>(), "a");
    let b = set.insert(EntityId(1), TypeId::of::<u16>(), "b");
    let c = set.insert(EntityId(2), TypeId::of::<u8>(), "c");
    let d = set.insert(EntityId(1), TypeId::of::<u8>(), "d");
    assert_eq!((a, b, c, d), (SubscriptionId(0), SubscriptionId(1), SubscriptionId(2), SubscriptionId(3)));
    assert_eq!(set.targets(EntityId(1), TypeId::of::<u8>()), vec![a, d]);
    set.retain(EntityId(1), TypeId::of::<u8>(), &vec![false, true]);
    assert_eq!(set.targets(EntityId(1), TypeId::of::<u8>()), vec![d]);
    assert_eq!(set.targets(EntityId(1), TypeId::of::<u16>()), vec![b]);
    assert_eq!(set.targets(EntityId(2), TypeId::of::<u8>()), vec![c]);
    let names: Vec<&str> = set.subscribers().iter().map(|s| s.callback).collect();
    assert_eq!(names, vec!["b", "c", "d"]);
    let e = set.insert(EntityId(1), TypeId::of::<u8>(), "e");
    assert_eq!(e, SubscriptionId(4));
    assert_eq!(set.targets(EntityId(1), TypeId::of::<u8>()), vec![d, e]);
}

#[test]
fn action_listeners_called_in_order_added() {
    let mut ls: ActionListeners<&'static str> = ActionListeners::new();
    ls.add(TypeId::of::<u8>(), "first");
    ls.add(TypeId::of::<u16>(), "other");
    ls.add(TypeId::of::<u8>(), "second");
    let order = ls.dispatch_order(TypeId::of::<u8>());
    assert_eq!(order, vec![0, 2]);
    let called: Vec<&str> = order.iter().map(|&i| *ls.listener(i)).collect();
    assert_eq!(called, vec!["first", "second"]);
    assert!(ls.dispatch_order(TypeId::of::<u32>()).is_empty());
}
