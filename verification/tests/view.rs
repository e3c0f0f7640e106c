use makepad::live_id::LiveId;
use makepad::view::{
    delivers_event, path_hash, AfterApply, AnimState, DrawBegin, DrawEnd, DrawEntry, ApplyFrom, DrawAction, DrawState, EventOrder, FindStart, FindTask,
    InstancePlan, View, ViewAction, ViewHitStates, ViewOptimize, ViewRef, ViewSet, WidgetActionItem,
    WidgetCache, TEXTURE_SLOTS,
};
use makepad::widget::{
    Animate, Area, Cx, FingerDownEvent, FingerHoverEvent, FingerMoveEvent, FingerUpEvent, Hit,
    KeyEvent, LivePtr, MouseCursor, RedrawRequest, Texture, WidgetUid,
};

fn id(n: u64) -> LiveId {
    LiveId(n)
}

fn down(digit: u64) -> FingerDownEvent {
    FingerDownEvent { digit_id: digit, tap_count: 1 }
}

fn up(digit: u64) -> FingerUpEvent {
    FingerUpEvent { digit_id: digit, is_over: true, has_hovers: true }
}

fn item(uid: WidgetUid, action: ViewAction) -> WidgetActionItem {
    WidgetActionItem { widget_uid: uid, action }
}

fn hit_states() -> ViewHitStates {
    ViewHitStates {
        down_on: (id(100), id(101)),
        down_off: (id(100), id(102)),
        hover_on: (id(200), id(201)),
        hover_off: (id(200), id(202)),
    }
}

#[test]
fn optimize_predicates() {
    assert!(!ViewOptimize::Plain.is_texture());
    assert!(!ViewOptimize::Plain.is_draw_list());
    assert!(!ViewOptimize::Plain.needs_draw_list());
    assert!(ViewOptimize::Texture.is_texture());
    assert!(!ViewOptimize::Texture.is_draw_list());
    assert!(ViewOptimize::Texture.needs_draw_list());
    assert!(!ViewOptimize::DrawList.is_texture());
    assert!(ViewOptimize::DrawList.is_draw_list());
    assert!(ViewOptimize::DrawList.needs_draw_list());
}

#[test]
fn new_view_defaults() {
    let v = View::new();
    assert!(v.visible);
    assert_eq!(v.area, Area::Empty);
    assert_eq!(v.child_count(), 0);
    assert!(v.draw_order().is_empty());
    assert_eq!(v.config.optimize, ViewOptimize::Plain);
    assert_eq!(v.config.event_order, EventOrder::Up);
    assert!(v.config.grab_key_focus);
    assert!(!v.config.block_signal_event);
    assert!(!v.config.show_bg);
    assert!(v.config.cursor.is_none());
    for slot in 0..TEXTURE_SLOTS {
        assert!(v.texture(slot).is_none());
    }
    assert!(v.anim_state(id(1)).is_none());
}

#[test]
fn append_child_creates_once_and_counts_draw_order() {
    let mut r = ViewRef::new(View::new());
    let mut cx = Cx::new();
    let ptr = LivePtr { file_id: 1, index: 2, generation: 0 };
    let a = r.append_child(&mut cx, id(5), Some(ptr)).unwrap();
    assert_eq!(a.template, Some(ptr));
    assert_eq!(r.child_count(), 1);
    let again = r.append_child(&mut cx, id(5), None).unwrap();
    assert_eq!(again, a);
    assert_eq!(r.child_count(), 2);
    let b = r.append_child(&mut cx, id(6), None).unwrap();
    assert_ne!(b.uid, a.uid);
    assert_eq!(b.template, None);
    assert_eq!(r.child_count(), 3);
    assert_eq!(r.inner.as_ref().unwrap().draw_order(), vec![id(5), id(5), id(6)]);
    assert!(cx.redraws.is_empty());
    r.clear_children();
    assert_eq!(r.child_count(), 0);
    assert!(r.inner.as_ref().unwrap().child(id(5)).is_none());
}

#[test]
fn empty_handle_is_neutral() {
    let mut r = ViewRef::empty();
    let mut cx = Cx::new();
    assert!(!r.visible());
    assert_eq!(r.area(), Area::Empty);
    assert_eq!(r.child_count(), 0);
    assert!(r.append_child(&mut cx, id(1), None).is_none());
    r.set_visible(true);
    assert!(!r.visible());
    r.set_visible_and_redraw(&mut cx, true);
    assert!(cx.redraws.is_empty());
    r.cut_state(&mut cx, &[id(1), id(2)]);
    assert!(r.inner.is_none());
}

#[test]
fn handle_reads_its_first_action() {
    let r = ViewRef::new(View::new());
    let other = WidgetUid(r.uid.0.wrapping_add(1));
    let actions = vec![
        item(other, ViewAction::FingerDown(down(9))),
        item(r.uid, ViewAction::FingerDown(down(3))),
        item(r.uid, ViewAction::FingerUp(up(3))),
    ];
    assert_eq!(r.finger_down(&actions), Some(down(3)));
    // Only the first action of the widget counts.
    assert_eq!(r.finger_up(&actions), None);
    assert_eq!(r.finger_move(&actions), None);
    assert_eq!(r.key_down(&actions), None);
    assert_eq!(r.key_up(&actions), None);

    let keys = vec![item(r.uid, ViewAction::KeyUp(KeyEvent { key_code: 13, is_repeat: false }))];
    assert_eq!(r.key_up(&keys), Some(KeyEvent { key_code: 13, is_repeat: false }));
    assert_eq!(r.key_down(&keys), None);
    let moves = vec![item(r.uid, ViewAction::FingerMove(FingerMoveEvent { digit_id: 1, is_over: true }))];
    assert_eq!(r.finger_move(&moves), Some(FingerMoveEvent { digit_id: 1, is_over: true }));
    let nothing = vec![item(r.uid, ViewAction::Nothing)];
    assert_eq!(r.finger_down(&nothing), None);
    assert_eq!(r.finger_down(&Vec::new()), None);
}

#[test]
fn animator_cut_play_and_toggle() {
    let mut r = ViewRef::new(View::new());
    let mut cx = Cx::new();
    r.cut_state(&mut cx, &[id(1), id(10)]);
    assert_eq!(
        r.inner.as_ref().unwrap().anim_state(id(1)),
        Some(AnimState { state: id(10), animating: false })
    );
    r.animator_play(&mut cx, &[id(1), id(11)]);
    assert_eq!(
        r.inner.as_ref().unwrap().anim_state(id(1)),
        Some(AnimState { state: id(11), animating: true })
    );
    r.toggle_state(&mut cx, false, Animate::No, &[id(2), id(20)], &[id(2), id(21)]);
    assert_eq!(
        r.inner.as_ref().unwrap().anim_state(id(2)),
        Some(AnimState { state: id(21), animating: false })
    );
    r.toggle_state(&mut cx, true, Animate::Yes, &[id(2), id(20)], &[id(2), id(21)]);
    assert_eq!(
        r.inner.as_ref().unwrap().anim_state(id(2)),
        Some(AnimState { state: id(20), animating: true })
    );
    assert!(cx.redraws.is_empty());
}

#[test]
fn visibility_reads_back_and_redraws_children() {
    let mut r = ViewRef::new(View::new());
    let mut cx = Cx::new();
    let a = r.append_child(&mut cx, id(1), None).unwrap();
    let b = r.append_child(&mut cx, id(2), None).unwrap();
    r.set_visible(false);
    assert!(!r.visible());
    r.set_visible_and_redraw(&mut cx, true);
    assert!(r.visible());
    assert_eq!(
        cx.redraws,
        vec![
            RedrawRequest::Area(Area::Empty),
            RedrawRequest::Widget(a.uid),
            RedrawRequest::Widget(b.uid),
        ]
    );
}

#[test]
fn texture_slot_reads_back() {
    let mut r = ViewRef::new(View::new());
    r.set_texture(2, &Texture { texture_id: 7 });
    let v = r.inner.as_ref().unwrap();
    assert_eq!(v.texture(2), Some(Texture { texture_id: 7 }));
    assert_eq!(v.texture(1), None);
}

#[test]
fn set_operations_reach_every_view() {
    let mut s = ViewSet::new(vec![ViewRef::new(View::new()), ViewRef::empty(), ViewRef::new(View::new())]);
    let mut cx = Cx::new();
    s.set_visible(false);
    assert!(!s.items[0].visible());
    assert!(!s.items[2].visible());
    s.animator_play(&mut cx, &[id(3), id(30)]);
    assert_eq!(
        s.items[2].inner.as_ref().unwrap().anim_state(id(3)),
        Some(AnimState { state: id(30), animating: true })
    );
    s.cut_state(&mut cx, &[id(3), id(31)]);
    assert_eq!(
        s.items[0].inner.as_ref().unwrap().anim_state(id(3)),
        Some(AnimState { state: id(31), animating: false })
    );
    s.toggle_state(&mut cx, true, Animate::No, &[id(4), id(40)], &[id(4), id(41)]);
    assert_eq!(
        s.items[0].inner.as_ref().unwrap().anim_state(id(4)),
        Some(AnimState { state: id(40), animating: false })
    );
    s.set_texture(0, &Texture { texture_id: 3 });
    assert_eq!(s.items[2].inner.as_ref().unwrap().texture(0), Some(Texture { texture_id: 3 }));
    assert!(s.items[1].inner.is_none());
    s.redraw(&mut cx);
    assert_eq!(cx.redraws, vec![RedrawRequest::Area(Area::Empty), RedrawRequest::Area(Area::Empty)]);
}

#[test]
fn set_reports_first_event_of_kind_in_item_order() {
    let s = ViewSet::new(vec![ViewRef::new(View::new()), ViewRef::new(View::new())]);
    let u0 = s.items[0].uid;
    let u1 = s.items[1].uid;
    let actions = vec![
        item(u1, ViewAction::FingerDown(down(2))),
        item(u0, ViewAction::FingerUp(up(1))),
    ];
    assert_eq!(s.finger_down(&actions), Some(down(2)));
    assert_eq!(s.finger_up(&actions), Some(up(1)));
    assert_eq!(s.finger_move(&actions), None);
    let both = vec![
        item(u1, ViewAction::KeyDown(KeyEvent { key_code: 2, is_repeat: false })),
        item(u0, ViewAction::KeyDown(KeyEvent { key_code: 1, is_repeat: false })),
    ];
    // The first view of the set wins, whatever the order of the actions.
    assert_eq!(s.key_down(&both), Some(KeyEvent { key_code: 1, is_repeat: false }));
    assert_eq!(s.key_up(&both), None);
}

#[test]
fn path_hash_is_xor_of_ids() {
    assert_eq!(path_hash(&vec![]), 0);
    assert_eq!(path_hash(&vec![id(0b1100), id(0b1010)]), 0b0110);
    assert_eq!(path_hash(&vec![id(5), id(9), id(17)]), path_hash(&vec![id(17), id(5), id(9)]));
}

#[test]
fn find_start_uses_and_fills_cache() {
    let mut v = View::new();
    let path = vec![id(3), id(5)];
    assert_eq!(v.find_start(&path, WidgetCache::No), FindStart::Search { cache_key: None });
    assert_eq!(v.find_start(&path, WidgetCache::Yes), FindStart::Search { cache_key: Some(6) });
    v.store_found(6, vec![WidgetUid(42)]);
    assert_eq!(v.find_start(&path, WidgetCache::Yes), FindStart::Cached(vec![WidgetUid(42)]));
    assert_eq!(v.find_start(&vec![id(5), id(3)], WidgetCache::Yes), FindStart::Cached(vec![WidgetUid(42)]));
    assert_eq!(v.find_start(&path, WidgetCache::Clear), FindStart::Search { cache_key: Some(6) });
    assert_eq!(v.find_start(&path, WidgetCache::Yes), FindStart::Search { cache_key: Some(6) });
}

#[test]
fn apply_value_instance_plans() {
    let mut v = View::new();
    assert_eq!(v.apply_value_instance(ApplyFrom::Animate, id(1), true), InstancePlan::Skip);
    assert_eq!(
        v.apply_value_instance(ApplyFrom::NewFromDoc { file_id: 0 }, id(1), false),
        InstancePlan::NoMatchingField
    );
    assert_eq!(v.child_count(), 0);
    let plan = v.apply_value_instance(ApplyFrom::NewFromDoc { file_id: 0 }, id(1), true);
    let w = match plan {
        InstancePlan::ApplyToChild(w) => w,
        other => panic!("unexpected plan {:?}", other),
    };
    assert_eq!(v.child_count(), 1);
    assert_eq!(v.child(id(1)), Some(w));
    assert_eq!(v.apply_value_instance(ApplyFrom::ApplyOver, id(1), true), InstancePlan::ApplyToChild(w));
    assert_eq!(v.apply_value_instance(ApplyFrom::New, id(1), true), InstancePlan::Skip);
    assert_eq!(v.apply_value_instance(ApplyFrom::ApplyClear, id(1), true), InstancePlan::Skip);
    assert_eq!(v.child_count(), 1);
}

#[test]
fn update_from_doc_forgets_draw_order_and_cache() {
    let mut v = View::new();
    v.apply_value_instance(ApplyFrom::NewFromDoc { file_id: 0 }, id(1), true);
    v.store_found(1, vec![WidgetUid(1)]);
    v.before_apply(ApplyFrom::ApplyOver);
    assert_eq!(v.child_count(), 1);
    v.before_apply(ApplyFrom::UpdateFromDoc { file_id: 0 });
    assert_eq!(v.child_count(), 0);
    assert_eq!(v.find_start(&vec![id(1)], WidgetCache::Yes), FindStart::Search { cache_key: Some(1) });
    // The children stay; only the order is rebuilt by the update.
    assert!(v.child(id(1)).is_some());
}

#[test]
fn event_targets_follow_event_order() {
    let mut v = View::new();
    for n in [1u64, 2, 3] {
        v.apply_value_instance(ApplyFrom::NewFromDoc { file_id: 0 }, id(n), true);
    }
    assert_eq!(v.event_targets(), vec![id(3), id(2), id(1)]);
    v.config.event_order = EventOrder::Down;
    assert_eq!(v.event_targets(), vec![id(1), id(2), id(3)]);
    v.config.event_order = EventOrder::List(vec![id(2), id(9), id(1)]);
    assert_eq!(v.event_targets(), vec![id(2), id(1)]);
}

#[test]
fn signal_blocking_and_visibility_filter() {
    let mut v = View::new();
    assert!(!v.blocks_event(true));
    v.config.block_signal_event = true;
    assert!(v.blocks_event(true));
    assert!(!v.blocks_event(false));
    assert!(delivers_event(true, true));
    assert!(delivers_event(false, false));
    assert!(!delivers_event(false, true));
}

#[test]
fn hit_on_view_with_cursor() {
    let mut v = View::new();
    v.config.cursor = Some(MouseCursor::Hand);
    v.area = Area::Rect { draw_list_id: 1, rect_id: 2, redraw_id: 3 };
    let mut cx = Cx::new();
    let uid = WidgetUid(77);
    let r = v.handle_hit(&mut cx, Hit::FingerDown(down(1)), uid, &hit_states());
    assert_eq!(r, Some(item(uid, ViewAction::FingerDown(down(1)))));
    assert_eq!(cx.key_focus, v.area);
    let r = v.handle_hit(&mut cx, Hit::FingerHoverIn(FingerHoverEvent { digit_id: 1 }), uid, &hit_states());
    assert_eq!(r, None);
    assert_eq!(cx.cursor, Some(MouseCursor::Hand));
    let r = v.handle_hit(&mut cx, Hit::FingerUp(up(1)), uid, &hit_states());
    assert_eq!(r, Some(item(uid, ViewAction::FingerUp(up(1)))));
    // No animator: no animation track was touched.
    assert!(v.anim_state(id(100)).is_none());
    assert!(cx.redraws.is_empty());
}

#[test]
fn hit_on_view_with_animator_plays_states() {
    let mut v = View::new();
    v.config.has_animator = true;
    v.config.grab_key_focus = false;
    let mut cx = Cx::new();
    let uid = WidgetUid(5);
    v.handle_hit(&mut cx, Hit::FingerDown(down(1)), uid, &hit_states());
    assert_eq!(v.anim_state(id(100)), Some(AnimState { state: id(101), animating: true }));
    assert_eq!(cx.key_focus, Area::Empty);
    v.handle_hit(&mut cx, Hit::FingerHoverOut(FingerHoverEvent { digit_id: 1 }), uid, &hit_states());
    assert_eq!(v.anim_state(id(200)), Some(AnimState { state: id(202), animating: true }));
    assert_eq!(cx.cursor, None);
}

#[test]
fn hit_on_plain_view_is_ignored() {
    let mut v = View::new();
    let mut cx = Cx::new();
    let r = v.handle_hit(&mut cx, Hit::FingerDown(down(1)), WidgetUid(1), &hit_states());
    assert_eq!(r, None);
    assert_eq!(cx.key_focus, Area::Empty);
    let key = KeyEvent { key_code: 1, is_repeat: false };
    v.config.cursor = Some(MouseCursor::Arrow);
    v.visible = false;
    assert_eq!(v.handle_hit(&mut cx, Hit::KeyDown(key), WidgetUid(1), &hit_states()), None);
    v.visible = true;
    assert_eq!(
        v.handle_hit(&mut cx, Hit::KeyDown(key), WidgetUid(1), &hit_states()),
        Some(item(WidgetUid(1), ViewAction::KeyDown(key)))
    );
}

#[test]
fn draw_steps_walk_order_then_deferred() {
    let mut v = View::new();
    for n in [1u64, 2] {
        v.apply_value_instance(ApplyFrom::NewFromDoc { file_id: 0 }, id(n), true);
    }
    let s = v.draw_step(DrawState::Drawing(0, false), true, false, 0);
    assert_eq!(s.action, DrawAction::DrawChild { id: id(1) });
    assert_eq!(s.hold, Some(DrawState::Drawing(0, true)));
    assert_eq!(s.next, Some(DrawState::Drawing(1, false)));
    let s = v.draw_step(DrawState::Drawing(1, false), true, true, 0);
    assert_eq!(s.action, DrawAction::DeferChild { id: id(2) });
    assert_eq!(s.hold, None);
    let s = v.draw_step(DrawState::Drawing(1, true), true, true, 0);
    assert_eq!(s.action, DrawAction::DrawChild { id: id(2) });
    let s = v.draw_step(DrawState::Drawing(1, false), false, false, 0);
    assert_eq!(s.action, DrawAction::Skip);
    let s = v.draw_step(DrawState::Drawing(2, false), true, false, 1);
    assert_eq!(s.action, DrawAction::StartDeferred);
    assert_eq!(s.next, Some(DrawState::DeferWalk(0)));
    let s = v.draw_step(DrawState::DeferWalk(0), true, false, 1);
    assert_eq!(s.action, DrawAction::DrawDeferred { index: 0 });
    assert_eq!(s.hold, Some(DrawState::DeferWalk(0)));
    assert_eq!(s.next, Some(DrawState::DeferWalk(1)));
    let s = v.draw_step(DrawState::DeferWalk(1), true, false, 1);
    assert_eq!(s.action, DrawAction::Finish);
    assert_eq!(s.next, None);
}

#[test]
fn draw_begin_by_visibility_and_cache() {
    let mut v = View::new();
    assert_eq!(v.draw_begin(false), DrawBegin::Begin { into_texture: false, with_bg: false });
    v.visible = false;
    assert_eq!(v.draw_begin(true), DrawBegin::Hidden);
    v.visible = true;
    v.config.optimize = ViewOptimize::Texture;
    v.after_apply(None, false);
    assert_eq!(v.draw_begin(false), DrawBegin::ReuseTexture);
    assert_eq!(v.draw_begin(true), DrawBegin::Begin { into_texture: true, with_bg: false });
    v.config.optimize = ViewOptimize::DrawList;
    v.config.show_bg = true;
    assert_eq!(v.draw_begin(false), DrawBegin::ReuseDrawList);
    assert_eq!(v.draw_begin(true), DrawBegin::Begin { into_texture: false, with_bg: true });
}

#[test]
fn draw_end_closes_what_was_opened() {
    let mut v = View::new();
    assert_eq!(v.draw_end(), DrawEnd { with_bg: false, close_draw_list: false, end_pass: false });
    v.config.optimize = ViewOptimize::Texture;
    v.after_apply(None, false);
    assert_eq!(v.draw_end(), DrawEnd { with_bg: false, close_draw_list: true, end_pass: true });
    v.config.optimize = ViewOptimize::DrawList;
    v.config.show_bg = true;
    assert_eq!(v.draw_end(), DrawEnd { with_bg: true, close_draw_list: true, end_pass: false });
}

#[test]
fn after_apply_makes_missing_parts() {
    let mut v = View::new();
    let ptr = LivePtr { file_id: 0, index: 1, generation: 0 };
    assert_eq!(v.after_apply(None, false), AfterApply { create_draw_list: false, create_scroll_bars: false });
    assert_eq!(v.after_apply(Some(ptr), false), AfterApply { create_draw_list: false, create_scroll_bars: true });
    assert_eq!(v.after_apply(Some(ptr), true), AfterApply { create_draw_list: false, create_scroll_bars: false });
    v.config.optimize = ViewOptimize::DrawList;
    assert_eq!(v.after_apply(None, false), AfterApply { create_draw_list: true, create_scroll_bars: false });
    // The draw list was made by the first call; it is not made again.
    assert_eq!(v.after_apply(None, false), AfterApply { create_draw_list: false, create_scroll_bars: false });
}

#[test]
fn find_tasks_search_named_child_then_all() {
    let mut v = View::new();
    let a = match v.apply_value_instance(ApplyFrom::NewFromDoc { file_id: 0 }, id(1), true) {
        InstancePlan::ApplyToChild(w) => w,
        other => panic!("unexpected plan {:?}", other),
    };
    let b = match v.apply_value_instance(ApplyFrom::NewFromDoc { file_id: 0 }, id(2), true) {
        InstancePlan::ApplyToChild(w) => w,
        other => panic!("unexpected plan {:?}", other),
    };
    assert_eq!(
        v.find_tasks(&vec![id(2)]),
        vec![FindTask::Found(b), FindTask::Search(a, vec![id(2)]), FindTask::Search(b, vec![id(2)])]
    );
    assert_eq!(
        v.find_tasks(&vec![id(1), id(7), id(8)]),
        vec![
            FindTask::Search(a, vec![id(7), id(8)]),
            FindTask::Search(a, vec![id(1), id(7), id(8)]),
            FindTask::Search(b, vec![id(1), id(7), id(8)]),
        ]
    );
    assert_eq!(
        v.find_tasks(&vec![id(9)]),
        vec![FindTask::Search(a, vec![id(9)]), FindTask::Search(b, vec![id(9)])]
    );
}

#[test]
fn draw_entry_resumes_or_starts() {
    let mut v = View::new();
    v.area = Area::Rect { draw_list_id: 0, rect_id: 1, redraw_id: 2 };
    assert_eq!(v.area(), Area::Rect { draw_list_id: 0, rect_id: 1, redraw_id: 2 });
    assert_eq!(
        v.draw_entry(None, true),
        DrawEntry::Start(DrawBegin::Begin { into_texture: false, with_bg: false })
    );
    assert_eq!(v.draw_entry(Some(DrawState::Drawing(3, true)), true), DrawEntry::Resume(DrawState::Drawing(3, true)));
    // A hidden caching view starts as hidden without a draw list.
    v.config.optimize = ViewOptimize::DrawList;
    v.visible = false;
    assert_eq!(v.draw_entry(None, true), DrawEntry::Start(DrawBegin::Hidden));
    assert_eq!(v.draw_begin(false), DrawBegin::Hidden);
}
