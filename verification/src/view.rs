//! A view: a container widget that draws its children in order.  This module
//! holds the view's state and the operations on view handles and sets.
use vstd::prelude::*;
use std::collections::HashMap;
use vstd::view::View as _;
use crate::live_id::LiveId;
use crate::widget::{
    Animate, Area, Cx, FingerDownEvent, FingerMoveEvent, FingerUpEvent, Hit, KeyEvent, LivePtr,
    MouseCursor, RedrawRequest, Texture, WidgetRef, WidgetUid,
};

verus! {

broadcast use vstd::std_specs::hash::group_hash_axioms;

/// How a view caches what it draws.
#[derive(Clone, Copy, Debug, PartialEq, Eq, Structural)]
pub enum ViewOptimize {
    Plain,
    DrawList,
    Texture,
}

impl ViewOptimize {
    /// The view draws into a texture of its own.
    pub fn is_texture(&self) -> (r: bool)
        ensures
            r == (*self == ViewOptimize::Texture),
    {
        if let ViewOptimize::Texture = self {
            true
        } else {
            false
        }
    }

    /// The view keeps a draw list of its own.
    pub fn is_draw_list(&self) -> (r: bool)
        ensures
            r == (*self == ViewOptimize::DrawList),
    {
        if let ViewOptimize::DrawList = self {
            true
        } else {
            false
        }
    }

    /// The view needs a draw list: it caches in a texture or a draw list.
    pub fn needs_draw_list(&self) -> (r: bool)
        ensures
            r == (*self == ViewOptimize::Texture || *self == ViewOptimize::DrawList),
    {
        self.is_texture() || self.is_draw_list()
    }
}

/// The order in which a view hands events to its children: from the first
/// drawn (`Down`), from the last drawn (`Up`), or in a given order of ids.
#[derive(Clone, Debug, PartialEq, Eq)]
pub enum EventOrder {
    Down,
    Up,
    List(Vec<LiveId>),
}

/// What a view reports to its owner.
#[derive(Clone, Copy, Debug, PartialEq, Eq, Structural)]
pub enum ViewAction {
    Nothing,
    FingerDown(FingerDownEvent),
    FingerUp(FingerUpEvent),
    FingerMove(FingerMoveEvent),
    KeyDown(KeyEvent),
    KeyUp(KeyEvent),
}

/// An action and the widget that reported it.  Actions of widgets of other
/// kinds read as `ViewAction::Nothing`.
#[derive(Clone, Copy, Debug, PartialEq, Eq, Structural)]
pub struct WidgetActionItem {
    pub widget_uid: WidgetUid,
    pub action: ViewAction,
}

/// The action of the first item reported by `uid`, if there is one.
pub open spec fn action_for(actions: Seq<WidgetActionItem>, uid: WidgetUid) -> Option<ViewAction>
    decreases actions.len(),
{
    if actions.len() == 0 {
        None
    } else if actions[0].widget_uid == uid {
        Some(actions[0].action)
    } else {
        action_for(actions.drop_first(), uid)
    }
}

/// The first item reported by `uid`, if there is one.
pub fn find_single_action(actions: &Vec<WidgetActionItem>, uid: WidgetUid) -> (r: Option<WidgetActionItem>)
    ensures
        r is None <==> action_for(actions@, uid) is None,
        r matches Some(item) ==> item.widget_uid == uid && action_for(actions@, uid) == Some(item.action),
{
    let mut i: usize = 0;
    assert(actions@.subrange(0, actions@.len() as int) =~= actions@);
    while i < actions.len()
        invariant
            i <= actions@.len(),
            action_for(actions@, uid) == action_for(actions@.subrange(i as int, actions@.len() as int), uid),
        decreases actions@.len() - i,
    {
        let ghost rest = actions@.subrange(i as int, actions@.len() as int);
        assert(rest.drop_first() =~= actions@.subrange(i + 1, actions@.len() as int));
        if actions[i].widget_uid == uid {
            return Some(actions[i]);
        }
        i = i + 1;
    }
    assert(actions@.subrange(i as int, actions@.len() as int) =~= Seq::<WidgetActionItem>::empty());
    None
}

/// The kinds of view action that carry an event.
#[derive(Clone, Copy, Debug, PartialEq, Eq, Structural)]
pub enum ViewActionKind {
    FingerDown,
    FingerUp,
    FingerMove,
    KeyDown,
    KeyUp,
}

/// The kind of an action, if it carries an event.
pub open spec fn action_kind(a: ViewAction) -> Option<ViewActionKind> {
    match a {
        ViewAction::Nothing => None,
        ViewAction::FingerDown(_) => Some(ViewActionKind::FingerDown),
        ViewAction::FingerUp(_) => Some(ViewActionKind::FingerUp),
        ViewAction::FingerMove(_) => Some(ViewActionKind::FingerMove),
        ViewAction::KeyDown(_) => Some(ViewActionKind::KeyDown),
        ViewAction::KeyUp(_) => Some(ViewActionKind::KeyUp),
    }
}

/// The action `uid` reported first, when it is of kind `kind`.
pub open spec fn action_of_kind(actions: Seq<WidgetActionItem>, uid: WidgetUid, kind: ViewActionKind) -> Option<ViewAction> {
    match action_for(actions, uid) {
        Some(a) => if action_kind(a) == Some(kind) { Some(a) } else { None },
        None => None,
    }
}

fn kind_of(a: ViewAction) -> (r: Option<ViewActionKind>)
    ensures
        r == action_kind(a),
{
    match a {
        ViewAction::Nothing => None,
        ViewAction::FingerDown(_) => Some(ViewActionKind::FingerDown),
        ViewAction::FingerUp(_) => Some(ViewActionKind::FingerUp),
        ViewAction::FingerMove(_) => Some(ViewActionKind::FingerMove),
        ViewAction::KeyDown(_) => Some(ViewActionKind::KeyDown),
        ViewAction::KeyUp(_) => Some(ViewActionKind::KeyUp),
    }
}

/// The action `uid` reported first, when it is of kind `kind`.
fn find_action_of_kind(actions: &Vec<WidgetActionItem>, uid: WidgetUid, kind: ViewActionKind) -> (r: Option<ViewAction>)
    ensures
        r == action_of_kind(actions@, uid, kind),
{
    match find_single_action(actions, uid) {
        Some(item) => {
            match kind_of(item.action) {
                Some(k) => if k == kind { Some(item.action) } else { None },
                None => None,
            }
        },
        None => None,
    }
}

/// The number of texture slots a view's background has: a draw call binds
/// at most four textures, and the background's draw call has one slot for
/// each.
pub const TEXTURE_SLOTS: usize = 4;

/// The state of one animation track: the state it is in or heading to, and
/// whether it is animating there.
#[derive(Clone, Copy, Debug, PartialEq, Eq, Structural)]
pub struct AnimState {
    pub state: LiveId,
    pub animating: bool,
}

/// A child of a view, by its id in the view.
#[derive(Clone, Copy, Debug, PartialEq, Eq, Structural)]
pub struct ChildWidget {
    pub id: LiveId,
    pub widget: WidgetRef,
}

/// How a view is set up: what the live document gives it.
#[derive(Clone, Debug, PartialEq, Eq)]
pub struct ViewConfig {
    pub show_bg: bool,
    pub optimize: ViewOptimize,
    pub event_order: EventOrder,
    pub grab_key_focus: bool,
    pub block_signal_event: bool,
    pub cursor: Option<MouseCursor>,
    pub has_animator: bool,
}

/// A view's state as plain values.
pub struct ViewModel {
    pub visible: bool,
    pub area: Area,
    pub draw_order: Seq<LiveId>,
    pub children: Seq<ChildWidget>,
    pub animator: Map<u64, AnimState>,
    pub textures: Seq<Option<Texture>>,
    pub find_cache: Map<u64, Seq<WidgetUid>>,
    pub config: ViewConfig,
    /// The view has made its draw list (a caching view needs one to draw).
    pub has_draw_list: bool,
}

/// A container widget: it draws its children in `draw_order` and hands
/// them events.
pub struct View {
    pub visible: bool,
    pub area: Area,
    pub config: ViewConfig,
    draw_order: Vec<LiveId>,
    children: Vec<ChildWidget>,
    animator: HashMap<u64, AnimState>,
    texture_slots: Vec<Option<Texture>>,
    find_cache: HashMap<u64, Vec<WidgetUid>>,
    draw_list: bool,
}

/// The position of the child `id`, if the view has one.
pub open spec fn child_index(children: Seq<ChildWidget>, id: LiveId) -> Option<int> {
    if exists|i: int| 0 <= i < children.len() && children[i].id == id {
        Some(choose|i: int| 0 <= i < children.len() && children[i].id == id)
    } else {
        None
    }
}

/// No child id occurs twice.
pub open spec fn distinct_children(children: Seq<ChildWidget>) -> bool {
    forall|i: int, j: int| 0 <= i < children.len() && 0 <= j < children.len() && i != j ==> children[i].id != children[j].id
}

pub open spec fn cache_view(m: Map<u64, Vec<WidgetUid>>) -> Map<u64, Seq<WidgetUid>> {
    m.map_values(|v: Vec<WidgetUid>| v@)
}

impl ViewModel {
    /// The model is consistent: child ids are distinct and there are
    /// `TEXTURE_SLOTS` texture slots.
    pub open spec fn wf(self) -> bool {
        &&& distinct_children(self.children)
        &&& self.textures.len() == TEXTURE_SLOTS
    }

    pub open spec fn with_visible(self, visible: bool) -> ViewModel {
        ViewModel { visible, ..self }
    }

    /// The track `track` cut to `target` at once.
    pub open spec fn cut(self, track: LiveId, target: LiveId) -> ViewModel {
        ViewModel { animator: self.animator.insert(track.0, AnimState { state: target, animating: false }), ..self }
    }

    /// The track `track` set animating towards `target`.
    pub open spec fn play(self, track: LiveId, target: LiveId) -> ViewModel {
        ViewModel { animator: self.animator.insert(track.0, AnimState { state: target, animating: true }), ..self }
    }

    /// The first pair when `is_state_1`, else the second; played when
    /// `animate` is `Yes`, else cut.
    pub open spec fn toggle(self, is_state_1: bool, animate: Animate, s1: (LiveId, LiveId), s2: (LiveId, LiveId)) -> ViewModel {
        let s = if is_state_1 { s1 } else { s2 };
        if animate == Animate::Yes {
            self.play(s.0, s.1)
        } else {
            self.cut(s.0, s.1)
        }
    }

    pub open spec fn with_texture(self, slot: int, texture: Texture) -> ViewModel {
        ViewModel { textures: self.textures.update(slot, Some(texture)), ..self }
    }

    /// No children and an empty draw order.
    pub open spec fn cleared(self) -> ViewModel {
        ViewModel { draw_order: Seq::empty(), children: Seq::empty(), ..self }
    }
}

/// `after` is `before` with `id` appended to the draw order and `w` the child
/// `id`: the one already there, else a new instance of the template `ptr`
/// added as the last child.
pub open spec fn appended_child(before: ViewModel, after: ViewModel, id: LiveId, ptr: Option<LivePtr>, w: WidgetRef) -> bool {
    &&& after.draw_order == before.draw_order.push(id)
    &&& match child_index(before.children, id) {
        Some(i) => after.children == before.children && w == before.children[i].widget,
        None => after.children == before.children.push(ChildWidget { id, widget: w }) && w.template == ptr,
    }
    &&& after.visible == before.visible
    &&& after.area == before.area
    &&& after.animator == before.animator
    &&& after.textures == before.textures
    &&& after.find_cache == before.find_cache
    &&& after.config == before.config
    &&& after.has_draw_list == before.has_draw_list
}

/// Redraw requests for each child, in order.
pub open spec fn child_redraws(children: Seq<ChildWidget>) -> Seq<RedrawRequest>
    decreases children.len(),
{
    if children.len() == 0 {
        Seq::empty()
    } else {
        child_redraws(children.drop_last()).push(RedrawRequest::Widget(children.last().widget.uid))
    }
}

/// The redraw requests of a view: its own area, then each child.
pub open spec fn redraw_requests(m: ViewModel) -> Seq<RedrawRequest> {
    seq![RedrawRequest::Area(m.area)] + child_redraws(m.children)
}

impl View {
    pub closed spec fn model(self) -> ViewModel {
        ViewModel {
            visible: self.visible,
            area: self.area,
            draw_order: self.draw_order@,
            children: self.children@,
            animator: self.animator@,
            textures: self.texture_slots@,
            find_cache: cache_view(self.find_cache@),
            config: self.config,
            has_draw_list: self.draw_list,
        }
    }

    pub open spec fn wf(self) -> bool {
        self.model().wf()
    }

    /// A view as the live document sets it up by default: visible, no
    /// background, no caching, events handed out from the last drawn child,
    /// grabbing the key focus, and no children.
    pub fn new() -> (r: View)
        ensures
            r.wf(),
            r.model().visible,
            r.model().area == Area::Empty,
            r.model().draw_order == Seq::<LiveId>::empty(),
            r.model().children == Seq::<ChildWidget>::empty(),
            r.model().animator == Map::<u64, AnimState>::empty(),
            r.model().textures == Seq::new(TEXTURE_SLOTS as nat, |i: int| None::<Texture>),
            r.model().find_cache == Map::<u64, Seq<WidgetUid>>::empty(),
            r.model().config == (ViewConfig {
                show_bg: false,
                optimize: ViewOptimize::Plain,
                event_order: EventOrder::Up,
                grab_key_focus: true,
                block_signal_event: false,
                cursor: None,
                has_animator: false,
            }),
            !r.model().has_draw_list,
    {
        let texture_slots: Vec<Option<Texture>> = vec![None; TEXTURE_SLOTS];
        assert(texture_slots@ =~= Seq::new(TEXTURE_SLOTS as nat, |i: int| None::<Texture>));
        let r = View {
            visible: true,
            area: Area::Empty,
            config: ViewConfig {
                show_bg: false,
                optimize: ViewOptimize::Plain,
                event_order: EventOrder::Up,
                grab_key_focus: true,
                block_signal_event: false,
                cursor: None,
                has_animator: false,
            },
            draw_order: Vec::new(),
            children: Vec::new(),
            animator: HashMap::new(),
            texture_slots,
            find_cache: HashMap::new(),
            draw_list: false,
        };
        assert(r.model().draw_order =~= Seq::<LiveId>::empty());
        assert(r.model().children =~= Seq::<ChildWidget>::empty());
        assert(r.model().find_cache =~= Map::<u64, Seq<WidgetUid>>::empty());
        r
    }

    /// The area the view drew into.
    pub fn area(&self) -> (r: Area)
        ensures
            r == self.model().area,
    {
        self.area
    }

    /// The number of children in the draw order.
    pub fn child_count(&self) -> (r: usize)
        ensures
            r == self.model().draw_order.len(),
    {
        self.draw_order.len()
    }

    /// The state of the animation track `track`, if it was ever set.
    pub fn anim_state(&self, track: LiveId) -> (r: Option<AnimState>)
        ensures
            r == (if self.model().animator.contains_key(track.0) { Some(self.model().animator[track.0]) } else { None::<AnimState> }),
    {
        match self.animator.get(&track.0) {
            Some(s) => Some(*s),
            None => None,
        }
    }

    /// The texture in slot `slot`.
    pub fn texture(&self, slot: usize) -> (r: Option<Texture>)
        requires
            self.wf(),
            slot < TEXTURE_SLOTS,
        ensures
            r == self.model().textures[slot as int],
    {
        self.texture_slots[slot]
    }

    /// The draw order: ids of children, in drawing order.
    pub fn draw_order(&self) -> (r: Vec<LiveId>)
        ensures
            r@ == self.model().draw_order,
    {
        let r = self.draw_order.clone();
        assert(r@ =~= self.draw_order@);
        r
    }

    /// Asks for the view and each of its children to be redrawn.
    pub fn redraw(&self, cx: &mut Cx)
        ensures
            final(cx).redraws@ == old(cx).redraws@ + redraw_requests(self.model()),
            final(cx).key_focus == old(cx).key_focus,
            final(cx).cursor == old(cx).cursor,
    {
        cx.redraw_area(self.area);
        let ghost start = cx.redraws@;
        let mut i: usize = 0;
        while i < self.children.len()
            invariant
                i <= self.children@.len(),
                cx.redraws@ == start + child_redraws(self.children@.take(i as int)),
                cx.key_focus == old(cx).key_focus,
                cx.cursor == old(cx).cursor,
            decreases self.children@.len() - i,
        {
            cx.redraw_widget(self.children[i].widget.uid);
            assert(self.children@.take(i + 1).drop_last() =~= self.children@.take(i as int));
            i = i + 1;
        }
        assert(self.children@.take(self.children@.len() as int) =~= self.children@);
    }

    fn set_texture(&mut self, slot: usize, texture: &Texture)
        requires
            old(self).wf(),
            slot < TEXTURE_SLOTS,
        ensures
            final(self).wf(),
            final(self).model() == old(self).model().with_texture(slot as int, *texture),
    {
        self.texture_slots.set(slot, Some(*texture));
    }

    fn clear_children(&mut self)
        requires
            old(self).wf(),
        ensures
            final(self).wf(),
            final(self).model() == old(self).model().cleared(),
    {
        self.draw_order.clear();
        self.children.clear();
        assert(self.model() =~= old(self).model().cleared());
    }

    fn find_child(&self, id: LiveId) -> (r: Option<usize>)
        ensures
            r matches Some(i) ==> i < self.children@.len() && self.children@[i as int].id == id,
            r is None ==> forall|i: int| 0 <= i < self.children@.len() ==> self.children@[i].id != id,
    {
        let mut i: usize = 0;
        while i < self.children.len()
            invariant
                i <= self.children@.len(),
                forall|j: int| 0 <= j < i ==> self.children@[j].id != id,
            decreases self.children@.len() - i,
        {
            if self.children[i].id == id {
                return Some(i);
            }
            i = i + 1;
        }
        None
    }

    /// Puts `id` at the end of the draw order and returns the child `id`,
    /// made from the template `ptr` if the view has no child `id` yet.
    fn append_child(&mut self, id: LiveId, ptr: Option<LivePtr>) -> (r: WidgetRef)
        requires
            old(self).wf(),
        ensures
            final(self).wf(),
            appended_child(old(self).model(), final(self).model(), id, ptr, r),
    {
        self.draw_order.push(id);
        match self.find_child(id) {
            Some(i) => {
                let ghost m = old(self).model();
                assert(child_index(m.children, id) == Some(i as int)) by {
                    let j = choose|j: int| 0 <= j < m.children.len() && m.children[j].id == id;
                    assert(j == i);
                }
                self.children[i].widget
            },
            None => {
                let w = WidgetRef::new_from_ptr(ptr);
                self.children.push(ChildWidget { id, widget: w });
                w
            },
        }
    }

    fn animator_cut(&mut self, track: LiveId, target: LiveId)
        requires
            old(self).wf(),
        ensures
            final(self).wf(),
            final(self).model() == old(self).model().cut(track, target),
    {
        self.animator.insert(track.0, AnimState { state: target, animating: false });
    }

    fn animator_play(&mut self, track: LiveId, target: LiveId)
        requires
            old(self).wf(),
        ensures
            final(self).wf(),
            final(self).model() == old(self).model().play(track, target),
    {
        self.animator.insert(track.0, AnimState { state: target, animating: true });
    }

    fn animator_toggle(&mut self, is_state_1: bool, animate: Animate, state1: &[LiveId; 2], state2: &[LiveId; 2])
        requires
            old(self).wf(),
        ensures
            final(self).wf(),
            final(self).model() == old(self).model().toggle(is_state_1, animate, (state1[0], state1[1]), (state2[0], state2[1])),
    {
        if is_state_1 {
            if let Animate::Yes = animate {
                self.animator_play(state1[0], state1[1]);
            } else {
                self.animator_cut(state1[0], state1[1]);
            }
        } else {
            if let Animate::Yes = animate {
                self.animator_play(state2[0], state2[1]);
            } else {
                self.animator_cut(state2[0], state2[1]);
            }
        }
    }
}

/// The model after cutting a track to a state, when there is a view.
pub open spec fn opt_cut(o: Option<ViewModel>, track: LiveId, target: LiveId) -> Option<ViewModel> {
    match o {
        Some(m) => Some(m.cut(track, target)),
        None => None,
    }
}

/// The model after setting a track animating towards a state, when there is
/// a view.
pub open spec fn opt_play(o: Option<ViewModel>, track: LiveId, target: LiveId) -> Option<ViewModel> {
    match o {
        Some(m) => Some(m.play(track, target)),
        None => None,
    }
}

/// The model after a toggle, when there is a view.
pub open spec fn opt_toggle(
    o: Option<ViewModel>,
    is_state_1: bool,
    animate: Animate,
    s1: (LiveId, LiveId),
    s2: (LiveId, LiveId),
) -> Option<ViewModel> {
    match o {
        Some(m) => Some(m.toggle(is_state_1, animate, s1, s2)),
        None => None,
    }
}

/// The model with its visibility set, when there is a view.
pub open spec fn opt_visible(o: Option<ViewModel>, visible: bool) -> Option<ViewModel> {
    match o {
        Some(m) => Some(m.with_visible(visible)),
        None => None,
    }
}

/// The model with a texture in a slot, when there is a view.
pub open spec fn opt_texture(o: Option<ViewModel>, slot: int, texture: Texture) -> Option<ViewModel> {
    match o {
        Some(m) => Some(m.with_texture(slot, texture)),
        None => None,
    }
}

/// The redraw requests of a handle: those of its view, if it has one.
pub open spec fn opt_redraws(o: Option<ViewModel>) -> Seq<RedrawRequest> {
    match o {
        Some(m) => redraw_requests(m),
        None => Seq::empty(),
    }
}

/// A handle to a widget that may be a view.  The operations act on the view
/// when the handle holds one, and do nothing (or give a neutral answer) when
/// it does not.
pub struct ViewRef {
    pub uid: WidgetUid,
    pub inner: Option<View>,
}

impl ViewRef {
    pub open spec fn model(self) -> Option<ViewModel> {
        match self.inner {
            Some(v) => Some(v.model()),
            None => None,
        }
    }

    pub open spec fn wf(self) -> bool {
        self.inner matches Some(v) ==> v.wf()
    }

    /// A handle to `view` with a fresh identity.
    pub fn new(view: View) -> (r: ViewRef)
        ensures
            r.inner == Some(view),
    {
        ViewRef { uid: WidgetUid::fresh(), inner: Some(view) }
    }

    /// A handle that holds no view.
    pub fn empty() -> (r: ViewRef)
        ensures
            r.inner is None,
    {
        ViewRef { uid: WidgetUid::fresh(), inner: None }
    }

    /// The identity of the widget behind the handle.
    pub fn widget_uid(&self) -> (r: WidgetUid)
        ensures
            r == self.uid,
    {
        self.uid
    }

    /// The finger-down event this widget reported, if its first action is one.
    pub fn finger_down(&self, actions: &Vec<WidgetActionItem>) -> (r: Option<FingerDownEvent>)
        ensures
            r == (match action_for(actions@, self.uid) {
                Some(ViewAction::FingerDown(e)) => Some(e),
                _ => None::<FingerDownEvent>,
            }),
    {
        if let Some(item) = find_single_action(actions, self.widget_uid()) {
            if let ViewAction::FingerDown(fd) = item.action {
                return Some(fd);
            }
        }
        None
    }

    /// The finger-up event this widget reported, if its first action is one.
    pub fn finger_up(&self, actions: &Vec<WidgetActionItem>) -> (r: Option<FingerUpEvent>)
        ensures
            r == (match action_for(actions@, self.uid) {
                Some(ViewAction::FingerUp(e)) => Some(e),
                _ => None::<FingerUpEvent>,
            }),
    {
        if let Some(item) = find_single_action(actions, self.widget_uid()) {
            if let ViewAction::FingerUp(fd) = item.action {
                return Some(fd);
            }
        }
        None
    }

    /// The finger-move event this widget reported, if its first action is one.
    pub fn finger_move(&self, actions: &Vec<WidgetActionItem>) -> (r: Option<FingerMoveEvent>)
        ensures
            r == (match action_for(actions@, self.uid) {
                Some(ViewAction::FingerMove(e)) => Some(e),
                _ => None::<FingerMoveEvent>,
            }),
    {
        if let Some(item) = find_single_action(actions, self.widget_uid()) {
            if let ViewAction::FingerMove(fd) = item.action {
                return Some(fd);
            }
        }
        None
    }

    /// The key-down event this widget reported, if its first action is one.
    pub fn key_down(&self, actions: &Vec<WidgetActionItem>) -> (r: Option<KeyEvent>)
        ensures
            r == (match action_for(actions@, self.uid) {
                Some(ViewAction::KeyDown(e)) => Some(e),
                _ => None::<KeyEvent>,
            }),
    {
        if let Some(item) = find_single_action(actions, self.widget_uid()) {
            if let ViewAction::KeyDown(fd) = item.action {
                return Some(fd);
            }
        }
        None
    }

    /// The key-up event this widget reported, if its first action is one.
    pub fn key_up(&self, actions: &Vec<WidgetActionItem>) -> (r: Option<KeyEvent>)
        ensures
            r == (match action_for(actions@, self.uid) {
                Some(ViewAction::KeyUp(e)) => Some(e),
                _ => None::<KeyEvent>,
            }),
    {
        if let Some(item) = find_single_action(actions, self.widget_uid()) {
            if let ViewAction::KeyUp(fd) = item.action {
                return Some(fd);
            }
        }
        None
    }

    /// Cuts the animation track `state[0]` to the state `state[1]` at once.
    pub fn cut_state(&mut self, cx: &mut Cx, state: &[LiveId; 2])
        requires
            old(self).wf(),
        ensures
            final(self).wf(),
            final(self).uid == old(self).uid,
            final(self).model() == opt_cut(old(self).model(), state[0], state[1]),
            *final(cx) == *old(cx),
    {
        if let Some(inner) = &mut self.inner {
            inner.animator_cut(state[0], state[1]);
        }
    }

    /// Sets the animation track `state[0]` animating towards `state[1]`.
    pub fn animator_play(&mut self, cx: &mut Cx, state: &[LiveId; 2])
        requires
            old(self).wf(),
        ensures
            final(self).wf(),
            final(self).uid == old(self).uid,
            final(self).model() == opt_play(old(self).model(), state[0], state[1]),
            *final(cx) == *old(cx),
    {
        if let Some(inner) = &mut self.inner {
            inner.animator_play(state[0], state[1]);
        }
    }

    /// Moves to `state1` when `is_state_1`, else to `state2`; animated when
    /// `animate` is `Yes`, at once otherwise.
    pub fn toggle_state(
        &mut self,
        cx: &mut Cx,
        is_state_1: bool,
        animate: Animate,
        state1: &[LiveId; 2],
        state2: &[LiveId; 2],
    )
        requires
            old(self).wf(),
        ensures
            final(self).wf(),
            final(self).uid == old(self).uid,
            final(self).model() == opt_toggle(old(self).model(), is_state_1, animate, (state1[0], state1[1]), (state2[0], state2[1])),
            *final(cx) == *old(cx),
    {
        if let Some(inner) = &mut self.inner {
            inner.animator_toggle(is_state_1, animate, state1, state2);
        }
    }

    /// Shows or hides the view.
    pub fn set_visible(&mut self, visible: bool)
        requires
            old(self).wf(),
        ensures
            final(self).wf(),
            final(self).uid == old(self).uid,
            final(self).model() == opt_visible(old(self).model(), visible),
    {
        if let Some(inner) = &mut self.inner {
            inner.visible = visible;
        }
    }

    /// Shows or hides the view and asks for it to be redrawn.
    pub fn set_visible_and_redraw(&mut self, cx: &mut Cx, visible: bool)
        requires
            old(self).wf(),
        ensures
            final(self).wf(),
            final(self).uid == old(self).uid,
            final(self).model() == opt_visible(old(self).model(), visible),
            final(cx).redraws@ == old(cx).redraws@ + opt_redraws(old(self).model()),
            final(cx).key_focus == old(cx).key_focus,
            final(cx).cursor == old(cx).cursor,
    {
        if let Some(inner) = &mut self.inner {
            inner.visible = visible;
            inner.redraw(cx);
        } else {
            assert(cx.redraws@ =~= old(cx).redraws@ + Seq::<RedrawRequest>::empty());
        }
    }

    /// Whether the view is visible; `false` when there is no view.
    pub fn visible(&self) -> (r: bool)
        ensures
            r == opt_is_visible(self.model()),
    {
        if let Some(inner) = &self.inner {
            inner.visible
        } else {
            false
        }
    }

    /// Puts `texture` in slot `slot` of the view's background.
    pub fn set_texture(&mut self, slot: usize, texture: &Texture)
        requires
            old(self).wf(),
            old(self).inner is Some ==> slot < TEXTURE_SLOTS,
        ensures
            final(self).wf(),
            final(self).uid == old(self).uid,
            final(self).model() == opt_texture(old(self).model(), slot as int, *texture),
    {
        if let Some(inner) = &mut self.inner {
            inner.set_texture(slot, texture);
        }
    }

    /// The area the view drew into; empty when there is no view.
    pub fn area(&self) -> (r: Area)
        ensures
            r == (match self.model() {
                Some(m) => m.area,
                None => Area::Empty,
            }),
    {
        if let Some(inner) = &self.inner {
            inner.area
        } else {
            Area::Empty
        }
    }

    /// The number of children in the draw order; zero when there is no view.
    pub fn child_count(&self) -> (r: usize)
        ensures
            r == (match self.model() {
                Some(m) => m.draw_order.len(),
                None => 0,
            }),
    {
        if let Some(inner) = &self.inner {
            inner.child_count()
        } else {
            0
        }
    }

    /// Appends `id` to the draw order and gives the child `id`, creating it
    /// from the template `ptr` if the view has none yet.  `None` when there is
    /// no view.
    pub fn append_child(&mut self, cx: &mut Cx, id: LiveId, ptr: Option<LivePtr>) -> (r: Option<WidgetRef>)
        requires
            old(self).wf(),
        ensures
            final(self).wf(),
            final(self).uid == old(self).uid,
            *final(cx) == *old(cx),
            old(self).inner is None ==> r is None && final(self).inner is None,
            old(self).inner is Some ==> (r matches Some(w) && final(self).model() matches Some(after)
                && appended_child(old(self).model().unwrap(), after, id, ptr, w)),
    {
        if let Some(inner) = &mut self.inner {
            let w = inner.append_child(id, ptr);
            Some(w)
        } else {
            None
        }
    }

    /// Removes every child and empties the draw order.
    pub fn clear_children(&mut self)
        requires
            old(self).wf(),
        ensures
            final(self).wf(),
            final(self).uid == old(self).uid,
            final(self).model() == (match old(self).model() {
                Some(m) => Some(m.cleared()),
                None => None::<ViewModel>,
            }),
    {
        if let Some(inner) = &mut self.inner {
            inner.clear_children();
        }
    }
}

/// The first action of kind `kind` among the items, in order: each item's
/// first reported action, when it is of that kind.
pub open spec fn first_of_kind(uids: Seq<WidgetUid>, actions: Seq<WidgetActionItem>, kind: ViewActionKind) -> Option<ViewAction>
    decreases uids.len(),
{
    if uids.len() == 0 {
        None
    } else {
        match action_of_kind(actions, uids[0], kind) {
            Some(a) => Some(a),
            None => first_of_kind(uids.drop_first(), actions, kind),
        }
    }
}

/// The redraw requests of each handle, in order.
pub open spec fn set_redraws(items: Seq<ViewRef>) -> Seq<RedrawRequest>
    decreases items.len(),
{
    if items.len() == 0 {
        Seq::empty()
    } else {
        set_redraws(items.drop_last()) + opt_redraws(items.last().model())
    }
}

/// A set of view handles, as a query for several views returns it.
pub struct ViewSet {
    pub items: Vec<ViewRef>,
}

impl ViewSet {
    pub open spec fn uids(self) -> Seq<WidgetUid> {
        self.items@.map_values(|v: ViewRef| v.uid)
    }

    pub open spec fn wf(self) -> bool {
        forall|i: int| 0 <= i < self.items@.len() ==> #[trigger] self.items@[i].wf()
    }

    /// Every handle is changed by `f` alone, keeping its identity.
    pub open spec fn each(self, after: ViewSet, f: spec_fn(Option<ViewModel>) -> Option<ViewModel>) -> bool {
        &&& after.items@.len() == self.items@.len()
        &&& forall|i: int| 0 <= i < self.items@.len() ==> {
            &&& #[trigger] after.items@[i].uid == self.items@[i].uid
            &&& after.items@[i].model() == f(self.items@[i].model())
            &&& after.items@[i].wf()
        }
    }

    /// A set of the given handles.
    pub fn new(items: Vec<ViewRef>) -> (r: ViewSet)
        ensures
            r.items == items,
    {
        ViewSet { items }
    }

    fn first_action(&self, actions: &Vec<WidgetActionItem>, kind: ViewActionKind) -> (r: Option<ViewAction>)
        ensures
            r == first_of_kind(self.uids(), actions@, kind),
    {
        let mut i: usize = 0;
        let ghost u = self.uids();
        assert(u.subrange(0, u.len() as int) =~= u);
        while i < self.items.len()
            invariant
                i <= self.items@.len(),
                u == self.uids(),
                first_of_kind(u, actions@, kind) == first_of_kind(u.subrange(i as int, u.len() as int), actions@, kind),
            decreases self.items@.len() - i,
        {
            let ghost rest = u.subrange(i as int, u.len() as int);
            assert(rest.drop_first() =~= u.subrange(i + 1, u.len() as int));
            assert(rest[0] == self.items@[i as int].uid);
            if let Some(a) = find_action_of_kind(actions, self.items[i].widget_uid(), kind) {
                return Some(a);
            }
            i = i + 1;
        }
        None
    }

    /// The first finger-down event reported by a view of the set.
    pub fn finger_down(&self, actions: &Vec<WidgetActionItem>) -> (r: Option<FingerDownEvent>)
        ensures
            r == (match first_of_kind(self.uids(), actions@, ViewActionKind::FingerDown) {
                Some(ViewAction::FingerDown(e)) => Some(e),
                _ => None::<FingerDownEvent>,
            }),
    {
        if let Some(ViewAction::FingerDown(e)) = self.first_action(actions, ViewActionKind::FingerDown) {
            Some(e)
        } else {
            None
        }
    }

    /// The first finger-up event reported by a view of the set.
    pub fn finger_up(&self, actions: &Vec<WidgetActionItem>) -> (r: Option<FingerUpEvent>)
        ensures
            r == (match first_of_kind(self.uids(), actions@, ViewActionKind::FingerUp) {
                Some(ViewAction::FingerUp(e)) => Some(e),
                _ => None::<FingerUpEvent>,
            }),
    {
        if let Some(ViewAction::FingerUp(e)) = self.first_action(actions, ViewActionKind::FingerUp) {
            Some(e)
        } else {
            None
        }
    }

    /// The first finger-move event reported by a view of the set.
    pub fn finger_move(&self, actions: &Vec<WidgetActionItem>) -> (r: Option<FingerMoveEvent>)
        ensures
            r == (match first_of_kind(self.uids(), actions@, ViewActionKind::FingerMove) {
                Some(ViewAction::FingerMove(e)) => Some(e),
                _ => None::<FingerMoveEvent>,
            }),
    {
        if let Some(ViewAction::FingerMove(e)) = self.first_action(actions, ViewActionKind::FingerMove) {
            Some(e)
        } else {
            None
        }
    }

    /// The first key-down event reported by a view of the set.
    pub fn key_down(&self, actions: &Vec<WidgetActionItem>) -> (r: Option<KeyEvent>)
        ensures
            r == (match first_of_kind(self.uids(), actions@, ViewActionKind::KeyDown) {
                Some(ViewAction::KeyDown(e)) => Some(e),
                _ => None::<KeyEvent>,
            }),
    {
        if let Some(ViewAction::KeyDown(e)) = self.first_action(actions, ViewActionKind::KeyDown) {
            Some(e)
        } else {
            None
        }
    }

    /// The first key-up event reported by a view of the set.
    pub fn key_up(&self, actions: &Vec<WidgetActionItem>) -> (r: Option<KeyEvent>)
        ensures
            r == (match first_of_kind(self.uids(), actions@, ViewActionKind::KeyUp) {
                Some(ViewAction::KeyUp(e)) => Some(e),
                _ => None::<KeyEvent>,
            }),
    {
        if let Some(ViewAction::KeyUp(e)) = self.first_action(actions, ViewActionKind::KeyUp) {
            Some(e)
        } else {
            None
        }
    }

    /// Cuts the track `state[0]` of every view to `state[1]`.
    pub fn cut_state(&mut self, cx: &mut Cx, state: &[LiveId; 2])
        requires
            old(self).wf(),
        ensures
            old(self).each(*final(self), |o: Option<ViewModel>| opt_cut(o, state[0], state[1])),
            *final(cx) == *old(cx),
    {
        let n = self.items.len();
        let mut i: usize = 0;
        while i < n
            invariant
                n == old(self).items@.len(),
                n == self.items@.len(),
                i <= n,
                *cx == *old(cx),
                forall|j: int| 0 <= j < n ==> (#[trigger] self.items@[j]).wf(),
                forall|j: int| 0 <= j < n ==> #[trigger] self.items@[j].uid == old(self).items@[j].uid,
                forall|j: int| 0 <= j < i ==> #[trigger] self.items@[j].model() == opt_cut(old(self).items@[j].model(), state[0], state[1]),
                forall|j: int| i <= j < n ==> #[trigger] self.items@[j] == old(self).items@[j],
            decreases n - i,
        {
            self.items[i].cut_state(cx, state);
            i = i + 1;
        }
    }
    /// Sets the track `state[0]` of every view animating towards `state[1]`.
    pub fn animator_play(&mut self, cx: &mut Cx, state: &[LiveId; 2])
        requires
            old(self).wf(),
        ensures
            old(self).each(*final(self), |o: Option<ViewModel>| opt_play(o, state[0], state[1])),
            *final(cx) == *old(cx),
    {
        let n = self.items.len();
        let mut i: usize = 0;
        while i < n
            invariant
                n == old(self).items@.len(),
                n == self.items@.len(),
                i <= n,
                *cx == *old(cx),
                forall|j: int| 0 <= j < n ==> (#[trigger] self.items@[j]).wf(),
                forall|j: int| 0 <= j < n ==> #[trigger] self.items@[j].uid == old(self).items@[j].uid,
                forall|j: int| 0 <= j < i ==> #[trigger] self.items@[j].model() == opt_play(old(self).items@[j].model(), state[0], state[1]),
                forall|j: int| i <= j < n ==> #[trigger] self.items@[j] == old(self).items@[j],
            decreases n - i,
        {
            self.items[i].animator_play(cx, state);
            i = i + 1;
        }
    }

    /// Toggles every view between `state1` and `state2`, as `ViewRef::toggle_state` does.
    pub fn toggle_state(
        &mut self,
        cx: &mut Cx,
        is_state_1: bool,
        animate: Animate,
        state1: &[LiveId; 2],
        state2: &[LiveId; 2],
    )
        requires
            old(self).wf(),
        ensures
            old(self).each(*final(self), |o: Option<ViewModel>| opt_toggle(o, is_state_1, animate, (state1[0], state1[1]), (state2[0], state2[1]))),
            *final(cx) == *old(cx),
    {
        let n = self.items.len();
        let mut i: usize = 0;
        while i < n
            invariant
                n == old(self).items@.len(),
                n == self.items@.len(),
                i <= n,
                *cx == *old(cx),
                forall|j: int| 0 <= j < n ==> (#[trigger] self.items@[j]).wf(),
                forall|j: int| 0 <= j < n ==> #[trigger] self.items@[j].uid == old(self).items@[j].uid,
                forall|j: int| 0 <= j < i ==> #[trigger] self.items@[j].model() == opt_toggle(old(self).items@[j].model(), is_state_1, animate, (state1[0], state1[1]), (state2[0], state2[1])),
                forall|j: int| i <= j < n ==> #[trigger] self.items@[j] == old(self).items@[j],
            decreases n - i,
        {
            self.items[i].toggle_state(cx, is_state_1, animate, state1, state2);
            i = i + 1;
        }
    }

    /// Shows or hides every view.
    pub fn set_visible(&mut self, visible: bool)
        requires
            old(self).wf(),
        ensures
            old(self).each(*final(self), |o: Option<ViewModel>| opt_visible(o, visible)),
    {
        let n = self.items.len();
        let mut i: usize = 0;
        while i < n
            invariant
                n == old(self).items@.len(),
                n == self.items@.len(),
                i <= n,
                forall|j: int| 0 <= j < n ==> (#[trigger] self.items@[j]).wf(),
                forall|j: int| 0 <= j < n ==> #[trigger] self.items@[j].uid == old(self).items@[j].uid,
                forall|j: int| 0 <= j < i ==> #[trigger] self.items@[j].model() == opt_visible(old(self).items@[j].model(), visible),
                forall|j: int| i <= j < n ==> #[trigger] self.items@[j] == old(self).items@[j],
            decreases n - i,
        {
            self.items[i].set_visible(visible);
            i = i + 1;
        }
    }

    /// Puts `texture` in slot `slot` of every view's background.
    pub fn set_texture(&mut self, slot: usize, texture: &Texture)
        requires
            old(self).wf(),
            forall|j: int| 0 <= j < old(self).items@.len() && (#[trigger] old(self).items@[j]).inner is Some ==> slot < TEXTURE_SLOTS,
        ensures
            old(self).each(*final(self), |o: Option<ViewModel>| opt_texture(o, slot as int, *texture)),
    {
        let n = self.items.len();
        let mut i: usize = 0;
        while i < n
            invariant
                n == old(self).items@.len(),
                n == self.items@.len(),
                i <= n,
                forall|j: int| 0 <= j < old(self).items@.len() && (#[trigger] old(self).items@[j]).inner is Some ==> slot < TEXTURE_SLOTS,
                forall|j: int| 0 <= j < n ==> (#[trigger] self.items@[j]).wf(),
                forall|j: int| 0 <= j < n ==> #[trigger] self.items@[j].uid == old(self).items@[j].uid,
                forall|j: int| 0 <= j < i ==> #[trigger] self.items@[j].model() == opt_texture(old(self).items@[j].model(), slot as int, *texture),
                forall|j: int| i <= j < n ==> #[trigger] self.items@[j] == old(self).items@[j],
            decreases n - i,
        {
            self.items[i].set_texture(slot, texture);
            i = i + 1;
        }
    }

    /// Asks for every view, and each of its children, to be redrawn.
    pub fn redraw(&self, cx: &mut Cx)
        ensures
            final(cx).redraws@ == old(cx).redraws@ + set_redraws(self.items@),
            final(cx).key_focus == old(cx).key_focus,
            final(cx).cursor == old(cx).cursor,
    {
        let ghost start = cx.redraws@;
        let mut i: usize = 0;
        assert(self.items@.take(0) =~= Seq::<ViewRef>::empty());
        assert(cx.redraws@ =~= start + set_redraws(self.items@.take(0)));
        while i < self.items.len()
            invariant
                i <= self.items@.len(),
                cx.redraws@ == start + set_redraws(self.items@.take(i as int)),
                cx.key_focus == old(cx).key_focus,
                cx.cursor == old(cx).cursor,
            decreases self.items@.len() - i,
        {
            let ghost before = cx.redraws@;
            if let Some(inner) = &self.items[i].inner {
                inner.redraw(cx);
            } else {
                assert(cx.redraws@ =~= before + Seq::<RedrawRequest>::empty());
            }
            assert(self.items@.take(i + 1).drop_last() =~= self.items@.take(i as int));
            assert(cx.redraws@ =~= start + set_redraws(self.items@.take(i + 1)));
            i = i + 1;
        }
        assert(self.items@.take(self.items@.len() as int) =~= self.items@);
    }

}

/// Where the values being applied to a widget come from.
#[derive(Clone, Copy, Debug, PartialEq, Eq, Structural)]
pub enum ApplyFrom {
    NewFromDoc { file_id: u16 },
    UpdateFromDoc { file_id: u16 },
    New,
    Animate,
    ApplyOver,
    ApplyClear,
}

/// What becomes of one value node applied to a view.
#[derive(Clone, Copy, Debug, PartialEq, Eq, Structural)]
pub enum InstancePlan {
    /// The node is applied to this child.
    ApplyToChild(WidgetRef),
    /// The node names no field of a view: an error is reported and the node
    /// skipped.
    NoMatchingField,
    /// The node is skipped.
    Skip,
}

/// Whether a search for widgets may use and fill the view's cache.
#[derive(Clone, Copy, Debug, PartialEq, Eq, Structural)]
pub enum WidgetCache {
    Yes,
    No,
    Clear,
}

/// How a search for widgets by path starts.
#[derive(Clone, Debug, PartialEq, Eq)]
pub enum FindStart {
    /// The cache holds the widgets found before for this path.
    Cached(Vec<WidgetUid>),
    /// The children must be searched; the result is to be cached under the
    /// key, if there is one.
    Search { cache_key: Option<u64> },
}

/// One piece of work of a search for widgets at a view.
#[derive(Clone, Debug, PartialEq, Eq)]
pub enum FindTask {
    /// This widget is a result.
    Found(WidgetRef),
    /// This widget is searched for the given path.
    Search(WidgetRef, Vec<LiveId>),
}

/// A piece of search work as plain values.
pub enum FindTaskView {
    Found(WidgetRef),
    Search(WidgetRef, Seq<LiveId>),
}

pub open spec fn task_view(t: FindTask) -> FindTaskView {
    match t {
        FindTask::Found(w) => FindTaskView::Found(w),
        FindTask::Search(w, p) => FindTaskView::Search(w, p@),
    }
}

/// The search a view does for `path` below it: when it has the child named
/// by the path's first id, that child is a result if the path has one id,
/// and is searched for the rest of the path otherwise; then every child, in
/// order, is searched for the whole path.
pub open spec fn find_tasks_spec(children: Seq<ChildWidget>, path: Seq<LiveId>) -> Seq<FindTaskView> {
    let first = match child_index(children, path[0]) {
        Some(i) => if path.len() > 1 {
            seq![FindTaskView::Search(children[i].widget, path.drop_first())]
        } else {
            seq![FindTaskView::Found(children[i].widget)]
        },
        None => Seq::empty(),
    };
    first + children.map_values(|c: ChildWidget| FindTaskView::Search(c.widget, path))
}

/// The cache key of a path: the exclusive or of its ids.
pub open spec fn path_hash_spec(path: Seq<LiveId>) -> u64
    decreases path.len(),
{
    if path.len() == 0 {
        0
    } else {
        path_hash_spec(path.drop_last()) ^ path.last().0
    }
}

/// The cache key of a path.
pub fn path_hash(path: &Vec<LiveId>) -> (r: u64)
    ensures
        r == path_hash_spec(path@),
{
    let mut hash: u64 = 0;
    let mut i: usize = 0;
    while i < path.len()
        invariant
            i <= path@.len(),
            hash == path_hash_spec(path@.take(i as int)),
        decreases path@.len() - i,
    {
        assert(path@.take(i + 1).drop_last() =~= path@.take(i as int));
        hash = hash ^ path[i].0;
        i = i + 1;
    }
    assert(path@.take(path@.len() as int) =~= path@);
    hash
}

/// The cache key of two paths joined is the exclusive or of their keys.
pub proof fn law_path_hash_concat(a: Seq<LiveId>, b: Seq<LiveId>)
    ensures
        path_hash_spec(a + b) == path_hash_spec(a) ^ path_hash_spec(b),
    decreases b.len(),
{
    if b.len() == 0 {
        assert(a + b =~= a);
        let x = path_hash_spec(a);
        assert(x ^ 0u64 == x) by (bit_vector);
    } else {
        law_path_hash_concat(a, b.drop_last());
        assert((a + b).drop_last() =~= a + b.drop_last());
        let x = path_hash_spec(a);
        let y = path_hash_spec(b.drop_last());
        let z = b.last().0;
        assert((x ^ y) ^ z == x ^ (y ^ z)) by (bit_vector);
    }
}

/// The cache key does not depend on the order of a path's parts: a path and
/// its parts swapped share one cache entry.
pub proof fn law_path_hash_swap(a: Seq<LiveId>, b: Seq<LiveId>)
    ensures
        path_hash_spec(a + b) == path_hash_spec(b + a),
{
    law_path_hash_concat(a, b);
    law_path_hash_concat(b, a);
    let x = path_hash_spec(a);
    let y = path_hash_spec(b);
    assert(x ^ y == y ^ x) by (bit_vector);
}

/// The ids in the order a view hands events to its children: the draw order
/// backwards for `Up`, forwards for `Down`, or the given list.
pub open spec fn event_order_ids(order: EventOrder, draw_order: Seq<LiveId>) -> Seq<LiveId> {
    match order {
        EventOrder::Up => draw_order.reverse(),
        EventOrder::Down => draw_order,
        EventOrder::List(l) => l@,
    }
}

/// The predicate that holds of the ids of existing children.
pub open spec fn is_child(children: Seq<ChildWidget>) -> spec_fn(LiveId) -> bool {
    |id: LiveId| child_index(children, id) is Some
}

/// A child gets an event when it is visible or the event does not need a
/// visible receiver.
pub open spec fn delivers_event_spec(child_visible: bool, requires_visibility: bool) -> bool {
    child_visible || !requires_visibility
}

/// A child gets an event when it is visible or the event does not need a
/// visible receiver.
pub fn delivers_event(child_visible: bool, requires_visibility: bool) -> (r: bool)
    ensures
        r == delivers_event_spec(child_visible, requires_visibility),
{
    child_visible || !requires_visibility
}

/// A view reacts to hits on its own area when it is visible and has a
/// cursor, or whenever it has an animator.
pub open spec fn reacts_to_hits(m: ViewModel) -> bool {
    m.visible && m.config.cursor is Some || m.config.has_animator
}

/// The animation states a view plays when it is pressed, released, hovered
/// and left.
#[derive(Clone, Copy, Debug)]
pub struct ViewHitStates {
    pub down_on: (LiveId, LiveId),
    pub down_off: (LiveId, LiveId),
    pub hover_on: (LiveId, LiveId),
    pub hover_off: (LiveId, LiveId),
}

/// The action a hit on a view reports.
pub open spec fn hit_action(hit: Hit) -> Option<ViewAction> {
    match hit {
        Hit::FingerDown(e) => Some(ViewAction::FingerDown(e)),
        Hit::FingerMove(e) => Some(ViewAction::FingerMove(e)),
        Hit::FingerUp(e) => Some(ViewAction::FingerUp(e)),
        Hit::KeyDown(e) => Some(ViewAction::KeyDown(e)),
        Hit::KeyUp(e) => Some(ViewAction::KeyUp(e)),
        _ => None,
    }
}

/// The hit an action reports: the hit of the same kind carrying the same
/// event, if the action carries one.
pub open spec fn reported_hit(a: ViewAction) -> Option<Hit> {
    match a {
        ViewAction::Nothing => None,
        ViewAction::FingerDown(e) => Some(Hit::FingerDown(e)),
        ViewAction::FingerUp(e) => Some(Hit::FingerUp(e)),
        ViewAction::FingerMove(e) => Some(Hit::FingerMove(e)),
        ViewAction::KeyDown(e) => Some(Hit::KeyDown(e)),
        ViewAction::KeyUp(e) => Some(Hit::KeyUp(e)),
    }
}

/// The hits that a view reports as actions: presses, moves and releases of
/// a finger, and keys going down or up.
pub open spec fn is_reported_hit(hit: Hit) -> bool {
    hit is FingerDown || hit is FingerMove || hit is FingerUp || hit is KeyDown || hit is KeyUp
}

/// The animation state a hit on a view plays, when the view has an animator.
pub open spec fn hit_animation(hit: Hit, states: ViewHitStates) -> Option<(LiveId, LiveId)> {
    match hit {
        Hit::FingerDown(_) => Some(states.down_on),
        Hit::FingerUp(_) => Some(states.down_off),
        Hit::FingerHoverIn(_) => Some(states.hover_on),
        Hit::FingerHoverOut(_) => Some(states.hover_off),
        _ => None,
    }
}

/// The view's model after a hit: the hit's animation played when the view
/// reacts to hits and has an animator.
pub open spec fn model_after_hit(m: ViewModel, hit: Hit, states: ViewHitStates) -> ViewModel {
    if reacts_to_hits(m) && m.config.has_animator {
        match hit_animation(hit, states) {
            Some(s) => m.play(s.0, s.1),
            None => m,
        }
    } else {
        m
    }
}

/// Where a view's drawing stands: at a step of the draw order (resuming a
/// child whose drawing was interrupted), or at a step of the deferred walks.
#[derive(Clone, Copy, Debug, PartialEq, Eq, Structural)]
pub enum DrawState {
    Drawing(usize, bool),
    DeferWalk(usize),
}

/// What one step of drawing a view does.
#[derive(Clone, Copy, Debug, PartialEq, Eq, Structural)]
pub enum DrawAction {
    /// Draw the child `id` now.
    DrawChild { id: LiveId },
    /// Keep the child `id` for after the others: its size depends on theirs.
    DeferChild { id: LiveId },
    /// Nothing to draw at this step.
    Skip,
    /// The draw order is done; the deferred children come next.
    StartDeferred,
    /// Draw the deferred child at this index of the deferred list.
    DrawDeferred { index: usize },
    /// Everything is drawn: close the view's drawing.
    Finish,
}

/// One step of drawing: the action, the state to keep while a child draws
/// (it may interrupt the drawing and resume later), and the state after the
/// step (`None` once the view is done).
#[derive(Clone, Copy, Debug, PartialEq, Eq, Structural)]
pub struct DrawStep {
    pub action: DrawAction,
    pub hold: Option<DrawState>,
    pub next: Option<DrawState>,
}

/// The step a view takes from `state`, given whether the child at the
/// current step of the draw order is visible, whether its walk was
/// deferred, and how many walks are deferred.
pub open spec fn draw_step_spec(
    m: ViewModel,
    state: DrawState,
    child_visible: bool,
    walk_deferred: bool,
    deferred_count: nat,
) -> DrawStep {
    match state {
        DrawState::Drawing(step, resume) => if step < m.draw_order.len() {
            let id = m.draw_order[step as int];
            let next = Some(DrawState::Drawing((step + 1) as usize, false));
            if child_index(m.children, id) is Some && child_visible {
                if resume {
                    DrawStep { action: DrawAction::DrawChild { id }, hold: Some(DrawState::Drawing(step, true)), next }
                } else if walk_deferred {
                    DrawStep { action: DrawAction::DeferChild { id }, hold: None, next }
                } else {
                    DrawStep { action: DrawAction::DrawChild { id }, hold: Some(DrawState::Drawing(step, true)), next }
                }
            } else {
                DrawStep { action: DrawAction::Skip, hold: None, next }
            }
        } else {
            DrawStep { action: DrawAction::StartDeferred, hold: None, next: Some(DrawState::DeferWalk(0)) }
        },
        DrawState::DeferWalk(step) => if step < deferred_count {
            DrawStep {
                action: DrawAction::DrawDeferred { index: step },
                hold: Some(DrawState::DeferWalk(step)),
                next: Some(DrawState::DeferWalk((step + 1) as usize)),
            }
        } else {
            DrawStep { action: DrawAction::Finish, hold: None, next: None }
        },
    }
}

/// What a view makes after values were applied to it.
#[derive(Clone, Copy, Debug, PartialEq, Eq, Structural)]
pub struct AfterApply {
    /// A draw list, for a view that caches and has none yet.
    pub create_draw_list: bool,
    /// Scroll bars from their template, for a view that names one and has
    /// none yet.
    pub create_scroll_bars: bool,
}

/// How a view starts drawing.
#[derive(Clone, Copy, Debug, PartialEq, Eq, Structural)]
pub enum DrawBegin {
    /// The view is hidden: nothing is drawn.
    Hidden,
    /// The texture the view cached is still good: it is drawn as it is.
    ReuseTexture,
    /// The draw list the view cached is still good: only its area is walked.
    ReuseDrawList,
    /// The children are drawn: into the view's texture pass first when
    /// `into_texture`, inside the background when `with_bg`.
    Begin { into_texture: bool, with_bg: bool },
}

/// How a view starts drawing, given whether its cache would be redrawn.
pub open spec fn draw_begin_spec(m: ViewModel, will_redraw: bool) -> DrawBegin {
    if !m.visible {
        DrawBegin::Hidden
    } else if m.config.optimize == ViewOptimize::Texture && !will_redraw {
        DrawBegin::ReuseTexture
    } else if m.config.optimize == ViewOptimize::DrawList && !will_redraw {
        DrawBegin::ReuseDrawList
    } else {
        DrawBegin::Begin { into_texture: m.config.optimize == ViewOptimize::Texture, with_bg: m.config.show_bg }
    }
}

/// How a call to draw a view goes on: a drawing already under way (its
/// state held from a child that interrupted it) resumes where it stopped,
/// without starting again; otherwise the drawing starts.
#[derive(Clone, Copy, Debug, PartialEq, Eq, Structural)]
pub enum DrawEntry {
    /// Go on from this state: no visibility check, no new layout box.
    Resume(DrawState),
    /// Start the drawing this way; a drawing that begins goes on from
    /// `DrawState::Drawing(0, false)`.
    Start(DrawBegin),
}

/// How a call to draw a view goes on, given the state held from an
/// interrupted drawing, if any.
pub open spec fn draw_entry_spec(m: ViewModel, held: Option<DrawState>, will_redraw: bool) -> DrawEntry {
    match held {
        Some(s) => DrawEntry::Resume(s),
        None => DrawEntry::Start(draw_begin_spec(m, will_redraw)),
    }
}

/// How a view ends drawing once every child is drawn.
#[derive(Clone, Copy, Debug, PartialEq, Eq, Structural)]
pub struct DrawEnd {
    /// Close the background (else the plain layout box).
    pub with_bg: bool,
    /// Remember the drawn size and close the draw list.
    pub close_draw_list: bool,
    /// Close the texture pass.
    pub end_pass: bool,
}

impl View {
    /// Prepares for values from the live document: an update from the
    /// document forgets the draw order and the search cache.
    pub fn before_apply(&mut self, from: ApplyFrom)
        requires
            old(self).wf(),
        ensures
            final(self).wf(),
            from is UpdateFromDoc ==> final(self).model() == (ViewModel {
                draw_order: Seq::empty(),
                find_cache: Map::empty(),
                ..old(self).model()
            }),
            !(from is UpdateFromDoc) ==> final(self).model() == old(self).model(),
    {
        if let ApplyFrom::UpdateFromDoc { .. } = from {
            self.draw_order.clear();
            self.find_cache.clear();
            assert(cache_view(self.find_cache@) =~= Map::<u64, Seq<WidgetUid>>::empty());
            assert(self.model() =~= (ViewModel {
                draw_order: Seq::empty(),
                find_cache: Map::empty(),
                ..old(self).model()
            }));
        }
    }

    /// Decides what becomes of a value node `id` applied to the view.  Nodes
    /// of animations and overrides go to an existing child.  Nodes from the
    /// document that are widget instances are added to the draw order and go
    /// to the child `id`, created if needed; other nodes from the document
    /// name no field.
    pub fn apply_value_instance(&mut self, from: ApplyFrom, id: LiveId, is_instance: bool) -> (r: InstancePlan)
        requires
            old(self).wf(),
        ensures
            final(self).wf(),
            (from is Animate || from is ApplyOver) ==> final(self).model() == old(self).model() && r == (match child_index(old(self).model().children, id) {
                Some(i) => InstancePlan::ApplyToChild(old(self).model().children[i].widget),
                None => InstancePlan::Skip,
            }),
            (from is NewFromDoc || from is UpdateFromDoc) && is_instance ==> (r matches InstancePlan::ApplyToChild(w)
                && appended_child(old(self).model(), final(self).model(), id, None, w)),
            (from is NewFromDoc || from is UpdateFromDoc) && !is_instance ==> final(self).model() == old(self).model() && r == InstancePlan::NoMatchingField,
            (from is New || from is ApplyClear) ==> final(self).model() == old(self).model() && r == InstancePlan::Skip,
    {
        match from {
            ApplyFrom::Animate | ApplyFrom::ApplyOver => {
                match self.find_child(id) {
                    Some(i) => {
                        let ghost m = self.model();
                        assert(child_index(m.children, id) == Some(i as int)) by {
                            let j = choose|j: int| 0 <= j < m.children.len() && m.children[j].id == id;
                            assert(j == i);
                        }
                        InstancePlan::ApplyToChild(self.children[i].widget)
                    },
                    None => InstancePlan::Skip,
                }
            },
            ApplyFrom::NewFromDoc { .. } | ApplyFrom::UpdateFromDoc { .. } => {
                if is_instance {
                    let w = self.append_child(id, None);
                    InstancePlan::ApplyToChild(w)
                } else {
                    InstancePlan::NoMatchingField
                }
            },
            _ => InstancePlan::Skip,
        }
    }

    /// The child `id`, if the view has one.
    pub fn child(&self, id: LiveId) -> (r: Option<WidgetRef>)
        requires
            self.wf(),
        ensures
            r == (match child_index(self.model().children, id) {
                Some(i) => Some(self.model().children[i].widget),
                None => None::<WidgetRef>,
            }),
    {
        match self.find_child(id) {
            Some(i) => {
                let ghost m = self.model();
                assert(child_index(m.children, id) == Some(i as int)) by {
                    let j = choose|j: int| 0 <= j < m.children.len() && m.children[j].id == id;
                    assert(j == i);
                }
                Some(self.children[i].widget)
            },
            None => None,
        }
    }

    /// How a search for the widgets at `path` starts.  With the cache in
    /// use (`Yes`, or `Clear` after emptying it), a cached result for the
    /// path's key is given back; otherwise the children are to be searched.
    pub fn find_start(&mut self, path: &Vec<LiveId>, cached: WidgetCache) -> (r: FindStart)
        requires
            old(self).wf(),
        ensures
            final(self).wf(),
            cached is Clear ==> final(self).model() == (ViewModel { find_cache: Map::empty(), ..old(self).model() }),
            !(cached is Clear) ==> final(self).model() == old(self).model(),
            cached is No ==> r == (FindStart::Search { cache_key: None }),
            !(cached is No) ==> (match r {
                FindStart::Cached(v) => final(self).model().find_cache.contains_key(path_hash_spec(path@))
                    && v@ == final(self).model().find_cache[path_hash_spec(path@)],
                FindStart::Search { cache_key } => cache_key == Some(path_hash_spec(path@))
                    && !final(self).model().find_cache.contains_key(path_hash_spec(path@)),
            }),
    {
        match cached {
            WidgetCache::No => FindStart::Search { cache_key: None },
            _ => {
                if let WidgetCache::Clear = cached {
                    self.find_cache.clear();
                    assert(cache_view(self.find_cache@) =~= Map::<u64, Seq<WidgetUid>>::empty());
                    assert(self.model() =~= (ViewModel { find_cache: Map::empty(), ..old(self).model() }));
                }
                let hash = path_hash(path);
                match self.find_cache.get(&hash) {
                    Some(v) => {
                        let c = v.clone();
                        assert(c@ =~= v@);
                        FindStart::Cached(c)
                    },
                    None => FindStart::Search { cache_key: Some(hash) },
                }
            },
        }
    }

    /// The search for the widgets at `path` below the view (see
    /// `find_tasks_spec`), for a path of at least one id.
    pub fn find_tasks(&self, path: &Vec<LiveId>) -> (r: Vec<FindTask>)
        requires
            self.wf(),
            path@.len() >= 1,
        ensures
            r@.map_values(|t: FindTask| task_view(t)) == find_tasks_spec(self.model().children, path@),
    {
        let ghost m = self.model();
        let mut out: Vec<FindTask> = Vec::new();
        match self.find_child(path[0]) {
            Some(i) => {
                assert(child_index(m.children, path@[0]) == Some(i as int)) by {
                    let j = choose|j: int| 0 <= j < m.children.len() && m.children[j].id == path@[0];
                    assert(j == i);
                }
                if path.len() > 1 {
                    let mut rest: Vec<LiveId> = Vec::new();
                    let mut k: usize = 1;
                    while k < path.len()
                        invariant
                            1 <= k <= path@.len(),
                            rest@ == path@.subrange(1, k as int),
                        decreases path@.len() - k,
                    {
                        rest.push(path[k]);
                        assert(rest@ =~= path@.subrange(1, k + 1));
                        k = k + 1;
                    }
                    assert(rest@ =~= path@.drop_first());
                    out.push(FindTask::Search(self.children[i].widget, rest));
                } else {
                    out.push(FindTask::Found(self.children[i].widget));
                }
            },
            None => {},
        }
        let ghost first = out@.map_values(|t: FindTask| task_view(t));
        let ghost all = m.children.map_values(|c: ChildWidget| FindTaskView::Search(c.widget, path@));
        assert(first + all.take(0) =~= first);
        let mut j: usize = 0;
        while j < self.children.len()
            invariant
                j <= self.children@.len(),
                m == self.model(),
                all == m.children.map_values(|c: ChildWidget| FindTaskView::Search(c.widget, path@)),
                out@.map_values(|t: FindTask| task_view(t)) == first + all.take(j as int),
            decreases self.children@.len() - j,
        {
            let p = path.clone();
            assert(p@ =~= path@);
            let ghost before = out@;
            out.push(FindTask::Search(self.children[j].widget, p));
            assert(out@.map_values(|t: FindTask| task_view(t)) =~= before.map_values(|t: FindTask| task_view(t)).push(all[j as int]));
            assert(all.take(j + 1) =~= all.take(j as int).push(all[j as int]));
            assert(first + all.take(j + 1) =~= (first + all.take(j as int)).push(all[j as int]));
            j = j + 1;
        }
        assert(all.take(self.children@.len() as int) =~= all);
        proof {
            let fs = find_tasks_spec(m.children, path@);
            assert(fs == first + all);
        }
        out
    }

    /// Remembers the widgets found for a path under its cache key.
    pub fn store_found(&mut self, cache_key: u64, found: Vec<WidgetUid>)
        requires
            old(self).wf(),
        ensures
            final(self).wf(),
            final(self).model() == (ViewModel {
                find_cache: old(self).model().find_cache.insert(cache_key, found@),
                ..old(self).model()
            }),
    {
        let ghost f = found@;
        self.find_cache.insert(cache_key, found);
        assert(cache_view(self.find_cache@) =~= cache_view(old(self).find_cache@).insert(cache_key, f));
        assert(self.model() =~= (ViewModel {
            find_cache: old(self).model().find_cache.insert(cache_key, f),
            ..old(self).model()
        }));
    }

    /// A signal event stops at a view that blocks signals.
    pub fn blocks_event(&self, is_signal: bool) -> (r: bool)
        ensures
            r == (self.model().config.block_signal_event && is_signal),
    {
        self.config.block_signal_event && is_signal
    }

    fn ordered_ids(&self) -> (r: Vec<LiveId>)
        ensures
            r@ == event_order_ids(self.model().config.event_order, self.model().draw_order),
    {
        match &self.config.event_order {
            EventOrder::Down => {
                let r = self.draw_order.clone();
                assert(r@ =~= self.draw_order@);
                r
            },
            EventOrder::List(l) => {
                let r = l.clone();
                assert(r@ =~= l@);
                r
            },
            EventOrder::Up => {
                let n = self.draw_order.len();
                let mut r: Vec<LiveId> = Vec::new();
                let mut i: usize = 0;
                while i < n
                    invariant
                        n == self.draw_order@.len(),
                        i <= n,
                        r@ == Seq::new(i as nat, |k: int| self.draw_order@[n - 1 - k]),
                    decreases n - i,
                {
                    r.push(self.draw_order[n - 1 - i]);
                    assert(r@ =~= Seq::new((i + 1) as nat, |k: int| self.draw_order@[n - 1 - k]));
                    i = i + 1;
                }
                assert(r@ =~= self.draw_order@.reverse());
                r
            },
        }
    }

    /// The ids of the children to hand an event to, in order: the ids of the
    /// event order that name a child.
    pub fn event_targets(&self) -> (r: Vec<LiveId>)
        requires
            self.wf(),
        ensures
            r@ == event_order_ids(self.model().config.event_order, self.model().draw_order).filter(
                is_child(self.model().children),
            ),
    {
        broadcast use Seq::lemma_filter_push;
        let ids = self.ordered_ids();
        let ghost p = is_child(self.model().children);
        let mut out: Vec<LiveId> = Vec::new();
        let mut i: usize = 0;
        assert(ids@.take(0).filter(p) =~= Seq::<LiveId>::empty()) by {
            reveal(Seq::filter);
        }
        while i < ids.len()
            invariant
                i <= ids@.len(),
                self.wf(),
                p == is_child(self.model().children),
                out@ == ids@.take(i as int).filter(p),
            decreases ids@.len() - i,
        {
            assert(ids@.take(i + 1) =~= ids@.take(i as int).push(ids@[i as int]));
            proof {
                ids@.take(i as int).lemma_filter_push(ids@[i as int], p);
            }
            let id = ids[i];
            match self.find_child(id) {
                Some(j) => {
                    assert(self.model().children[j as int].id == id);
                    assert(p(id));
                    out.push(id);
                },
                None => {
                    assert(!p(id));
                },
            }
            i = i + 1;
        }
        assert(ids@.take(ids@.len() as int) =~= ids@);
        out
    }

    /// Answers a hit on the view's own area.  A view that reacts to hits
    /// reports finger and key events as actions of `uid`, takes the key focus
    /// on a press when it grabs focus, shows its cursor on hover, and plays
    /// its press and hover animations when it has an animator.
    pub fn handle_hit(&mut self, cx: &mut Cx, hit: Hit, uid: WidgetUid, states: &ViewHitStates) -> (r: Option<WidgetActionItem>)
        requires
            old(self).wf(),
        ensures
            final(self).wf(),
            final(self).model() == model_after_hit(old(self).model(), hit, *states),
            r == (if reacts_to_hits(old(self).model()) {
                match hit_action(hit) {
                    Some(a) => Some(WidgetActionItem { widget_uid: uid, action: a }),
                    None => None::<WidgetActionItem>,
                }
            } else {
                None::<WidgetActionItem>
            }),
            r matches Some(item) ==> item.widget_uid == uid && reported_hit(item.action) == Some(hit),
            reacts_to_hits(old(self).model()) && is_reported_hit(hit) ==> r is Some,
            final(cx).redraws == old(cx).redraws,
            final(cx).key_focus == (if reacts_to_hits(old(self).model()) && hit is FingerDown
                && old(self).model().config.grab_key_focus {
                old(self).model().area
            } else {
                old(cx).key_focus
            }),
            final(cx).cursor == (if reacts_to_hits(old(self).model()) && hit is FingerHoverIn
                && old(self).model().config.cursor is Some {
                old(self).model().config.cursor
            } else {
                old(cx).cursor
            }),
    {
        if !(self.visible && self.config.cursor.is_some() || self.config.has_animator) {
            return None;
        }
        let has_animator = self.config.has_animator;
        match hit {
            Hit::FingerDown(e) => {
                if self.config.grab_key_focus {
                    cx.key_focus = self.area;
                }
                if has_animator {
                    self.animator_play(states.down_on.0, states.down_on.1);
                }
                Some(WidgetActionItem { widget_uid: uid, action: ViewAction::FingerDown(e) })
            },
            Hit::FingerMove(e) => Some(WidgetActionItem { widget_uid: uid, action: ViewAction::FingerMove(e) }),
            Hit::FingerUp(e) => {
                if has_animator {
                    self.animator_play(states.down_off.0, states.down_off.1);
                }
                Some(WidgetActionItem { widget_uid: uid, action: ViewAction::FingerUp(e) })
            },
            Hit::FingerHoverIn(_) => {
                if let Some(cursor) = self.config.cursor {
                    cx.cursor = Some(cursor);
                }
                if has_animator {
                    self.animator_play(states.hover_on.0, states.hover_on.1);
                }
                None
            },
            Hit::FingerHoverOut(_) => {
                if has_animator {
                    self.animator_play(states.hover_off.0, states.hover_off.1);
                }
                None
            },
            Hit::KeyDown(e) => Some(WidgetActionItem { widget_uid: uid, action: ViewAction::KeyDown(e) }),
            Hit::KeyUp(e) => Some(WidgetActionItem { widget_uid: uid, action: ViewAction::KeyUp(e) }),
            _ => None,
        }
    }

    /// What the view makes after values were applied: a draw list when it
    /// caches and has none yet (it then has one), and scroll bars from their
    /// template `scroll_bars`, when one is named and it has none yet.
    pub fn after_apply(&mut self, scroll_bars: Option<LivePtr>, has_scroll_bars: bool) -> (r: AfterApply)
        requires
            old(self).wf(),
        ensures
            final(self).wf(),
            r == (AfterApply {
                create_draw_list: old(self).model().config.optimize != ViewOptimize::Plain && !old(self).model().has_draw_list,
                create_scroll_bars: scroll_bars is Some && !has_scroll_bars,
            }),
            final(self).model() == (ViewModel {
                has_draw_list: old(self).model().has_draw_list || old(self).model().config.optimize != ViewOptimize::Plain,
                ..old(self).model()
            }),
    {
        let create_draw_list = self.config.optimize.needs_draw_list() && !self.draw_list;
        if create_draw_list {
            self.draw_list = true;
        }
        AfterApply { create_draw_list, create_scroll_bars: scroll_bars.is_some() && !has_scroll_bars }
    }

    /// How the view starts drawing; `will_redraw` tells whether its cached
    /// texture or draw list would be redrawn.  A visible caching view draws
    /// into the draw list that `after_apply` made for it; a hidden view
    /// touches nothing.
    pub fn draw_begin(&self, will_redraw: bool) -> (r: DrawBegin)
        requires
            self.model().visible && self.model().config.optimize != ViewOptimize::Plain ==> self.model().has_draw_list,
        ensures
            r == draw_begin_spec(self.model(), will_redraw),
            r matches DrawBegin::Begin { into_texture, with_bg } ==> with_bg == self.model().config.show_bg
                && into_texture == (self.model().config.optimize == ViewOptimize::Texture),
            !self.model().visible <==> r is Hidden,
    {
        if !self.visible {
            return DrawBegin::Hidden;
        }
        match self.config.optimize {
            ViewOptimize::Texture => {
                if !will_redraw {
                    DrawBegin::ReuseTexture
                } else {
                    DrawBegin::Begin { into_texture: true, with_bg: self.config.show_bg }
                }
            },
            ViewOptimize::DrawList => {
                if !will_redraw {
                    DrawBegin::ReuseDrawList
                } else {
                    DrawBegin::Begin { into_texture: false, with_bg: self.config.show_bg }
                }
            },
            ViewOptimize::Plain => DrawBegin::Begin { into_texture: false, with_bg: self.config.show_bg },
        }
    }

    /// How the view ends drawing.  A view may not both show a background and
    /// cache in a texture, and a caching view closes the draw list that
    /// `after_apply` made for it.
    pub fn draw_end(&self) -> (r: DrawEnd)
        requires
            !(self.model().config.show_bg && self.model().config.optimize == ViewOptimize::Texture),
            self.model().config.optimize != ViewOptimize::Plain ==> self.model().has_draw_list,
        ensures
            r == (DrawEnd {
                with_bg: self.model().config.show_bg,
                close_draw_list: self.model().config.optimize != ViewOptimize::Plain,
                end_pass: self.model().config.optimize == ViewOptimize::Texture,
            }),
    {
        DrawEnd {
            with_bg: self.config.show_bg,
            close_draw_list: self.config.optimize.needs_draw_list(),
            end_pass: self.config.optimize.is_texture(),
        }
    }

    /// How a call to draw the view goes on (see `draw_entry_spec`): the state
    /// `held` from an interrupted drawing resumes it; without one the drawing
    /// starts as `draw_begin` says.
    pub fn draw_entry(&self, held: Option<DrawState>, will_redraw: bool) -> (r: DrawEntry)
        requires
            held is None && self.model().visible && self.model().config.optimize != ViewOptimize::Plain
                ==> self.model().has_draw_list,
        ensures
            r == draw_entry_spec(self.model(), held, will_redraw),
    {
        match held {
            Some(s) => DrawEntry::Resume(s),
            None => DrawEntry::Start(self.draw_begin(will_redraw)),
        }
    }

    /// One step of drawing the view from `state` (see `draw_step_spec`).
    pub fn draw_step(&self, state: DrawState, child_visible: bool, walk_deferred: bool, deferred_count: usize) -> (r: DrawStep)
        requires
            self.wf(),
        ensures
            r == draw_step_spec(self.model(), state, child_visible, walk_deferred, deferred_count as nat),
    {
        match state {
            DrawState::Drawing(step, resume) => {
                if step < self.draw_order.len() {
                    let id = self.draw_order[step];
                    let next = Some(DrawState::Drawing(step + 1, false));
                    let exists = self.find_child(id).is_some();
                    proof {
                        let m = self.model();
                        if exists {
                            assert(child_index(m.children, id) is Some);
                        } else {
                            assert(!(exists|j: int| 0 <= j < m.children.len() && m.children[j].id == id));
                        }
                    }
                    if exists && child_visible {
                        if resume {
                            DrawStep { action: DrawAction::DrawChild { id }, hold: Some(DrawState::Drawing(step, true)), next }
                        } else if walk_deferred {
                            DrawStep { action: DrawAction::DeferChild { id }, hold: None, next }
                        } else {
                            DrawStep { action: DrawAction::DrawChild { id }, hold: Some(DrawState::Drawing(step, true)), next }
                        }
                    } else {
                        DrawStep { action: DrawAction::Skip, hold: None, next }
                    }
                } else {
                    DrawStep { action: DrawAction::StartDeferred, hold: None, next: Some(DrawState::DeferWalk(0)) }
                }
            },
            DrawState::DeferWalk(step) => {
                if step < deferred_count {
                    DrawStep {
                        action: DrawAction::DrawDeferred { index: step },
                        hold: Some(DrawState::DeferWalk(step)),
                        next: Some(DrawState::DeferWalk(step + 1)),
                    }
                } else {
                    DrawStep { action: DrawAction::Finish, hold: None, next: None }
                }
            },
        }
    }
}

/// Whether a handle shows its view: `false` when it holds none.
pub open spec fn opt_is_visible(o: Option<ViewModel>) -> bool {
    match o {
        Some(m) => m.visible,
        None => false,
    }
}

/// What showing or hiding a handle's view does is what reading its
/// visibility gives back, when the handle holds a view.
pub proof fn law_visible_reads_back(o: Option<ViewModel>, visible: bool)
    ensures
        opt_is_visible(opt_visible(o, visible)) == (o is Some && visible),
{
}

/// Showing or hiding a set reaches every handle: afterwards each one that
/// holds a view reads back the new visibility, and the others read `false`.
pub proof fn law_set_visible_reaches_all(before: ViewSet, after: ViewSet, visible: bool, i: int)
    requires
        before.each(after, |o: Option<ViewModel>| opt_visible(o, visible)),
        0 <= i < before.items@.len(),
    ensures
        opt_is_visible(after.items@[i].model()) == (before.items@[i].inner is Some && visible),
        after.items@[i].uid == before.items@[i].uid,
{
    assert(after.items@[i].uid == before.items@[i].uid);
    assert(after.items@[i].model() == opt_visible(before.items@[i].model(), visible));
    law_visible_reads_back(before.items@[i].model(), visible);
}

/// After a child is appended under `id`, the draw order is one longer, ends
/// with `id`, and the child `id` is the widget handed back.
pub proof fn law_append_child_reads_back(before: ViewModel, after: ViewModel, id: LiveId, ptr: Option<LivePtr>, w: WidgetRef)
    requires
        before.wf(),
        appended_child(before, after, id, ptr, w),
    ensures
        after.wf(),
        after.draw_order.len() == before.draw_order.len() + 1,
        after.draw_order.last() == id,
        child_index(after.children, id) matches Some(i) && after.children[i].widget == w,
{
    match child_index(before.children, id) {
        Some(i) => {
            assert(after.children == before.children);
        },
        None => {
            let n = before.children.len() as int;
            assert(after.children[n].id == id);
            let j = choose|j: int| 0 <= j < after.children.len() && after.children[j].id == id;
            if j != n {
                assert(before.children[j].id == id);
            }
            assert(j == n);
        },
    }
}

/// Appending a child never changes the widget already kept under another id.
pub proof fn law_append_child_keeps_others(before: ViewModel, after: ViewModel, id: LiveId, ptr: Option<LivePtr>, w: WidgetRef, other: LiveId)
    requires
        before.wf(),
        appended_child(before, after, id, ptr, w),
        other != id,
    ensures
        match child_index(before.children, other) {
            Some(i) => child_index(after.children, other) matches Some(k) && after.children[k] == before.children[i],
            None => child_index(after.children, other) is None,
        },
{
    match child_index(before.children, id) {
        Some(_) => {},
        None => {
            let n = before.children.len() as int;
            match child_index(before.children, other) {
                Some(i) => {
                    assert(after.children[i].id == other);
                    let k = choose|k: int| 0 <= k < after.children.len() && after.children[k].id == other;
                    assert(k != n);
                    assert(k == i);
                },
                None => {
                    if exists|k: int| 0 <= k < after.children.len() && after.children[k].id == other {
                        let k = choose|k: int| 0 <= k < after.children.len() && after.children[k].id == other;
                        assert(k != n);
                        assert(before.children[k].id == other);
                    }
                },
            }
        },
    }
}

/// Clearing the children leaves nothing to draw and no child to find.
pub proof fn law_cleared_is_empty(m: ViewModel, id: LiveId)
    ensures
        m.cleared().draw_order.len() == 0,
        child_index(m.cleared().children, id) is None,
        m.cleared().wf() == (m.textures.len() == TEXTURE_SLOTS),
{
}

/// A cut or a play sets the track's state, marking whether it animates, and
/// leaves every other track as it was.
pub proof fn law_animator_reads_back(m: ViewModel, track: LiveId, target: LiveId, other: u64)
    requires
        other != track.0,
    ensures
        m.cut(track, target).animator[track.0] == (AnimState { state: target, animating: false }),
        m.play(track, target).animator[track.0] == (AnimState { state: target, animating: true }),
        m.cut(track, target).animator.contains_key(other) == m.animator.contains_key(other),
        m.play(track, target).animator.contains_key(other) == m.animator.contains_key(other),
        m.animator.contains_key(other) ==> m.cut(track, target).animator[other] == m.animator[other]
            && m.play(track, target).animator[other] == m.animator[other],
{
}

/// What is stored for a path's key is what the next cached search for that
/// path, or for any reordering of it, finds.
pub proof fn law_found_reads_back(m: ViewModel, path: Seq<LiveId>, a: Seq<LiveId>, b: Seq<LiveId>, found: Seq<WidgetUid>)
    requires
        path == a + b,
    ensures
        ({
            let after = ViewModel { find_cache: m.find_cache.insert(path_hash_spec(path), found), ..m };
            &&& after.find_cache.contains_key(path_hash_spec(b + a))
            &&& after.find_cache[path_hash_spec(b + a)] == found
        }),
{
    law_path_hash_swap(a, b);
}

/// The children an event goes to are children of the view, in the event
/// order, each as often as the order names it.
pub proof fn law_event_targets_are_children(m: ViewModel, i: int)
    requires
        0 <= i < event_order_ids(m.config.event_order, m.draw_order).filter(is_child(m.children)).len(),
    ensures
        child_index(m.children, event_order_ids(m.config.event_order, m.draw_order).filter(is_child(m.children))[i]) is Some,
{
    let s = event_order_ids(m.config.event_order, m.draw_order);
    s.lemma_filter_pred(is_child(m.children), i);
}

/// How far drawing has come: the steps of the draw order first, then those
/// of the deferred walks.
pub open spec fn draw_rank(m: ViewModel, state: DrawState) -> int {
    match state {
        DrawState::Drawing(step, _) => step as int,
        DrawState::DeferWalk(step) => m.draw_order.len() + 1 + step,
    }
}

/// A state drawing can be in: a step no further than the end of the draw
/// order, or of the deferred walks.
pub open spec fn draw_state_valid(m: ViewModel, state: DrawState, deferred_count: nat) -> bool {
    match state {
        DrawState::Drawing(step, _) => step <= m.draw_order.len(),
        DrawState::DeferWalk(step) => step <= deferred_count,
    }
}

/// Drawing always moves on: each step leads to a later valid state or ends,
/// and it ends only after the last deferred walk, so a view draws in at most
/// `draw_order.len() + 1 + deferred_count` steps.  A child whose drawing is
/// interrupted is resumed at its own step.
pub proof fn law_draw_progress(
    m: ViewModel,
    state: DrawState,
    child_visible: bool,
    walk_deferred: bool,
    deferred_count: usize,
)
    requires
        draw_state_valid(m, state, deferred_count as nat),
        m.draw_order.len() < usize::MAX,
    ensures
        ({
            let s = draw_step_spec(m, state, child_visible, walk_deferred, deferred_count as nat);
            &&& match s.next {
                Some(n) => draw_state_valid(m, n, deferred_count as nat) && draw_rank(m, n) == draw_rank(m, state) + 1,
                None => state == DrawState::DeferWalk(deferred_count),
            }
            &&& draw_rank(m, state) <= m.draw_order.len() + 1 + deferred_count
            &&& (s.hold matches Some(h) ==> draw_rank(m, h) == draw_rank(m, state) && draw_state_valid(m, h, deferred_count as nat))
        }),
{
}

/// A drawing interrupted by a child resumes at that child: the call that
/// goes on from the held state skips the start (no visibility check, no new
/// layout box), draws the same child again, and then goes on with the
/// children after it; no child before it is drawn again, since every later
/// step is further on (`law_draw_progress`).
pub proof fn law_resume_at_interrupted_child(
    m: ViewModel,
    state: DrawState,
    child_visible: bool,
    walk_deferred: bool,
    deferred_count: usize,
    will_redraw: bool,
)
    requires
        m.draw_order.len() < usize::MAX,
        draw_step_spec(m, state, child_visible, walk_deferred, deferred_count as nat).action is DrawChild,
    ensures
        ({
            let s = draw_step_spec(m, state, child_visible, walk_deferred, deferred_count as nat);
            let h = s.hold.unwrap();
            &&& s.hold is Some
            &&& draw_entry_spec(m, s.hold, will_redraw) == DrawEntry::Resume(h)
            &&& draw_step_spec(m, h, child_visible, walk_deferred, deferred_count as nat).action == s.action
            &&& draw_step_spec(m, h, child_visible, walk_deferred, deferred_count as nat).next == s.next
            &&& draw_rank(m, h) == draw_rank(m, state)
            &&& s.next matches Some(n) && draw_rank(m, n) == draw_rank(m, state) + 1
        }),
{
}

/// The actions of `k` steps of drawing from `state`, with no child
/// interrupting: at step `i` of the draw order the child is visible when
/// `vis(i)` and its walk is deferred when `defer(i)`; `deferred_count`
/// walks are deferred in all.
pub open spec fn draw_trace(
    m: ViewModel,
    state: DrawState,
    vis: spec_fn(nat) -> bool,
    defer: spec_fn(nat) -> bool,
    deferred_count: usize,
    k: nat,
) -> Seq<DrawAction>
    decreases k,
{
    if k == 0 {
        Seq::empty()
    } else {
        let (cv, wd) = match state {
            DrawState::Drawing(step, _) => (vis(step as nat), defer(step as nat)),
            DrawState::DeferWalk(_) => (false, false),
        };
        let st = draw_step_spec(m, state, cv, wd, deferred_count as nat);
        match st.next {
            Some(n) => seq![st.action] + draw_trace(m, n, vis, defer, deferred_count, (k - 1) as nat),
            None => seq![st.action],
        }
    }
}

/// What drawing does at step `i` of the draw order: draws the child there,
/// or keeps it for later when its walk is deferred, when the view has that
/// child and it is visible; skips the step otherwise.
pub open spec fn order_action(m: ViewModel, i: int, vis: spec_fn(nat) -> bool, defer: spec_fn(nat) -> bool) -> DrawAction {
    let id = m.draw_order[i];
    if child_index(m.children, id) is Some && vis(i as nat) {
        if defer(i as nat) {
            DrawAction::DeferChild { id }
        } else {
            DrawAction::DrawChild { id }
        }
    } else {
        DrawAction::Skip
    }
}

/// The actions of a whole drawing from step `from` of the draw order on.
pub open spec fn drawing_from(
    m: ViewModel,
    from: int,
    vis: spec_fn(nat) -> bool,
    defer: spec_fn(nat) -> bool,
    deferred_count: usize,
) -> Seq<DrawAction> {
    Seq::new((m.draw_order.len() - from) as nat, |i: int| order_action(m, from + i, vis, defer))
        + seq![DrawAction::StartDeferred]
        + deferred_from(0, deferred_count)
}

/// The deferred walks from `from` on, then the end.
pub open spec fn deferred_from(from: int, deferred_count: usize) -> Seq<DrawAction> {
    Seq::new((deferred_count - from) as nat, |i: int| DrawAction::DrawDeferred { index: (from + i) as usize })
        + seq![DrawAction::Finish]
}

proof fn lemma_deferred_trace(
    m: ViewModel,
    j: usize,
    vis: spec_fn(nat) -> bool,
    defer: spec_fn(nat) -> bool,
    deferred_count: usize,
)
    requires
        j <= deferred_count,
    ensures
        draw_trace(m, DrawState::DeferWalk(j), vis, defer, deferred_count, (deferred_count - j + 1) as nat)
            == deferred_from(j as int, deferred_count),
    decreases deferred_count - j,
{
    let k = (deferred_count - j + 1) as nat;
    if j < deferred_count {
        lemma_deferred_trace(m, (j + 1) as usize, vis, defer, deferred_count);
        assert(((k - 1) as nat) == (deferred_count - (j + 1) + 1) as nat);
        assert(deferred_from(j as int, deferred_count) =~= seq![DrawAction::DrawDeferred { index: j }]
            + deferred_from(j + 1, deferred_count));
    } else {
        assert(deferred_from(j as int, deferred_count) =~= seq![DrawAction::Finish]);
    }
}

proof fn lemma_drawing_trace(
    m: ViewModel,
    step: usize,
    vis: spec_fn(nat) -> bool,
    defer: spec_fn(nat) -> bool,
    deferred_count: usize,
)
    requires
        step <= m.draw_order.len(),
        m.draw_order.len() < usize::MAX,
    ensures
        draw_trace(m, DrawState::Drawing(step, false), vis, defer, deferred_count,
            (m.draw_order.len() - step + deferred_count + 2) as nat)
            == drawing_from(m, step as int, vis, defer, deferred_count),
    decreases m.draw_order.len() - step,
{
    let len = m.draw_order.len();
    let k = (len - step + deferred_count + 2) as nat;
    if step < len {
        lemma_drawing_trace(m, (step + 1) as usize, vis, defer, deferred_count);
        assert(((k - 1) as nat) == (len - (step + 1) + deferred_count + 2) as nat);
        assert(drawing_from(m, step as int, vis, defer, deferred_count) =~= seq![order_action(m, step as int, vis, defer)]
            + drawing_from(m, step + 1, vis, defer, deferred_count));
    } else {
        lemma_deferred_trace(m, 0, vis, defer, deferred_count);
        assert(((k - 1) as nat) == (deferred_count - 0 + 1) as nat);
        assert(drawing_from(m, step as int, vis, defer, deferred_count) =~= seq![DrawAction::StartDeferred]
            + deferred_from(0, deferred_count));
    }
}

/// A drawing that no child interrupts takes the steps of the draw order in
/// turn, drawing each visible child the view has (or keeping it for later
/// when its walk is deferred) and skipping the others, then draws the
/// deferred walks in the order they were kept, then ends: every visible
/// child is handled exactly once, at its place in the draw order.
pub proof fn law_draw_run(
    m: ViewModel,
    vis: spec_fn(nat) -> bool,
    defer: spec_fn(nat) -> bool,
    deferred_count: usize,
)
    requires
        m.draw_order.len() < usize::MAX,
    ensures
        draw_trace(m, DrawState::Drawing(0, false), vis, defer, deferred_count,
            (m.draw_order.len() + deferred_count + 2) as nat)
            == drawing_from(m, 0, vis, defer, deferred_count),
{
    lemma_drawing_trace(m, 0, vis, defer, deferred_count);
}

/// A view reports exactly the finger and key hits, each as the action of
/// the same kind carrying the same event: the hit an action reports is the
/// hit it was made from (a key release is never reported as a press).
pub proof fn law_hit_action_reports_the_hit(hit: Hit)
    ensures
        hit_action(hit) is Some <==> is_reported_hit(hit),
        hit_action(hit) matches Some(a) ==> reported_hit(a) == Some(hit),
{
}

/// Drawing that begins opens the view's background exactly when the view
/// shows one, whatever it caches in, so the background `draw_end` closes is
/// the one that was opened; it draws into a texture pass exactly when the
/// view caches in a texture; and only a hidden view draws nothing.
pub proof fn law_draw_begin_opens_background(m: ViewModel, will_redraw: bool)
    ensures
        draw_begin_spec(m, will_redraw) matches DrawBegin::Begin { into_texture, with_bg }
            ==> with_bg == m.config.show_bg && into_texture == (m.config.optimize == ViewOptimize::Texture),
        draw_begin_spec(m, will_redraw) is Hidden <==> !m.visible,
        m.visible && (will_redraw || m.config.optimize == ViewOptimize::Plain) ==> draw_begin_spec(m, will_redraw) is Begin,
{
}

} // verus!
