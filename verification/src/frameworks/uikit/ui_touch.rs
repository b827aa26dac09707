//! `UITouch`.
//!
//! Messages to views and windows are sent by the host: where the handling of a
//! touch depends on their answers, it stops with an [Action] and goes on with
//! a [Reply].
use crate::environment::{EnvState, Environment};
use crate::frameworks::uikit::touch_target;
use crate::frameworks::uikit::touch_target::ViewTree;
use crate::objc::classes::{id, nil};
use crate::objc::names::Name;
use std::collections::HashMap;
use vstd::prelude::*;

verus! {

broadcast use vstd::std_specs::hash::group_hash_axioms;

pub type UITouchPhase = i32;

pub const UITouchPhaseBegan: UITouchPhase = 0;

pub const UITouchPhaseMoved: UITouchPhase = 1;

pub const UITouchPhaseStationary: UITouchPhase = 2;

pub const UITouchPhaseEnded: UITouchPhase = 3;

/// What the host calls a finger.
pub type FingerId = u64;

/// A point, by the bit patterns of its coordinates in single precision.
#[derive(Clone, Copy, PartialEq, Eq, Structural, Debug)]
pub struct Point {
    pub x: u32,
    pub y: u32,
}

/// Whether this is the bit pattern of something that is not a number.
pub open spec fn is_nan(bits: u32) -> bool {
    bits % 0x8000_0000 > 0x7F80_0000
}

/// Whether two bit patterns are of equal numbers. Zero has two of them, and
/// what is not a number equals nothing.
pub open spec fn same_number(a: u32, b: u32) -> bool {
    !is_nan(a) && !is_nan(b) && (a == b || (a % 0x8000_0000 == 0 && b % 0x8000_0000 == 0))
}

/// Whether two points are equal.
pub open spec fn same_point(a: Point, b: Point) -> bool {
    same_number(a.x, b.x) && same_number(a.y, b.y)
}

fn equal_numbers(a: u32, b: u32) -> (r: bool)
    ensures
        r == same_number(a, b),
{
    let a0: u32 = a % 0x8000_0000;
    let b0: u32 = b % 0x8000_0000;
    a0 <= 0x7F80_0000 && b0 <= 0x7F80_0000 && (a == b || (a0 == 0 && b0 == 0))
}

fn equal_points(a: Point, b: Point) -> (r: bool)
    ensures
        r == same_point(a, b),
{
    equal_numbers(a.x, b.x) && equal_numbers(a.y, b.y)
}

/// A touch.
#[derive(Clone, Copy, PartialEq, Eq, Structural, Debug)]
pub struct Touch {
    pub view: id,
    pub window: id,
    pub location: Point,
    pub previous_location: Point,
    /// Where this touch first landed (in window/screen coordinates).
    pub start_location: Point,
    /// When it was last changed, by the bit pattern in double precision.
    pub timestamp: u64,
    pub phase: UITouchPhase,
}

/// A touch that has nothing set.
pub open spec fn blank_touch() -> Touch {
    let origin = Point { x: 0, y: 0 };
    Touch {
        view: nil,
        window: nil,
        location: origin,
        previous_location: origin,
        start_location: origin,
        timestamp: 0,
        phase: UITouchPhaseBegan,
    }
}

/// A finger and where it is.
#[derive(Clone, Copy, PartialEq, Eq, Structural, Debug)]
pub struct Finger {
    pub id: FingerId,
    pub coords: Point,
}

/// A finger and the touch that it makes.
#[derive(Clone, Copy, PartialEq, Eq, Structural, Debug)]
pub struct CurrentTouch {
    pub finger: FingerId,
    pub touch: id,
}

/// The touches that are there, the oldest first, and the objects of all
/// touches.
pub struct State {
    pub current_touches: Vec<CurrentTouch>,
    pub touches: HashMap<id, Touch>,
}

/// The model of a [State].
#[verifier::ext_equal]
pub struct TouchState {
    pub current: Seq<CurrentTouch>,
    pub touches: Map<id, Touch>,
}

impl View for State {
    type V = TouchState;

    open spec fn view(&self) -> TouchState {
        TouchState { current: self.current_touches@, touches: self.touches@ }
    }
}

impl Default for State {
    fn default() -> (state: State)
        ensures
            state@ == (TouchState { current: seq![], touches: Map::empty() }),
    {
        let state = State { current_touches: Vec::new(), touches: HashMap::new() };
        proof {
            assert(state@ =~= (TouchState { current: seq![], touches: Map::empty() }));
        }
        state
    }
}

/// The touch that a finger makes.
pub open spec fn touch_of(current: Seq<CurrentTouch>, finger: FingerId) -> Option<id>
    decreases current.len(),
{
    if current.len() == 0 {
        None
    } else if current.last().finger == finger {
        Some(current.last().touch)
    } else {
        touch_of(current.drop_last(), finger)
    }
}

/// The touches without that of a finger.
pub open spec fn without(current: Seq<CurrentTouch>, finger: FingerId) -> Seq<CurrentTouch>
    decreases current.len(),
{
    if current.len() == 0 {
        seq![]
    } else if current.last().finger == finger {
        without(current.drop_last(), finger)
    } else {
        without(current.drop_last(), finger).push(current.last())
    }
}

/// The objects of these touches.
pub open spec fn touch_ids(current: Seq<CurrentTouch>) -> Seq<id> {
    Seq::new(current.len(), |i: int| current[i].touch)
}

impl TouchState {
    /// The touch with this object; a blank one if there is none.
    pub open spec fn touch(self, t: id) -> Touch {
        if self.touches.contains_key(t) {
            self.touches[t]
        } else {
            blank_touch()
        }
    }

    /// The touches with one of them changed, if there is one with this object.
    pub open spec fn with_touch(self, t: id, touch: Touch) -> TouchState {
        if self.touches.contains_key(t) {
            TouchState { touches: self.touches.insert(t, touch), ..self }
        } else {
            self
        }
    }

    /// The touches with a new one, which a finger makes.
    pub open spec fn with_new_touch(self, finger: FingerId, t: id, touch: Touch) -> TouchState {
        TouchState {
            current: self.current.push(CurrentTouch { finger, touch: t }),
            touches: self.touches.insert(t, touch),
        }
    }

    /// The touches without that of a finger. Its object remains.
    pub open spec fn removed(self, finger: FingerId) -> TouchState {
        TouchState { current: without(self.current, finger), ..self }
    }

    /// The touches with the first `n` of those that are there stationary.
    pub open spec fn stationary(self, n: nat) -> TouchState
        decreases n,
    {
        if n == 0 {
            self
        } else {
            let s = self.stationary((n - 1) as nat);
            let t = self.current[n - 1].touch;
            s.with_touch(t, Touch { phase: UITouchPhaseStationary, ..s.touch(t) })
        }
    }
}

impl State {
    /// The touch that a finger makes.
    pub fn current_touch(&self, finger: FingerId) -> (r: Option<id>)
        ensures
            r == touch_of(self@.current, finger),
    {
        let mut i: usize = self.current_touches.len();
        let ghost all = self@.current;
        proof {
            assert(all.take(i as int) =~= all);
        }
        while i > 0
            invariant
                i <= all.len(),
                all == self.current_touches@,
                touch_of(all.take(i as int), finger) == touch_of(all, finger),
            decreases i,
        {
            let c: CurrentTouch = self.current_touches[i - 1];
            if c.finger == finger {
                return Some(c.touch);
            }
            proof {
                assert(all.take(i as int).drop_last() =~= all.take(i - 1));
            }
            i -= 1;
        }
        None
    }

    /// The touch with this object.
    pub fn touch(&self, t: id) -> (touch: Touch)
        ensures
            touch == self@.touch(t),
    {
        match self.touches.get(&t) {
            Some(touch) => *touch,
            None => {
                let origin: Point = Point { x: 0, y: 0 };
                Touch {
                    view: nil,
                    window: nil,
                    location: origin,
                    previous_location: origin,
                    start_location: origin,
                    timestamp: 0,
                    phase: UITouchPhaseBegan,
                }
            },
        }
    }

    /// Changes a touch.
    fn set_touch(&mut self, t: id, touch: Touch)
        ensures
            final(self)@ == old(self)@.with_touch(t, touch),
    {
        if self.touches.contains_key(&t) {
            self.touches.insert(t, touch);
        }
    }

    /// Adds a touch.
    fn add_touch(&mut self, finger: FingerId, t: id, touch: Touch)
        ensures
            final(self)@ == old(self)@.with_new_touch(finger, t, touch),
    {
        self.current_touches.push(CurrentTouch { finger, touch: t });
        self.touches.insert(t, touch);
    }

    /// Removes the touch of a finger.
    fn remove_finger(&mut self, finger: FingerId)
        ensures
            final(self)@ == old(self)@.removed(finger),
    {
        let mut kept: Vec<CurrentTouch> = Vec::new();
        let n: usize = self.current_touches.len();
        let ghost all = self@.current;
        let mut i: usize = 0;
        proof {
            assert(all.take(0) =~= seq![]);
        }
        while i < n
            invariant
                i <= n,
                n == all.len(),
                all == self.current_touches@,
                *self == *old(self),
                kept@ == without(all.take(i as int), finger),
            decreases n - i,
        {
            let c: CurrentTouch = self.current_touches[i];
            if c.finger != finger {
                kept.push(c);
            }
            i += 1;
            proof {
                assert(all.take(i as int).drop_last() =~= all.take(i - 1));
            }
        }
        proof {
            assert(all.take(n as int) =~= all);
        }
        self.current_touches = kept;
    }

    /// The objects of the touches that are there.
    fn all_touches(&self) -> (r: Vec<id>)
        ensures
            r@ == touch_ids(self@.current),
    {
        let mut r: Vec<id> = Vec::new();
        let n: usize = self.current_touches.len();
        let mut i: usize = 0;
        while i < n
            invariant
                i <= n,
                n == self@.current.len(),
                r@ == touch_ids(self@.current).take(i as int),
            decreases n - i,
        {
            r.push(self.current_touches[i].touch);
            i += 1;
            proof {
                assert(r@ =~= touch_ids(self@.current).take(i as int));
            }
        }
        proof {
            assert(r@ =~= touch_ids(self@.current));
        }
        r
    }

    /// `[UITouch alloc]`, once the object is there.
    pub fn init_touch(&mut self, t: id)
        ensures
            final(self)@ == (TouchState {
                touches: old(self)@.touches.insert(t, blank_touch()),
                ..old(self)@
            }),
    {
        let origin: Point = Point { x: 0, y: 0 };
        self.touches.insert(
            t,
            Touch {
                view: nil,
                window: nil,
                location: origin,
                previous_location: origin,
                start_location: origin,
                timestamp: 0,
                phase: UITouchPhaseBegan,
            },
        );
    }

    /// `[UITouch dealloc]`. Gives the view and the window, which are to be
    /// released.
    pub fn dealloc_touch(&mut self, t: id) -> (r: (id, id))
        ensures
            r == (old(self)@.touch(t).view, old(self)@.touch(t).window),
            final(self)@ == (TouchState { touches: old(self)@.touches.remove(t), ..old(self)@ }),
    {
        let touch: Touch = self.touch(t);
        self.touches.remove(&t);
        (touch.view, touch.window)
    }

    /// Makes all touches that are there stationary.
    fn make_stationary(&mut self)
        ensures
            final(self)@ == old(self)@.stationary(old(self)@.current.len()),
    {
        let n: usize = self.current_touches.len();
        let mut i: usize = 0;
        while i < n
            invariant
                i <= n,
                n == old(self)@.current.len(),
                self@.current == old(self)@.current,
                self@ == old(self)@.stationary(i as nat),
            decreases n - i,
        {
            let t: id = self.current_touches[i].touch;
            let touch: Touch = self.touch(t);
            self.set_touch(t, Touch { phase: UITouchPhaseStationary, ..touch });
            i += 1;
        }
    }
}

/// The touches of an event that one view gets.
pub struct Group {
    pub view: id,
    pub touches: Vec<id>,
}

/// The model of a [Group].
#[verifier::ext_equal]
pub struct GroupView {
    pub view: id,
    pub touches: Seq<id>,
}

impl View for Group {
    type V = GroupView;

    open spec fn view(&self) -> GroupView {
        GroupView { view: self.view, touches: self.touches@ }
    }
}

/// The model of several groups.
pub open spec fn group_views(groups: Seq<Group>) -> Seq<GroupView> {
    Seq::new(groups.len(), |i: int| groups[i]@)
}

/// The index of the group of a view; the number of groups if it has none.
pub open spec fn group_index(groups: Seq<GroupView>, view: id) -> int
    decreases groups.len(),
{
    if groups.len() == 0 {
        0
    } else {
        let i = group_index(groups.drop_last(), view);
        if i < groups.len() - 1 || groups.last().view == view {
            i
        } else {
            groups.len() as int
        }
    }
}

/// Whether a view has a group.
pub open spec fn has_group(groups: Seq<GroupView>, view: id) -> bool {
    group_index(groups, view) < groups.len()
}

/// The groups with one more touch for a view.
pub open spec fn grouped(groups: Seq<GroupView>, view: id, t: id) -> Seq<GroupView> {
    let i = group_index(groups, view);
    if i < groups.len() {
        groups.update(i, GroupView { touches: groups[i].touches.push(t), ..groups[i] })
    } else {
        groups.push(GroupView { view, touches: seq![t] })
    }
}

/// A view is found at its index.
pub proof fn lemma_group_index(groups: Seq<GroupView>, view: id)
    ensures
        0 <= group_index(groups, view) <= groups.len(),
        group_index(groups, view) < groups.len() ==> groups[group_index(groups, view)].view == view,
        forall|i: int| 0 <= i < group_index(groups, view) ==> (#[trigger] groups[i]).view != view,
    decreases groups.len(),
{
    if groups.len() > 0 {
        lemma_group_index(groups.drop_last(), view);
        assert forall|i: int| 0 <= i < group_index(groups, view) implies (
        #[trigger] groups[i]).view != view by {
            if i < groups.len() - 1 {
                assert(groups.drop_last()[i].view != view);
            }
        }
    }
}

/// The index of the group of a view.
fn find_group(groups: &Vec<Group>, view: id) -> (i: usize)
    ensures
        i == group_index(group_views(groups@), view),
{
    let ghost e = group_views(groups@);
    proof {
        lemma_group_index(e, view);
    }
    let n: usize = groups.len();
    let mut i: usize = 0;
    while i < n && groups[i].view != view
        invariant
            i <= n,
            n == e.len(),
            e == group_views(groups@),
            forall|j: int| 0 <= j < i ==> (#[trigger] e[j]).view != view,
        decreases n - i,
    {
        proof {
            assert(e[i as int].view == groups@[i as int].view);
        }
        i += 1;
    }
    proof {
        let want = group_index(e, view);
        if i < want {
            assert(e[i as int].view != view);
        } else if want < i {
            assert(e[want].view != view);
        }
    }
    i
}

/// Adds a touch to the group of a view.
fn add_to_group(groups: &mut Vec<Group>, view: id, t: id)
    ensures
        group_views(final(groups)@) == grouped(group_views(old(groups)@), view, t),
{
    let i: usize = find_group(groups, view);
    proof {
        lemma_group_index(group_views(groups@), view);
    }
    if i < groups.len() {
        let mut g: Group = groups.remove(i);
        g.touches.push(t);
        groups.insert(i, g);
    } else {
        let mut touches: Vec<id> = Vec::new();
        touches.push(t);
        proof {
            assert(touches@ =~= seq![t]);
        }
        groups.push(Group { view, touches });
    }
    proof {
        assert(group_views(groups@) =~= grouped(group_views(old(groups)@), view, t));
    }
}

/// A copy of the groups.
fn copy_groups(groups: &Vec<Group>) -> (r: Vec<Group>)
    ensures
        group_views(r@) == group_views(groups@),
{
    let mut r: Vec<Group> = Vec::new();
    let n: usize = groups.len();
    let mut i: usize = 0;
    while i < n
        invariant
            i <= n,
            n == groups@.len(),
            r@.len() == i,
            forall|j: int| 0 <= j < i ==> (#[trigger] r@[j])@ == groups@[j]@,
        decreases n - i,
    {
        let mut touches: Vec<id> = Vec::new();
        let m: usize = groups[i].touches.len();
        let mut k: usize = 0;
        while k < m
            invariant
                i < n,
                n == groups@.len(),
                k <= m,
                m == groups@[i as int].touches@.len(),
                touches@ == groups@[i as int].touches@.take(k as int),
            decreases m - k,
        {
            touches.push(groups[i].touches[k]);
            k += 1;
            proof {
                assert(touches@ =~= groups@[i as int].touches@.take(k as int));
            }
        }
        proof {
            assert(touches@ =~= groups@[i as int].touches@);
        }
        r.push(Group { view: groups[i].view, touches });
        i += 1;
    }
    proof {
        assert(group_views(r@) =~= group_views(groups@));
    }
    r
}

/// An event that the host has to deliver: an event object for all touches is to
/// be made, the released touches are to be released, and then each view is to
/// get its touches.
pub struct Delivery {
    pub phase: UITouchPhase,
    pub groups: Vec<Group>,
    pub all_touches: Vec<id>,
    pub released: Vec<id>,
}

/// The model of a [Delivery].
#[verifier::ext_equal]
pub struct DeliveryView {
    pub phase: UITouchPhase,
    pub groups: Seq<GroupView>,
    pub all_touches: Seq<id>,
    pub released: Seq<id>,
}

impl View for Delivery {
    type V = DeliveryView;

    open spec fn view(&self) -> DeliveryView {
        DeliveryView {
            phase: self.phase,
            groups: group_views(self.groups@),
            all_touches: self.all_touches@,
            released: self.released@,
        }
    }
}

/// The state while the fingers of an event are gone through.
#[verifier::ext_equal]
pub struct Sweep {
    pub ui: TouchState,
    pub groups: Seq<GroupView>,
    pub released: Seq<id>,
}

/// One finger has moved. Nothing happens if it makes no touch or stays where it
/// is.
pub open spec fn finger_moved(s: Sweep, f: Finger, timestamp: u64) -> Sweep {
    match touch_of(s.ui.current, f.id) {
        None => s,
        Some(t) => {
            let touch = s.ui.touch(t);
            if same_point(touch.location, f.coords) {
                s
            } else {
                Sweep {
                    ui: s.ui.with_touch(
                        t,
                        Touch {
                            previous_location: touch.location,
                            location: f.coords,
                            timestamp,
                            phase: UITouchPhaseMoved,
                            ..touch
                        },
                    ),
                    groups: grouped(s.groups, touch.view, t),
                    ..s
                }
            }
        },
    }
}

/// One finger is lifted. Its touch is no longer there.
pub open spec fn finger_lifted(s: Sweep, f: Finger, timestamp: u64) -> Sweep {
    match touch_of(s.ui.current, f.id) {
        None => s,
        Some(t) => {
            let touch = s.ui.touch(t);
            Sweep {
                ui: s.ui.with_touch(
                    t,
                    Touch {
                        previous_location: touch.location,
                        location: f.coords,
                        timestamp,
                        phase: UITouchPhaseEnded,
                        ..touch
                    },
                ).removed(f.id),
                groups: grouped(s.groups, touch.view, t),
                released: s.released.push(t),
            }
        },
    }
}

/// The first `n` of these fingers have moved.
pub open spec fn fingers_moved(ui: TouchState, fingers: Seq<Finger>, timestamp: u64, n: nat) -> Sweep
    decreases n,
{
    if n == 0 {
        Sweep { ui, groups: seq![], released: seq![] }
    } else {
        finger_moved(
            fingers_moved(ui, fingers, timestamp, (n - 1) as nat),
            fingers[n - 1],
            timestamp,
        )
    }
}

/// The first `n` of these fingers are lifted.
pub open spec fn fingers_lifted(ui: TouchState, fingers: Seq<Finger>, timestamp: u64, n: nat) -> Sweep
    decreases n,
{
    if n == 0 {
        Sweep { ui, groups: seq![], released: seq![] }
    } else {
        finger_lifted(
            fingers_lifted(ui, fingers, timestamp, (n - 1) as nat),
            fingers[n - 1],
            timestamp,
        )
    }
}

/// Fingers have moved.
pub fn handle_touches_move(ui: &mut State, fingers: &Vec<Finger>, timestamp: u64) -> (d: Delivery)
    ensures
        ({
            let s = fingers_moved(old(ui)@, fingers@, timestamp, fingers@.len());
            &&& final(ui)@ == s.ui
            &&& d@ == (DeliveryView {
                phase: UITouchPhaseMoved,
                groups: s.groups,
                all_touches: touch_ids(s.ui.current),
                released: seq![],
            })
        }),
{
    let mut groups: Vec<Group> = Vec::new();
    let n: usize = fingers.len();
    let mut i: usize = 0;
    proof {
        assert(group_views(groups@) =~= seq![]);
    }
    while i < n
        invariant
            i <= n,
            n == fingers@.len(),
            ({
                let s = fingers_moved(old(ui)@, fingers@, timestamp, i as nat);
                ui@ == s.ui && group_views(groups@) == s.groups && s.released == Seq::<id>::empty()
            }),
        decreases n - i,
    {
        let f: Finger = fingers[i];
        if let Some(t) = ui.current_touch(f.id) {
            let touch: Touch = ui.touch(t);
            if !equal_points(touch.location, f.coords) {
                ui.set_touch(
                    t,
                    Touch {
                        previous_location: touch.location,
                        location: f.coords,
                        timestamp,
                        phase: UITouchPhaseMoved,
                        ..touch
                    },
                );
                add_to_group(&mut groups, touch.view, t);
            }
        }
        i += 1;
    }
    let all_touches: Vec<id> = ui.all_touches();
    let released: Vec<id> = Vec::new();
    proof {
        assert(released@ =~= seq![]);
    }
    Delivery { phase: UITouchPhaseMoved, groups, all_touches, released }
}

/// Fingers are lifted.
pub fn handle_touches_up(ui: &mut State, fingers: &Vec<Finger>, timestamp: u64) -> (d: Delivery)
    ensures
        ({
            let s = fingers_lifted(old(ui)@, fingers@, timestamp, fingers@.len());
            &&& final(ui)@ == s.ui
            &&& d@ == (DeliveryView {
                phase: UITouchPhaseEnded,
                groups: s.groups,
                all_touches: touch_ids(old(ui)@.current),
                released: s.released,
            })
        }),
{
    let all_touches: Vec<id> = ui.all_touches();
    let mut groups: Vec<Group> = Vec::new();
    let mut released: Vec<id> = Vec::new();
    let n: usize = fingers.len();
    let mut i: usize = 0;
    proof {
        assert(group_views(groups@) =~= seq![]);
        assert(released@ =~= seq![]);
    }
    while i < n
        invariant
            i <= n,
            n == fingers@.len(),
            ({
                let s = fingers_lifted(old(ui)@, fingers@, timestamp, i as nat);
                ui@ == s.ui && group_views(groups@) == s.groups && released@ == s.released
            }),
        decreases n - i,
    {
        let f: Finger = fingers[i];
        if let Some(t) = ui.current_touch(f.id) {
            let touch: Touch = ui.touch(t);
            ui.set_touch(
                t,
                Touch {
                    previous_location: touch.location,
                    location: f.coords,
                    timestamp,
                    phase: UITouchPhaseEnded,
                    ..touch
                },
            );
            add_to_group(&mut groups, touch.view, t);
            ui.remove_finger(f.id);
            released.push(t);
        }
        i += 1;
    }
    Delivery { phase: UITouchPhaseEnded, groups, all_touches, released }
}

/// What is set to make a view get one touch at a time, or several.
#[derive(Clone, Copy, PartialEq, Eq, Structural, Debug)]
pub struct MultitouchOptions {
    pub force_single: bool,
    pub force_multi: bool,
}

/// Whether a view whose class has this name may get several touches at a time
/// though it has not asked for that.
pub open spec fn allows_multitouch(options: MultitouchOptions, class_name: Seq<u8>) -> bool {
    !options.force_single && (options.force_multi || touch_target::is_game_view_name(class_name))
}

/// Whether a view whose class has this name may get several touches at a time
/// though it has not asked for that.
pub fn touchhle_cocos_should_allow_multitouch(
    options: MultitouchOptions,
    class_name: &Name,
) -> (r: bool)
    ensures
        r == allows_multitouch(options, class_name@),
{
    !options.force_single && (options.force_multi
        || touch_target::touchhle_cocos_is_gl_or_game_view_name(class_name))
}

/// Something that the host has to do, or to ask of views and windows.
pub enum Action {
    /// Make a touch object. Reply: the object.
    NewTouch,
    /// Make an event object for these touches.
    MakeEvent { touches: Vec<id> },
    /// Reply: the windows, the frontmost last.
    Windows,
    /// Convert the point to the window's coordinates, and ask whether it is
    /// inside.
    PointInside { window: id, location: Point },
    /// Convert the point to the window's coordinates.
    ConvertPoint { window: id, location: Point },
    /// Reply: the view at the point.
    HitTest { window: id, point: Point },
    /// Reply: the view with all views in it.
    ViewTree { root: id },
    /// Reply: whether the view takes several touches at a time.
    IsMultipleTouchEnabled { view: id },
    /// Reply: the name of the view's class.
    ClassName { view: id },
    /// Release these touches.
    Release { touches: Vec<id> },
    /// Retain the view and the window.
    Retain { view: id, window: id },
    /// Treat the finger as one that has moved. Nothing else is left to do.
    Move { finger: Finger },
    /// Deliver the event. Nothing else is left to do.
    Deliver { groups: Vec<Group> },
}

/// The model of an [Action].
#[verifier::ext_equal]
pub enum ActionView {
    NewTouch,
    MakeEvent { touches: Seq<id> },
    Windows,
    PointInside { window: id, location: Point },
    ConvertPoint { window: id, location: Point },
    HitTest { window: id, point: Point },
    ViewTree { root: id },
    IsMultipleTouchEnabled { view: id },
    ClassName { view: id },
    Release { touches: Seq<id> },
    Retain { view: id, window: id },
    Move { finger: Finger },
    Deliver { groups: Seq<GroupView> },
}

impl View for Action {
    type V = ActionView;

    open spec fn view(&self) -> ActionView {
        match *self {
            Action::NewTouch => ActionView::NewTouch,
            Action::MakeEvent { touches } => ActionView::MakeEvent { touches: touches@ },
            Action::Windows => ActionView::Windows,
            Action::PointInside { window, location } => ActionView::PointInside {
                window,
                location,
            },
            Action::ConvertPoint { window, location } => ActionView::ConvertPoint {
                window,
                location,
            },
            Action::HitTest { window, point } => ActionView::HitTest { window, point },
            Action::ViewTree { root } => ActionView::ViewTree { root },
            Action::IsMultipleTouchEnabled { view } => ActionView::IsMultipleTouchEnabled { view },
            Action::ClassName { view } => ActionView::ClassName { view },
            Action::Release { touches } => ActionView::Release { touches: touches@ },
            Action::Retain { view, window } => ActionView::Retain { view, window },
            Action::Move { finger } => ActionView::Move { finger },
            Action::Deliver { groups } => ActionView::Deliver { groups: group_views(groups@) },
        }
    }
}

/// What the host replies once it has performed an [Action].
pub enum Reply {
    Done,
    Object { object: id },
    Objects { objects: Vec<id> },
    Inside { inside: bool, point: Point },
    Converted { point: Point },
    Tree { tree: ViewTree },
    Flag { flag: bool },
    Class { name: Name },
}

/// What the handling of new touches waits for.
#[derive(Clone, Copy, PartialEq, Eq, Structural, Debug)]
pub enum Stage {
    Create,
    Event,
    Windows,
    Probe { index: usize },
    Convert { window: id },
    Hit { window: id },
    Tree { window: id },
    Multi { window: id, view: id },
    Class { window: id, view: id },
    Release { window: id, view: id },
    Retain { window: id, view: id },
    Finished,
}

/// Fingers that have touched the screen, and how far the handling of them has
/// got.
pub struct TouchesDown {
    pub fingers: Vec<Finger>,
    pub timestamp: u64,
    pub options: MultitouchOptions,
    /// The number of fingers for which a touch was made.
    pub next: usize,
    /// Those touches.
    pub new_touches: Vec<id>,
    /// The number of touches for which a view was looked for.
    pub placed: usize,
    /// The views of the touches that were there before views were looked for.
    pub existing_views: Vec<id>,
    pub windows: Vec<id>,
    pub groups: Vec<Group>,
    pub stage: Stage,
}

/// The model of a [TouchesDown].
#[verifier::ext_equal]
pub struct DownView {
    pub fingers: Seq<Finger>,
    pub timestamp: u64,
    pub options: MultitouchOptions,
    pub next: int,
    pub new_touches: Seq<id>,
    pub placed: int,
    pub existing_views: Seq<id>,
    pub windows: Seq<id>,
    pub groups: Seq<GroupView>,
    pub stage: Stage,
}

impl View for TouchesDown {
    type V = DownView;

    open spec fn view(&self) -> DownView {
        DownView {
            fingers: self.fingers@,
            timestamp: self.timestamp,
            options: self.options,
            next: self.next as int,
            new_touches: self.new_touches@,
            placed: self.placed as int,
            existing_views: self.existing_views@,
            windows: self.windows@,
            groups: group_views(self.groups@),
            stage: self.stage,
        }
    }
}

/// What comes of a step in the handling of new touches.
#[verifier::ext_equal]
pub struct DownStep {
    pub ui: TouchState,
    pub down: DownView,
    pub action: ActionView,
}

/// The views of these touches.
pub open spec fn views_of(ui: TouchState, current: Seq<CurrentTouch>) -> Seq<id> {
    Seq::new(current.len(), |i: int| ui.touch(current[i].touch).view)
}

/// The touches, other than `t`, that are on `view`.
pub open spec fn others_on(ui: TouchState, current: Seq<CurrentTouch>, view: id, t: id) -> Seq<
    CurrentTouch,
>
    decreases current.len(),
{
    if current.len() == 0 {
        seq![]
    } else {
        let rest = others_on(ui, current.drop_last(), view, t);
        let last = current.last();
        if ui.touch(last.touch).view == view && last.touch != t {
            rest.push(last)
        } else {
            rest
        }
    }
}

/// The touches without those of these fingers.
pub open spec fn without_all(ui: TouchState, gone: Seq<CurrentTouch>) -> TouchState
    decreases gone.len(),
{
    if gone.len() == 0 {
        ui
    } else {
        without_all(ui, gone.drop_last()).removed(gone.last().finger)
    }
}

impl DownView {
    pub open spec fn wf(self) -> bool {
        &&& 0 <= self.next <= self.fingers.len()
        &&& 0 <= self.placed <= self.new_touches.len()
        &&& self.stage is Create ==> self.next < self.fingers.len()
        &&& match self.stage {
            Stage::Create | Stage::Event | Stage::Finished => true,
            Stage::Probe { index } => self.placed < self.new_touches.len() && index
                < self.windows.len(),
            _ => self.placed < self.new_touches.len(),
        }
    }

    /// The touch for which a view is looked for.
    pub open spec fn touch(self) -> id {
        self.new_touches[self.placed]
    }

    pub open spec fn at(self, ui: TouchState, stage: Stage, action: ActionView) -> DownStep {
        DownStep { ui, down: DownView { stage, ..self }, action }
    }

    /// Makes the next touch. If the finger makes one already, it is treated as
    /// one that has moved instead, and that is all.
    pub open spec fn create_next(self, ui: TouchState) -> DownStep {
        if self.next < self.fingers.len() {
            let f = self.fingers[self.next];
            if touch_of(ui.current, f.id) is Some {
                self.at(ui, Stage::Finished, ActionView::Move { finger: f })
            } else {
                self.at(ui, Stage::Create, ActionView::NewTouch)
            }
        } else {
            DownView { existing_views: views_of(ui, ui.current), ..self }.at(
                ui,
                Stage::Event,
                ActionView::MakeEvent { touches: touch_ids(ui.current) },
            )
        }
    }

    /// Looks for the view of the next touch.
    pub open spec fn place_next(self, ui: TouchState) -> DownStep {
        if self.placed < self.new_touches.len() {
            self.at(ui, Stage::Windows, ActionView::Windows)
        } else {
            self.at(ui, Stage::Finished, ActionView::Deliver { groups: self.groups })
        }
    }

    /// Goes on with the touch after this one.
    pub open spec fn skip(self, ui: TouchState) -> DownStep {
        DownView { placed: self.placed + 1, ..self }.place_next(ui)
    }

    /// Asks a window whether the touch is inside.
    pub open spec fn probe(self, ui: TouchState, index: int) -> DownStep {
        self.at(
            ui,
            Stage::Probe { index: index as usize },
            ActionView::PointInside {
                window: self.windows[index],
                location: ui.touch(self.touch()).location,
            },
        )
    }

    /// Asks a window for the view at a point.
    pub open spec fn hit_test(self, ui: TouchState, window: id, point: Point) -> DownStep {
        self.at(ui, Stage::Hit { window }, ActionView::HitTest { window, point })
    }

    /// Has found the view of the touch.
    pub open spec fn found(self, ui: TouchState, window: id, view: id) -> DownStep {
        self.at(
            ui,
            Stage::Multi { window, view },
            ActionView::IsMultipleTouchEnabled { view },
        )
    }

    /// Gives the touch to the view.
    pub open spec fn accept(self, ui: TouchState, window: id, view: id) -> DownStep {
        DownView { groups: grouped(self.groups, view, self.touch()), ..self }.at(
            ui,
            Stage::Retain { window, view },
            ActionView::Retain { view, window },
        )
    }

    /// Gives the touch to a view that takes one touch at a time. If it has
    /// others, those are stuck and are removed; if it has none that can be, the
    /// new touch is dropped.
    pub open spec fn accept_single(self, ui: TouchState, window: id, view: id) -> DownStep {
        let stuck = others_on(ui, ui.current, view, self.touch());
        if has_group(self.groups, view) || self.existing_views.contains(view) {
            if stuck.len() > 0 {
                self.at(
                    without_all(ui, stuck),
                    Stage::Release { window, view },
                    ActionView::Release { touches: touch_ids(stuck) },
                )
            } else {
                self.skip(ui)
            }
        } else {
            self.accept(ui, window, view)
        }
    }

    /// The step after the host's reply; none if that is no reply to what it was
    /// asked.
    pub open spec fn step(self, ui: TouchState, reply: Reply) -> Option<DownStep> {
        match (self.stage, reply) {
            (Stage::Create, Reply::Object { object }) => Some(self.created(ui, object)),
            (Stage::Event, Reply::Done) => Some(self.place_next(ui)),
            (Stage::Windows, Reply::Objects { objects }) => Some(self.windows_known(ui, objects@)),
            (Stage::Probe { index }, Reply::Inside { inside, point }) => Some(
                self.probed(ui, index as int, inside, point),
            ),
            (Stage::Convert { window }, Reply::Converted { point }) => Some(
                self.hit_test(ui, window, point),
            ),
            (Stage::Hit { window }, Reply::Object { object }) => Some(self.hit(ui, window, object)),
            (Stage::Tree { window }, Reply::Tree { tree }) => {
                let target = touch_target::target(tree);
                Some(
                    self.found(
                        ui,
                        window,
                        if target != nil {
                            target
                        } else {
                            window
                        },
                    ),
                )
            },
            (Stage::Multi { window, view }, Reply::Flag { flag }) => Some(
                self.multi_known(ui, window, view, flag),
            ),
            (Stage::Class { window, view }, Reply::Class { name }) => Some(
                if allows_multitouch(self.options, name@) {
                    self.accept(ui, window, view)
                } else {
                    self.accept_single(ui, window, view)
                },
            ),
            (Stage::Release { window, view }, Reply::Done) => Some(self.accept(ui, window, view)),
            (Stage::Retain { window, view }, Reply::Done) => Some(
                self.retained(ui, window, view),
            ),
            _ => None,
        }
    }

    /// A touch object was made.
    pub open spec fn created(self, ui: TouchState, object: id) -> DownStep {
        let f = self.fingers[self.next];
        let touch = Touch {
            view: nil,
            window: nil,
            location: f.coords,
            previous_location: f.coords,
            start_location: f.coords,
            timestamp: self.timestamp,
            phase: UITouchPhaseBegan,
        };
        DownView {
            next: self.next + 1,
            new_touches: self.new_touches.push(object),
            ..self
        }.create_next(ui.with_new_touch(f.id, object, touch))
    }

    /// The windows are known.
    pub open spec fn windows_known(self, ui: TouchState, windows: Seq<id>) -> DownStep {
        let d = DownView { windows, ..self };
        if windows.len() == 0 {
            d.skip(ui)
        } else {
            d.probe(ui, windows.len() - 1)
        }
    }

    /// A window has said whether the touch is inside. If no window wants the
    /// touch, the frontmost one gets it.
    pub open spec fn probed(
        self,
        ui: TouchState,
        index: int,
        inside: bool,
        point: Point,
    ) -> DownStep {
        if inside {
            self.hit_test(ui, self.windows[index], point)
        } else if index > 0 {
            self.probe(ui, index - 1)
        } else {
            let window = self.windows.last();
            self.at(
                ui,
                Stage::Convert { window },
                ActionView::ConvertPoint { window, location: ui.touch(self.touch()).location },
            )
        }
    }

    /// A window has said which view is at the point. Where there is none but the
    /// window itself, a view that a game draws in is looked for.
    pub open spec fn hit(self, ui: TouchState, window: id, view: id) -> DownStep {
        if view == nil || view == window {
            self.at(ui, Stage::Tree { window }, ActionView::ViewTree { root: window })
        } else {
            self.found(ui, window, view)
        }
    }

    /// The view has said whether it takes several touches at a time.
    pub open spec fn multi_known(
        self,
        ui: TouchState,
        window: id,
        view: id,
        flag: bool,
    ) -> DownStep {
        if flag || (self.options.force_multi && !self.options.force_single) {
            self.accept(ui, window, view)
        } else if self.options.force_single {
            self.accept_single(ui, window, view)
        } else {
            self.at(ui, Stage::Class { window, view }, ActionView::ClassName { view })
        }
    }

    /// The view and the window are retained. The touch belongs to them.
    pub open spec fn retained(self, ui: TouchState, window: id, view: id) -> DownStep {
        let t = self.touch();
        self.skip(ui.with_touch(t, Touch { view, window, ..ui.touch(t) }))
    }
}

/// Fingers that have just touched the screen.
pub open spec fn touches_down(
    fingers: Seq<Finger>,
    timestamp: u64,
    options: MultitouchOptions,
) -> DownView {
    DownView {
        fingers,
        timestamp,
        options,
        next: 0,
        new_touches: seq![],
        placed: 0,
        existing_views: seq![],
        windows: seq![],
        groups: seq![],
        stage: Stage::Finished,
    }
}

/// The views of the touches that are there.
fn current_views(ui: &State) -> (r: Vec<id>)
    ensures
        r@ == views_of(ui@, ui@.current),
{
    let mut r: Vec<id> = Vec::new();
    let n: usize = ui.current_touches.len();
    let mut i: usize = 0;
    while i < n
        invariant
            i <= n,
            n == ui@.current.len(),
            r@ == views_of(ui@, ui@.current).take(i as int),
        decreases n - i,
    {
        let touch: Touch = ui.touch(ui.current_touches[i].touch);
        r.push(touch.view);
        i += 1;
        proof {
            assert(r@ =~= views_of(ui@, ui@.current).take(i as int));
        }
    }
    proof {
        assert(r@ =~= views_of(ui@, ui@.current));
    }
    r
}

/// Whether this view is one of those.
fn contains_view(views: &Vec<id>, view: id) -> (r: bool)
    ensures
        r == views@.contains(view),
{
    let n: usize = views.len();
    let mut i: usize = 0;
    while i < n
        invariant
            i <= n,
            n == views@.len(),
            forall|j: int| 0 <= j < i ==> views@[j] != view,
        decreases n - i,
    {
        if views[i] == view {
            return true;
        }
        i += 1;
    }
    false
}

/// The touches, other than `t`, that are on `view`.
fn find_others_on(ui: &State, view: id, t: id) -> (r: Vec<CurrentTouch>)
    ensures
        r@ == others_on(ui@, ui@.current, view, t),
{
    let mut r: Vec<CurrentTouch> = Vec::new();
    let n: usize = ui.current_touches.len();
    let ghost all = ui@.current;
    let mut i: usize = 0;
    proof {
        assert(all.take(0) =~= seq![]);
    }
    while i < n
        invariant
            i <= n,
            n == all.len(),
            all == ui.current_touches@,
            r@ == others_on(ui@, all.take(i as int), view, t),
        decreases n - i,
    {
        let c: CurrentTouch = ui.current_touches[i];
        let touch: Touch = ui.touch(c.touch);
        if touch.view == view && c.touch != t {
            r.push(c);
        }
        i += 1;
        proof {
            assert(all.take(i as int).drop_last() =~= all.take(i - 1));
        }
    }
    proof {
        assert(all.take(n as int) =~= all);
    }
    r
}

/// Removes the touches of these fingers, and gives their objects.
fn remove_all(ui: &mut State, gone: &Vec<CurrentTouch>) -> (r: Vec<id>)
    ensures
        final(ui)@ == without_all(old(ui)@, gone@),
        r@ == touch_ids(gone@),
{
    let mut r: Vec<id> = Vec::new();
    let n: usize = gone.len();
    let mut i: usize = 0;
    proof {
        assert(gone@.take(0) =~= seq![]);
    }
    while i < n
        invariant
            i <= n,
            n == gone@.len(),
            ui@ == without_all(old(ui)@, gone@.take(i as int)),
            r@ == touch_ids(gone@).take(i as int),
        decreases n - i,
    {
        let c: CurrentTouch = gone[i];
        ui.remove_finger(c.finger);
        r.push(c.touch);
        i += 1;
        proof {
            assert(gone@.take(i as int).drop_last() =~= gone@.take(i - 1));
            assert(r@ =~= touch_ids(gone@).take(i as int));
        }
    }
    proof {
        assert(gone@.take(n as int) =~= gone@);
        assert(r@ =~= touch_ids(gone@));
    }
    r
}

impl TouchesDown {
    fn create_next(&mut self, ui: &State) -> (action: Action)
        requires
            0 <= old(self)@.next <= old(self)@.fingers.len(),
            0 <= old(self)@.placed <= old(self)@.new_touches.len(),
        ensures
            ({
                let s = old(self)@.create_next(ui@);
                s.ui == ui@ && s.down == final(self)@ && s.action == action@
            }),
            final(self)@.wf(),
    {
        if self.next < self.fingers.len() {
            let finger: Finger = self.fingers[self.next];
            if ui.current_touch(finger.id).is_some() {
                self.stage = Stage::Finished;
                Action::Move { finger }
            } else {
                self.stage = Stage::Create;
                Action::NewTouch
            }
        } else {
            self.existing_views = current_views(ui);
            self.stage = Stage::Event;
            Action::MakeEvent { touches: ui.all_touches() }
        }
    }

    fn place_next(&mut self, ui: &State) -> (action: Action)
        requires
            0 <= old(self)@.next <= old(self)@.fingers.len(),
            0 <= old(self)@.placed <= old(self)@.new_touches.len(),
        ensures
            ({
                let s = old(self)@.place_next(ui@);
                s.ui == ui@ && s.down == final(self)@ && s.action == action@
            }),
            final(self)@.wf(),
    {
        if self.placed < self.new_touches.len() {
            self.stage = Stage::Windows;
            Action::Windows
        } else {
            self.stage = Stage::Finished;
            Action::Deliver { groups: copy_groups(&self.groups) }
        }
    }

    fn skip(&mut self, ui: &State) -> (action: Action)
        requires
            0 <= old(self)@.next <= old(self)@.fingers.len(),
            0 <= old(self)@.placed < old(self)@.new_touches.len(),
        ensures
            ({
                let s = old(self)@.skip(ui@);
                s.ui == ui@ && s.down == final(self)@ && s.action == action@
            }),
            final(self)@.wf(),
    {
        proof {
            assert(self.placed < self.new_touches.len());
        }
        self.placed += 1;
        self.place_next(ui)
    }

    fn accept(&mut self, ui: &State, window: id, view: id) -> (action: Action)
        requires
            0 <= old(self)@.next <= old(self)@.fingers.len(),
            0 <= old(self)@.placed < old(self)@.new_touches.len(),
        ensures
            ({
                let s = old(self)@.accept(ui@, window, view);
                s.ui == ui@ && s.down == final(self)@ && s.action == action@
            }),
            final(self)@.wf(),
    {
        let t: id = self.new_touches[self.placed];
        add_to_group(&mut self.groups, view, t);
        self.stage = Stage::Retain { window, view };
        Action::Retain { view, window }
    }

    fn accept_single(&mut self, ui: &mut State, window: id, view: id) -> (action: Action)
        requires
            0 <= old(self)@.next <= old(self)@.fingers.len(),
            0 <= old(self)@.placed < old(self)@.new_touches.len(),
        ensures
            ({
                let s = old(self)@.accept_single(old(ui)@, window, view);
                s.ui == final(ui)@ && s.down == final(self)@ && s.action == action@
            }),
            final(self)@.wf(),
    {
        proof {
            lemma_group_index(self@.groups, view);
        }
        let has_touches: bool = find_group(&self.groups, view) < self.groups.len();
        if has_touches || contains_view(&self.existing_views, view) {
            let t: id = self.new_touches[self.placed];
            let stuck: Vec<CurrentTouch> = find_others_on(ui, view, t);
            if stuck.len() > 0 {
                let touches: Vec<id> = remove_all(ui, &stuck);
                self.stage = Stage::Release { window, view };
                Action::Release { touches }
            } else {
                self.skip(ui)
            }
        } else {
            self.accept(ui, window, view)
        }
    }

    fn created(&mut self, ui: &mut State, object: id) -> (action: Action)
        requires
            0 <= old(self)@.next < old(self)@.fingers.len(),
            0 <= old(self)@.placed <= old(self)@.new_touches.len(),
        ensures
            ({
                let s = old(self)@.created(old(ui)@, object);
                s.ui == final(ui)@ && s.down == final(self)@ && s.action == action@
            }),
            final(self)@.wf(),
    {
        let f: Finger = self.fingers[self.next];
        let touch: Touch = Touch {
            view: nil,
            window: nil,
            location: f.coords,
            previous_location: f.coords,
            start_location: f.coords,
            timestamp: self.timestamp,
            phase: UITouchPhaseBegan,
        };
        ui.add_touch(f.id, object, touch);
        self.new_touches.push(object);
        proof {
            assert(self.next < self.fingers.len());
        }
        self.next += 1;
        self.create_next(ui)
    }

    fn probe(&mut self, ui: &State, index: usize) -> (action: Action)
        requires
            0 <= old(self)@.next <= old(self)@.fingers.len(),
            0 <= old(self)@.placed < old(self)@.new_touches.len(),
            index < old(self)@.windows.len(),
        ensures
            ({
                let s = old(self)@.probe(ui@, index as int);
                s.ui == ui@ && s.down == final(self)@ && s.action == action@
            }),
            final(self)@.wf(),
    {
        let touch: Touch = ui.touch(self.new_touches[self.placed]);
        self.stage = Stage::Probe { index };
        Action::PointInside { window: self.windows[index], location: touch.location }
    }

    /// Goes on with the host's reply. Nothing happens if that is no reply to
    /// what it was asked.
    pub fn resume(&mut self, ui: &mut State, reply: Reply) -> (r: Option<Action>)
        requires
            old(self)@.wf(),
        ensures
            final(self)@.wf(),
            match old(self)@.step(old(ui)@, reply) {
                Some(s) => {
                    &&& final(ui)@ == s.ui
                    &&& final(self)@ == s.down
                    &&& r matches Some(action) && action@ == s.action
                },
                None => r is None && final(ui)@ == old(ui)@ && final(self)@ == old(self)@,
            },
    {
        match (self.stage, reply) {
            (Stage::Create, Reply::Object { object }) => Some(self.created(ui, object)),
            (Stage::Event, Reply::Done) => Some(self.place_next(ui)),
            (Stage::Windows, Reply::Objects { objects }) => {
                let n: usize = objects.len();
                self.windows = objects;
                if n == 0 {
                    Some(self.skip(ui))
                } else {
                    Some(self.probe(ui, n - 1))
                }
            },
            (Stage::Probe { index }, Reply::Inside { inside, point }) => {
                if inside {
                    let window: id = self.windows[index];
                    self.stage = Stage::Hit { window };
                    Some(Action::HitTest { window, point })
                } else if index > 0 {
                    Some(self.probe(ui, index - 1))
                } else {
                    let window: id = self.windows[self.windows.len() - 1];
                    let touch: Touch = ui.touch(self.new_touches[self.placed]);
                    self.stage = Stage::Convert { window };
                    Some(Action::ConvertPoint { window, location: touch.location })
                }
            },
            (Stage::Convert { window }, Reply::Converted { point }) => {
                self.stage = Stage::Hit { window };
                Some(Action::HitTest { window, point })
            },
            (Stage::Hit { window }, Reply::Object { object }) => {
                if object == nil || object == window {
                    self.stage = Stage::Tree { window };
                    Some(Action::ViewTree { root: window })
                } else {
                    self.stage = Stage::Multi { window, view: object };
                    Some(Action::IsMultipleTouchEnabled { view: object })
                }
            },
            (Stage::Tree { window }, Reply::Tree { tree }) => {
                let target: id = touch_target::touchhle_find_cocos_touch_target(&tree);
                let view: id = if target != nil {
                    target
                } else {
                    window
                };
                self.stage = Stage::Multi { window, view };
                Some(Action::IsMultipleTouchEnabled { view })
            },
            (Stage::Multi { window, view }, Reply::Flag { flag }) => {
                if flag || (self.options.force_multi && !self.options.force_single) {
                    Some(self.accept(ui, window, view))
                } else if self.options.force_single {
                    Some(self.accept_single(ui, window, view))
                } else {
                    self.stage = Stage::Class { window, view };
                    Some(Action::ClassName { view })
                }
            },
            (Stage::Class { window, view }, Reply::Class { name }) => {
                if touchhle_cocos_should_allow_multitouch(self.options, &name) {
                    Some(self.accept(ui, window, view))
                } else {
                    Some(self.accept_single(ui, window, view))
                }
            },
            (Stage::Release { window, view }, Reply::Done) => Some(self.accept(ui, window, view)),
            (Stage::Retain { window, view }, Reply::Done) => {
                let t: id = self.new_touches[self.placed];
                let touch: Touch = ui.touch(t);
                ui.set_touch(t, Touch { view, window, ..touch });
                Some(self.skip(ui))
            },
            _ => None,
        }
    }
}

/// Fingers touch the screen.
pub fn handle_touches_down(
    ui: &State,
    fingers: Vec<Finger>,
    timestamp: u64,
    options: MultitouchOptions,
) -> (r: (TouchesDown, Action))
    ensures
        ({
            let s = touches_down(fingers@, timestamp, options).create_next(ui@);
            s.ui == ui@ && r.0@ == s.down && r.1@ == s.action
        }),
        r.0@.wf(),
{
    let mut down = TouchesDown {
        fingers,
        timestamp,
        options,
        next: 0,
        new_touches: Vec::new(),
        placed: 0,
        existing_views: Vec::new(),
        windows: Vec::new(),
        groups: Vec::new(),
        stage: Stage::Finished,
    };
    proof {
        assert(down@ =~= touches_down(fingers@, timestamp, options));
    }
    let action: Action = down.create_next(ui);
    (down, action)
}

/// What the host says that happened.
pub enum Event {
    TouchesDown { fingers: Vec<Finger> },
    TouchesMove { fingers: Vec<Finger> },
    TouchesUp { fingers: Vec<Finger> },
    /// Something that has nothing to do with touches.
    Other,
}

/// What is left to do about an event.
pub enum Handling {
    /// The host has to go on with [TouchesDown::resume].
    Ask { down: TouchesDown, action: Action },
    /// The host has to deliver this.
    Deliver { delivery: Delivery },
    Nothing,
}

/// Whether this is what is to come of an event for the touches `before` it, with
/// the touches `after`. All touches that were there count as stationary until
/// the event says otherwise.
pub open spec fn handled(
    before: TouchState,
    event: Event,
    timestamp: u64,
    options: MultitouchOptions,
    after: TouchState,
    handling: Handling,
) -> bool {
    let ui = before.stationary(before.current.len());
    match event {
        Event::TouchesDown { fingers } => {
            let s = touches_down(fingers@, timestamp, options).create_next(ui);
            &&& after == s.ui
            &&& handling matches Handling::Ask { down, action } && down@ == s.down && action@
                == s.action && down@.wf()
        },
        Event::TouchesMove { fingers } => {
            let s = fingers_moved(ui, fingers@, timestamp, fingers@.len());
            &&& after == s.ui
            &&& handling matches Handling::Deliver { delivery } && delivery@ == (DeliveryView {
                phase: UITouchPhaseMoved,
                groups: s.groups,
                all_touches: touch_ids(s.ui.current),
                released: seq![],
            })
        },
        Event::TouchesUp { fingers } => {
            let s = fingers_lifted(ui, fingers@, timestamp, fingers@.len());
            &&& after == s.ui
            &&& handling matches Handling::Deliver { delivery } && delivery@ == (DeliveryView {
                phase: UITouchPhaseEnded,
                groups: s.groups,
                all_touches: touch_ids(ui.current),
                released: s.released,
            })
        },
        Event::Other => after == ui && handling is Nothing,
    }
}

/// Handles an event.
pub fn handle_event(
    env: &mut Environment,
    event: Event,
    timestamp: u64,
    options: MultitouchOptions,
) -> (handling: Handling)
    ensures
        final(env)@ == (EnvState { ui_touch: final(env)@.ui_touch, ..old(env)@ }),
        handled(
            old(env)@.ui_touch,
            event,
            timestamp,
            options,
            final(env)@.ui_touch,
            handling,
        ),
{
    let ui = &mut env.framework_state.ui_touch;
    ui.make_stationary();
    match event {
        Event::TouchesDown { fingers } => {
            let (down, action): (TouchesDown, Action) = handle_touches_down(
                ui,
                fingers,
                timestamp,
                options,
            );
            Handling::Ask { down, action }
        },
        Event::TouchesMove { fingers } => Handling::Deliver {
            delivery: handle_touches_move(ui, &fingers, timestamp),
        },
        Event::TouchesUp { fingers } => Handling::Deliver {
            delivery: handle_touches_up(ui, &fingers, timestamp),
        },
        Event::Other => Handling::Nothing,
    }
}

} // verus!
