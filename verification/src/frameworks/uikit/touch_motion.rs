//! What moving and lifting fingers does to touches.
use crate::frameworks::uikit::touch_laws;
use crate::frameworks::uikit::ui_touch;
use crate::frameworks::uikit::ui_touch::{
    CurrentTouch, Finger, FingerId, GroupView, Point, Touch, TouchState,
};
use crate::objc::classes::id;
use vstd::prelude::*;

verus! {

/// The number that a bit pattern in single precision stands for, by its place among
/// all of them: the magnitude is the pattern without the sign, the two zeros are the
/// same number, and what lies beyond infinity is not a number.
pub open spec fn number(bits: u32) -> Option<int> {
    let magnitude: int = if bits >= 0x8000_0000 {
        bits - 0x8000_0000
    } else {
        bits as int
    };
    if magnitude > 0x7F80_0000 {
        None
    } else if bits >= 0x8000_0000 {
        Some(-magnitude)
    } else {
        Some(magnitude)
    }
}

/// Whether two coordinates are equal as numbers; what is not a number equals nothing.
pub open spec fn equal_coordinates(a: u32, b: u32) -> bool {
    number(a) is Some && number(a) == number(b)
}

/// Whether a finger that goes from one point to another has moved.
pub open spec fn has_moved(from: Point, to: Point) -> bool {
    !equal_coordinates(from.x, to.x) || !equal_coordinates(from.y, to.y)
}

/// No two fingers make the same touch.
pub open spec fn touches_differ(current: Seq<CurrentTouch>) -> bool {
    forall|i: int, j: int|
        0 <= i < j < current.len() ==> (#[trigger] current[i]).touch != (
        #[trigger] current[j]).touch
}

/// Whether a touch is in some group.
pub open spec fn appears(groups: Seq<GroupView>, t: id) -> bool {
    exists|g: int, k: int| #[trigger] stands_at(groups, t, g, k)
}

pub open spec fn stands_at(groups: Seq<GroupView>, t: id, g: int, k: int) -> bool {
    0 <= g < groups.len() && 0 <= k < groups[g].touches.len() && groups[g].touches[k] == t
}

/// Whether a touch is in one group, once, and that is the group of `view`.
pub open spec fn appears_once(groups: Seq<GroupView>, view: id, t: id) -> bool {
    exists|g: int, k: int| #[trigger]
        stands_at(groups, t, g, k) && groups[g].view == view && forall|h: int, l: int| #[trigger]
            stands_at(groups, t, h, l) ==> h == g && l == k
}

/// What adding a touch to a group does.
pub proof fn lemma_grouped(groups: Seq<GroupView>, view: id, added: id, t: id)
    ensures
        added != t && !appears(groups, t) ==> !appears(
            ui_touch::grouped(groups, view, added),
            t,
        ),
        added == t && !appears(groups, t) ==> appears_once(
            ui_touch::grouped(groups, view, added),
            view,
            t,
        ),
{
    ui_touch::lemma_group_index(groups, view);
    let r = ui_touch::grouped(groups, view, added);
    let i = ui_touch::group_index(groups, view);
    let last: int = if i < groups.len() {
        groups[i].touches.len() as int
    } else {
        0
    };
    assert forall|g: int, k: int| #[trigger] stands_at(r, t, g, k) && !(g == i && k == last)
        implies stands_at(groups, t, g, k) by {}
    if !appears(groups, t) {
        if added == t {
            assert(stands_at(r, t, i, last));
        } else if appears(r, t) {
            let (g, k) = choose|g: int, k: int| #[trigger] stands_at(r, t, g, k);
            assert(stands_at(groups, t, g, k));
        }
    }
}

proof fn lemma_grouped_keeps(groups: Seq<GroupView>, view: id, added: id, of: id, t: id)
    requires
        added != t,
        appears_once(groups, of, t),
    ensures
        appears_once(ui_touch::grouped(groups, view, added), of, t),
{
    ui_touch::lemma_group_index(groups, view);
    let r = ui_touch::grouped(groups, view, added);
    let (g, k) = choose|g: int, k: int| #[trigger]
        stands_at(groups, t, g, k) && groups[g].view == of && forall|h: int, l: int| #[trigger]
            stands_at(groups, t, h, l) ==> h == g && l == k;
    assert(stands_at(r, t, g, k));
    assert forall|h: int, l: int| #[trigger] stands_at(r, t, h, l) implies h == g && l == k by {
        assert(stands_at(groups, t, h, l));
    }
}

/// The finger that makes a touch is found.
proof fn lemma_found(current: Seq<CurrentTouch>, c: int)
    requires
        0 <= c < current.len(),
        touch_laws::fingers_differ(current),
    ensures
        ui_touch::touch_of(current, current[c].finger) == Some(current[c].touch),
    decreases current.len(),
{
    let rest = current.drop_last();
    if c < rest.len() {
        assert(current[c].finger != current[current.len() - 1].finger);
        assert forall|i: int, j: int| 0 <= i < j < rest.len() implies (#[trigger] rest[i]).finger
            != (#[trigger] rest[j]).finger by {
            assert(current[i].finger != current[j].finger);
        }
        lemma_found(rest, c);
    }
}

/// What is found is a touch that is there.
proof fn lemma_found_is(current: Seq<CurrentTouch>, f: FingerId)
    ensures
        ui_touch::touch_of(current, f) matches Some(t) ==> exists|i: int|
            0 <= i < current.len() && (#[trigger] current[i]).finger == f && current[i].touch == t,
    decreases current.len(),
{
    if current.len() > 0 {
        lemma_found_is(current.drop_last(), f);
        if current.last().finger == f {
            assert(current[current.len() - 1].finger == f);
        } else if let Some(t) = ui_touch::touch_of(current, f) {
            let i = choose|i: int|
                0 <= i < current.drop_last().len() && (#[trigger] current.drop_last()[i]).finger
                    == f && current.drop_last()[i].touch == t;
            assert(current[i].finger == f);
        }
    }
}

/// Another finger makes another touch.
proof fn lemma_other(current: Seq<CurrentTouch>, c: int, f: FingerId)
    requires
        0 <= c < current.len(),
        touches_differ(current),
        f != current[c].finger,
    ensures
        ui_touch::touch_of(current, f) != Some(current[c].touch),
{
    lemma_found_is(current, f);
    if ui_touch::touch_of(current, f) == Some(current[c].touch) {
        let i = choose|i: int|
            0 <= i < current.len() && (#[trigger] current[i]).finger == f && current[i].touch
                == current[c].touch;
        if i < c {
            assert(current[i].touch != current[c].touch);
        } else {
            assert(current[c].touch != current[i].touch);
        }
    }
}

proof fn lemma_same(a: Point, b: Point)
    ensures
        ui_touch::same_point(a, b) <==> !has_moved(a, b),
{
}

/// Fingers that are not this one leave its touch as it is.
proof fn lemma_move_others(
    ui: TouchState,
    fingers: Seq<Finger>,
    timestamp: u64,
    n: nat,
    c: int,
)
    requires
        n <= fingers.len(),
        0 <= c < ui.current.len(),
        touches_differ(ui.current),
        forall|j: int| 0 <= j < n ==> (#[trigger] fingers[j]).id != ui.current[c].finger,
    ensures
        ({
            let s = ui_touch::fingers_moved(ui, fingers, timestamp, n);
            let t = ui.current[c].touch;
            &&& s.ui.current == ui.current
            &&& s.ui.touches.contains_key(t) == ui.touches.contains_key(t)
            &&& ui.touches.contains_key(t) ==> s.ui.touches[t] == ui.touches[t]
            &&& !appears(s.groups, t)
        }),
    decreases n,
{
    if n > 0 {
        lemma_move_others(ui, fingers, timestamp, (n - 1) as nat, c);
        let b = ui_touch::fingers_moved(ui, fingers, timestamp, (n - 1) as nat);
        let f = fingers[n - 1];
        lemma_other(ui.current, c, f.id);
        if let Some(u) = ui_touch::touch_of(b.ui.current, f.id) {
            lemma_grouped(b.groups, b.ui.touch(u).view, u, ui.current[c].touch);
        }
    } else {
        let s = ui_touch::fingers_moved(ui, fingers, timestamp, n);
        assert(forall|t: id, g: int, k: int| !#[trigger] stands_at(s.groups, t, g, k));
    }
}

proof fn lemma_move_on(
    ui: TouchState,
    fingers: Seq<Finger>,
    timestamp: u64,
    from: nat,
    n: nat,
    c: int,
)
    requires
        from <= n <= fingers.len(),
        0 <= c < ui.current.len(),
        touches_differ(ui.current),
        forall|j: int| from <= j < n ==> (#[trigger] fingers[j]).id != ui.current[c].finger,
        ui_touch::fingers_moved(ui, fingers, timestamp, from).ui.current == ui.current,
    ensures
        ({
            let b = ui_touch::fingers_moved(ui, fingers, timestamp, from);
            let s = ui_touch::fingers_moved(ui, fingers, timestamp, n);
            let t = ui.current[c].touch;
            &&& s.ui.current == ui.current
            &&& s.ui.touches.contains_key(t) == b.ui.touches.contains_key(t)
            &&& b.ui.touches.contains_key(t) ==> s.ui.touches[t] == b.ui.touches[t]
            &&& !appears(b.groups, t) ==> !appears(s.groups, t)
            &&& forall|view: id| #[trigger]
                appears_once(b.groups, view, t) ==> appears_once(s.groups, view, t)
        }),
    decreases n,
{
    if n > from {
        lemma_move_on(ui, fingers, timestamp, from, (n - 1) as nat, c);
        let b = ui_touch::fingers_moved(ui, fingers, timestamp, from);
        let s = ui_touch::fingers_moved(ui, fingers, timestamp, (n - 1) as nat);
        let f = fingers[n - 1];
        let t = ui.current[c].touch;
        lemma_other(ui.current, c, f.id);
        if let Some(u) = ui_touch::touch_of(s.ui.current, f.id) {
            let v = s.ui.touch(u).view;
            lemma_grouped(s.groups, v, u, t);
            let last = ui_touch::fingers_moved(ui, fingers, timestamp, n);
            assert forall|view: id| #[trigger] appears_once(b.groups, view, t) implies appears_once(
                last.groups,
                view,
                t,
            ) by {
                assert(appears_once(s.groups, view, t));
                lemma_grouped_keeps(s.groups, v, u, view, t);
            }
        }
    }
}

/// A finger that makes a touch and is given once moves the touch, if either of its
/// coordinates is another number than before: the touch is at the new point, its
/// previous point is where it was, it has moved, and it is delivered once, to its
/// view. If both are equal, the touch stays as it is and is not delivered.
pub proof fn law_finger_moves(
    ui: TouchState,
    fingers: Seq<Finger>,
    timestamp: u64,
    i: int,
    c: int,
)
    requires
        0 <= i < fingers.len(),
        0 <= c < ui.current.len(),
        touch_laws::fingers_differ(ui.current),
        touches_differ(ui.current),
        touch_laws::touches_known(ui),
        fingers[i].id == ui.current[c].finger,
        forall|j: int|
            0 <= j < fingers.len() && j != i ==> (#[trigger] fingers[j]).id != fingers[i].id,
    ensures
        ({
            let s = ui_touch::fingers_moved(ui, fingers, timestamp, fingers.len());
            let t = ui.current[c].touch;
            let before = ui.touches[t];
            let after = s.ui.touches[t];
            &&& s.ui.current == ui.current
            &&& s.ui.touches.contains_key(t)
            &&& has_moved(before.location, fingers[i].coords) ==> after == (Touch {
                location: fingers[i].coords,
                previous_location: before.location,
                timestamp,
                phase: 1,
                start_location: before.start_location,
                view: before.view,
                window: before.window,
            }) && appears_once(s.groups, before.view, t)
            &&& !has_moved(before.location, fingers[i].coords) ==> after == before && !appears(
                s.groups,
                t,
            )
        }),
{
    let t = ui.current[c].touch;
    assert(ui.touches.contains_key(t));
    let n = i as nat;
    lemma_move_others(ui, fingers, timestamp, n, c);
    let b = ui_touch::fingers_moved(ui, fingers, timestamp, n);
    let m = ui_touch::fingers_moved(ui, fingers, timestamp, n + 1);
    lemma_found(ui.current, c);
    lemma_same(ui.touches[t].location, fingers[i].coords);
    lemma_grouped(b.groups, ui.touches[t].view, t, t);
    assert(m == ui_touch::finger_moved(b, fingers[i], timestamp));
    lemma_move_on(ui, fingers, timestamp, n + 1, fingers.len(), c);
}

/// A touch whose finger is not among those that are given stays as it is and is not
/// delivered.
pub proof fn law_others_stay(ui: TouchState, fingers: Seq<Finger>, timestamp: u64, c: int)
    requires
        0 <= c < ui.current.len(),
        touches_differ(ui.current),
        touch_laws::touches_known(ui),
        forall|j: int| 0 <= j < fingers.len() ==> (#[trigger] fingers[j]).id != ui.current[c].finger,
    ensures
        ({
            let s = ui_touch::fingers_moved(ui, fingers, timestamp, fingers.len());
            let t = ui.current[c].touch;
            s.ui.touches[t] == ui.touches[t] && !appears(s.groups, t)
        }),
{
    assert(ui.touches.contains_key(ui.current[c].touch));
    lemma_move_others(ui, fingers, timestamp, fingers.len(), c);
}

// Lifting

/// Whether `c` is among these touches.
pub open spec fn is_there(current: Seq<CurrentTouch>, c: CurrentTouch) -> bool {
    exists|i: int| 0 <= i < current.len() && #[trigger] current[i] == c
}

proof fn lemma_without_keeps(current: Seq<CurrentTouch>, f: FingerId, c: CurrentTouch)
    ensures
        is_there(ui_touch::without(current, f), c) <==> is_there(current, c) && c.finger != f,
    decreases current.len(),
{
    if current.len() > 0 {
        let rest = current.drop_last();
        lemma_without_keeps(rest, f, c);
        let w = ui_touch::without(current, f);
        let r = ui_touch::without(rest, f);
        if is_there(current, c) && c.finger != f {
            let i = choose|i: int| 0 <= i < current.len() && #[trigger] current[i] == c;
            if i < rest.len() {
                assert(rest[i] == c);
                let j = choose|j: int| 0 <= j < r.len() && #[trigger] r[j] == c;
                assert(w[j] == c);
            } else {
                assert(w[w.len() - 1] == c);
            }
        }
        if is_there(w, c) {
            let j = choose|j: int| 0 <= j < w.len() && #[trigger] w[j] == c;
            if j < r.len() {
                assert(r[j] == c);
                let i = choose|i: int| 0 <= i < rest.len() && #[trigger] rest[i] == c;
                assert(current[i] == c);
            } else {
                assert(current[current.len() - 1] == c);
            }
        }
    }
}

/// What is found is a touch that is there, and what is there is found.
proof fn lemma_found_there(current: Seq<CurrentTouch>, f: FingerId)
    ensures
        ui_touch::touch_of(current, f) matches Some(t) ==> is_there(
            current,
            CurrentTouch { finger: f, touch: t },
        ),
{
    lemma_found_is(current, f);
    if let Some(t) = ui_touch::touch_of(current, f) {
        let i = choose|i: int|
            0 <= i < current.len() && (#[trigger] current[i]).finger == f && current[i].touch == t;
        assert(current[i] == CurrentTouch { finger: f, touch: t });
    }
}

/// Of the touches that were there, those of other fingers than the first `n` are.
proof fn lemma_lift_current(
    ui: TouchState,
    fingers: Seq<Finger>,
    timestamp: u64,
    n: nat,
    c: CurrentTouch,
)
    requires
        n <= fingers.len(),
    ensures
        is_there(ui_touch::fingers_lifted(ui, fingers, timestamp, n).ui.current, c) ==> is_there(
            ui.current,
            c,
        ),
        (forall|j: int| 0 <= j < n ==> (#[trigger] fingers[j]).id != c.finger) && is_there(
            ui.current,
            c,
        ) ==> is_there(ui_touch::fingers_lifted(ui, fingers, timestamp, n).ui.current, c),
    decreases n,
{
    if n > 0 {
        lemma_lift_current(ui, fingers, timestamp, (n - 1) as nat, c);
        let b = ui_touch::fingers_lifted(ui, fingers, timestamp, (n - 1) as nat);
        lemma_without_keeps(b.ui.current, fingers[n - 1].id, c);
        if forall|j: int| 0 <= j < n ==> (#[trigger] fingers[j]).id != c.finger {
            assert(fingers[n - 1].id != c.finger);
        }
    }
}

/// One other finger that is lifted leaves a touch as it is.
proof fn lemma_lift_one(
    ui: TouchState,
    fingers: Seq<Finger>,
    timestamp: u64,
    n: nat,
    c: int,
)
    requires
        n < fingers.len(),
        0 <= c < ui.current.len(),
        touches_differ(ui.current),
        fingers[n as int].id != ui.current[c].finger,
    ensures
        ({
            let b = ui_touch::fingers_lifted(ui, fingers, timestamp, n);
            ui_touch::touch_of(b.ui.current, fingers[n as int].id) != Some(ui.current[c].touch)
        }),
{
    let b = ui_touch::fingers_lifted(ui, fingers, timestamp, n);
    let f = fingers[n as int].id;
    lemma_found_there(b.ui.current, f);
    if let Some(t) = ui_touch::touch_of(b.ui.current, f) {
        let e = CurrentTouch { finger: f, touch: t };
        lemma_lift_current(ui, fingers, timestamp, n, e);
        let i = choose|i: int| 0 <= i < ui.current.len() && #[trigger] ui.current[i] == e;
        if i < c {
            assert(ui.current[i].touch != ui.current[c].touch);
        } else if c < i {
            assert(ui.current[c].touch != ui.current[i].touch);
        }
    }
}

proof fn lemma_lift_others(
    ui: TouchState,
    fingers: Seq<Finger>,
    timestamp: u64,
    n: nat,
    c: int,
)
    requires
        n <= fingers.len(),
        0 <= c < ui.current.len(),
        touches_differ(ui.current),
        forall|j: int| 0 <= j < n ==> (#[trigger] fingers[j]).id != ui.current[c].finger,
    ensures
        ({
            let s = ui_touch::fingers_lifted(ui, fingers, timestamp, n);
            let t = ui.current[c].touch;
            &&& s.ui.touches.contains_key(t) == ui.touches.contains_key(t)
            &&& ui.touches.contains_key(t) ==> s.ui.touches[t] == ui.touches[t]
            &&& !appears(s.groups, t)
            &&& !s.released.contains(t)
        }),
    decreases n,
{
    let t = ui.current[c].touch;
    if n > 0 {
        lemma_lift_others(ui, fingers, timestamp, (n - 1) as nat, c);
        lemma_lift_one(ui, fingers, timestamp, (n - 1) as nat, c);
        let b = ui_touch::fingers_lifted(ui, fingers, timestamp, (n - 1) as nat);
        let f = fingers[n - 1];
        if let Some(u) = ui_touch::touch_of(b.ui.current, f.id) {
            lemma_grouped(b.groups, b.ui.touch(u).view, u, t);
            let r = b.released.push(u);
            if r.contains(t) {
                let k = choose|k: int| 0 <= k < r.len() && r[k] == t;
                assert(b.released[k] == t);
            }
        }
    } else {
        let s = ui_touch::fingers_lifted(ui, fingers, timestamp, n);
        assert(forall|t: id, g: int, k: int| !#[trigger] stands_at(s.groups, t, g, k));
    }
}

proof fn lemma_lift_on(
    ui: TouchState,
    fingers: Seq<Finger>,
    timestamp: u64,
    from: nat,
    n: nat,
    c: int,
)
    requires
        from <= n <= fingers.len(),
        0 <= c < ui.current.len(),
        touches_differ(ui.current),
        forall|j: int| from <= j < n ==> (#[trigger] fingers[j]).id != ui.current[c].finger,
    ensures
        ({
            let b = ui_touch::fingers_lifted(ui, fingers, timestamp, from);
            let s = ui_touch::fingers_lifted(ui, fingers, timestamp, n);
            let t = ui.current[c].touch;
            &&& s.ui.touches.contains_key(t) == b.ui.touches.contains_key(t)
            &&& b.ui.touches.contains_key(t) ==> s.ui.touches[t] == b.ui.touches[t]
            &&& b.released.contains(t) ==> s.released.contains(t)
            &&& forall|view: id| #[trigger]
                appears_once(b.groups, view, t) ==> appears_once(s.groups, view, t)
        }),
    decreases n,
{
    if n > from {
        lemma_lift_on(ui, fingers, timestamp, from, (n - 1) as nat, c);
        lemma_lift_one(ui, fingers, timestamp, (n - 1) as nat, c);
        let b = ui_touch::fingers_lifted(ui, fingers, timestamp, from);
        let s = ui_touch::fingers_lifted(ui, fingers, timestamp, (n - 1) as nat);
        let f = fingers[n - 1];
        let t = ui.current[c].touch;
        if let Some(u) = ui_touch::touch_of(s.ui.current, f.id) {
            let v = s.ui.touch(u).view;
            let last = ui_touch::fingers_lifted(ui, fingers, timestamp, n);
            assert forall|view: id| #[trigger] appears_once(b.groups, view, t) implies appears_once(
                last.groups,
                view,
                t,
            ) by {
                assert(appears_once(s.groups, view, t));
                lemma_grouped_keeps(s.groups, v, u, view, t);
            }
            if b.released.contains(t) {
                let k = choose|k: int| 0 <= k < s.released.len() && s.released[k] == t;
                assert(last.released[k] == t);
            }
        }
    }
}

/// A finger that makes a touch and is given once ends the touch: it is at the point
/// where the finger was lifted, its previous point is where it was, it has ended, it
/// is delivered once, to its view, and is released.
pub proof fn law_finger_lifts(
    ui: TouchState,
    fingers: Seq<Finger>,
    timestamp: u64,
    i: int,
    c: int,
)
    requires
        0 <= i < fingers.len(),
        0 <= c < ui.current.len(),
        touch_laws::fingers_differ(ui.current),
        touches_differ(ui.current),
        touch_laws::touches_known(ui),
        fingers[i].id == ui.current[c].finger,
        forall|j: int|
            0 <= j < fingers.len() && j != i ==> (#[trigger] fingers[j]).id != fingers[i].id,
    ensures
        ({
            let s = ui_touch::fingers_lifted(ui, fingers, timestamp, fingers.len());
            let t = ui.current[c].touch;
            let before = ui.touches[t];
            &&& s.ui.touches.contains_key(t)
            &&& s.ui.touches[t] == (Touch {
                location: fingers[i].coords,
                previous_location: before.location,
                timestamp,
                phase: 3,
                start_location: before.start_location,
                view: before.view,
                window: before.window,
            })
            &&& appears_once(s.groups, before.view, t)
            &&& s.released.contains(t)
        }),
{
    let t = ui.current[c].touch;
    assert(ui.touches.contains_key(t));
    let n = i as nat;
    lemma_lift_others(ui, fingers, timestamp, n, c);
    let b = ui_touch::fingers_lifted(ui, fingers, timestamp, n);
    let m = ui_touch::fingers_lifted(ui, fingers, timestamp, n + 1);
    lemma_found(ui.current, c);
    touch_laws::law_lifted_fingers_are_gone(ui, fingers, timestamp, n, fingers[i].id);
    assert(ui_touch::touch_of(b.ui.current, fingers[i].id) == Some(t));
    lemma_grouped(b.groups, ui.touches[t].view, t, t);
    assert(m == ui_touch::finger_lifted(b, fingers[i], timestamp));
    assert(m.released[m.released.len() - 1] == t);
    assert(m.released.contains(t));
    assert(b.ui.touch(t) == ui.touches[t]);
    assert(appears_once(m.groups, ui.touches[t].view, t));
    lemma_lift_on(ui, fingers, timestamp, n + 1, fingers.len(), c);
}

/// A touch whose finger is not lifted stays as it is: it is there, it is not
/// delivered and not released.
pub proof fn law_others_not_lifted(ui: TouchState, fingers: Seq<Finger>, timestamp: u64, c: int)
    requires
        0 <= c < ui.current.len(),
        touches_differ(ui.current),
        touch_laws::touches_known(ui),
        forall|j: int| 0 <= j < fingers.len() ==> (#[trigger] fingers[j]).id != ui.current[c].finger,
    ensures
        ({
            let s = ui_touch::fingers_lifted(ui, fingers, timestamp, fingers.len());
            let t = ui.current[c].touch;
            &&& s.ui.touches[t] == ui.touches[t]
            &&& is_there(s.ui.current, ui.current[c])
            &&& !appears(s.groups, t) && !s.released.contains(t)
        }),
{
    assert(ui.touches.contains_key(ui.current[c].touch));
    lemma_lift_others(ui, fingers, timestamp, fingers.len(), c);
    assert(is_there(ui.current, ui.current[c]));
    lemma_lift_current(ui, fingers, timestamp, fingers.len(), ui.current[c]);
}

} // verus!
