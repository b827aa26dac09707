//! What touching the screen does, and what comes of an event.
use crate::frameworks::uikit::touch_laws;
use crate::frameworks::uikit::touch_motion;
use crate::frameworks::uikit::touch_target;
use crate::frameworks::uikit::touch_target::ViewTree;
use crate::frameworks::uikit::ui_touch;
use crate::frameworks::uikit::ui_touch::{
    ActionView, CurrentTouch, DownView, Event, Finger, FingerId, Handling, MultitouchOptions, Point, Reply,
    Stage, Touch, TouchState,
};
use crate::objc::classes::{id, nil};
use crate::objc::names::Name;
use vstd::prelude::*;

verus! {

/// Whether no touch but `t` differs between two states, and the same are there.
pub open spec fn others_same(a: TouchState, b: TouchState, t: id) -> bool {
    &&& forall|u: id| u != t ==> #[trigger] b.touches.contains_key(u) == a.touches.contains_key(u)
    &&& forall|u: id|
        u != t && a.touches.contains_key(u) ==> #[trigger] b.touches[u] == a.touches[u]
}

// New touches

/// A finger that makes no touch gets one: it is where the finger is, was and started,
/// it has begun, it belongs to no view yet, and it comes last among those that are
/// there. The next finger follows, if there is one.
pub proof fn law_touch_made(d: DownView, ui: TouchState, object: id)
    requires
        d.stage == Stage::Create,
        0 <= d.next < d.fingers.len(),
    ensures
        ({
            let f = d.fingers[d.next];
            let at = f.coords;
            d.step(ui, Reply::Object { object }) matches Some(s) && {
                &&& s.ui.touches.contains_key(object)
                &&& s.ui.touches[object] == (Touch {
                    view: nil,
                    window: nil,
                    location: at,
                    previous_location: at,
                    start_location: at,
                    timestamp: d.timestamp,
                    phase: 0,
                })
                &&& s.ui.current.len() == ui.current.len() + 1
                &&& s.ui.current.take(ui.current.len() as int) == ui.current
                &&& s.ui.current.last() == (CurrentTouch { finger: f.id, touch: object })
                &&& others_same(ui, s.ui, object)
                &&& s.down.new_touches == d.new_touches.push(object)
                &&& d.next + 1 < d.fingers.len() ==> match ui_touch::touch_of(
                    s.ui.current,
                    d.fingers[d.next + 1].id,
                ) {
                    Some(_) => s.action == (ActionView::Move { finger: d.fingers[d.next + 1] }),
                    None => s.action == ActionView::NewTouch && s.down.next == d.next + 1,
                }
            }
        }),
{
    assert(ui.current.push(
        CurrentTouch { finger: d.fingers[d.next].id, touch: object },
    ).take(ui.current.len() as int) =~= ui.current);
}

/// Once every finger has its touch, an event is made for all touches that are there, in
/// order, the old ones and the new ones.
pub proof fn law_event_made(d: DownView, ui: TouchState, object: id)
    requires
        d.stage == Stage::Create,
        0 <= d.next == d.fingers.len() - 1,
    ensures
        d.step(ui, Reply::Object { object }) matches Some(s) && s.action is MakeEvent && ({
            let touches = s.action->MakeEvent_touches;
            &&& touches.len() == ui.current.len() + 1
            &&& forall|i: int|
                0 <= i < ui.current.len() ==> #[trigger] touches[i] == ui.current[i].touch
            &&& touches.last() == object
            &&& s.down.existing_views.len() == touches.len()
            &&& forall|i: int|
                0 <= i < ui.current.len() && ui.current[i].touch != object
                    && ui.touches.contains_key(ui.current[i].touch)
                    ==> #[trigger] s.down.existing_views[i]
                    == ui.touches[ui.current[i].touch].view
            &&& s.down.existing_views.last() == nil
            &&& s.down.step(s.ui, Reply::Done) matches Some(next) && next.ui == s.ui && (
            s.down.placed < s.down.new_touches.len() ==> next.action == ActionView::Windows)
        }),
{
}

/// A finger that makes a touch already is treated as one that has moved, and no touch
/// is made for it.
pub proof fn law_known_finger_moves(
    ui: TouchState,
    fingers: Seq<Finger>,
    timestamp: u64,
    options: MultitouchOptions,
    c: int,
)
    requires
        fingers.len() > 0,
        0 <= c < ui.current.len(),
        ui.current[c].finger == fingers[0].id,
    ensures
        ({
            let s = ui_touch::touches_down(fingers, timestamp, options).create_next(ui);
            s.ui == ui && s.action == (ActionView::Move { finger: fingers[0] })
        }),
{
    lemma_some(ui.current, c);
}

proof fn lemma_some(current: Seq<CurrentTouch>, c: int)
    requires
        0 <= c < current.len(),
    ensures
        ui_touch::touch_of(current, current[c].finger) is Some,
    decreases current.len(),
{
    if c < current.len() - 1 {
        lemma_some(current.drop_last(), c);
    }
}

// Looking for a view

/// Windows are asked from the frontmost, which comes last, to the one at the back,
/// whether the touch is inside; the first that says so is asked for the view at the
/// point, in its own coordinates. If none does, the frontmost gets the touch.
pub proof fn law_windows_asked(
    d: DownView,
    ui: TouchState,
    windows: Vec<id>,
    index: usize,
    point: Point,
)
    requires
        0 <= d.placed < d.new_touches.len(),
        ui.touches.contains_key(d.new_touches[d.placed]),
    ensures
        ({
            let location = ui.touches[d.new_touches[d.placed]].location;
            &&& d.stage == Stage::Windows && windows@.len() > 0 && windows@.len() <= usize::MAX ==> (
            d.step(ui, Reply::Objects { objects: windows }) matches Some(s) && s.ui == ui
                && s.action == (ActionView::PointInside { window: windows@.last(), location })
                && s.down.windows == windows@ && s.down.stage == (Stage::Probe {
                index: (windows@.len() - 1) as usize,
            }))
            &&& d.stage == (Stage::Probe { index }) && index < d.windows.len() ==> (d.step(
                ui,
                Reply::Inside { inside: true, point },
            ) matches Some(s) && s.ui == ui && s.action == (ActionView::HitTest {
                window: d.windows[index as int],
                point,
            }))
            &&& d.stage == (Stage::Probe { index }) && 0 < index < d.windows.len() ==> (d.step(
                ui,
                Reply::Inside { inside: false, point },
            ) matches Some(s) && s.ui == ui && s.action == (ActionView::PointInside {
                window: d.windows[index - 1],
                location,
            }) && s.down.stage == (Stage::Probe { index: (index - 1) as usize }))
            &&& d.stage == (Stage::Probe { index: 0 }) && d.windows.len() > 0 ==> (d.step(
                ui,
                Reply::Inside { inside: false, point },
            ) matches Some(s) && s.ui == ui && s.action == (ActionView::ConvertPoint {
                window: d.windows.last(),
                location,
            }) && s.down.stage == (Stage::Convert { window: d.windows.last() }))
        }),
{
}

/// The view that a window names is asked whether it takes several touches at a time.
/// Where the window names none but itself, a view that a game draws into is looked
/// for in it, and the window itself is asked if there is none.
pub proof fn law_view_found(
    d: DownView,
    ui: TouchState,
    window: id,
    point: Point,
    view: id,
    tree: ViewTree,
)
    requires
        window != nil,
    ensures
        ({
            let convert = DownView { stage: Stage::Convert { window }, ..d };
            let hit = DownView { stage: Stage::Hit { window }, ..d };
            let in_tree = DownView { stage: Stage::Tree { window }, ..d };
            &&& convert.step(ui, Reply::Converted { point }) matches Some(s) && s.ui == ui
                && s.action == (ActionView::HitTest { window, point })
            &&& view != nil && view != window ==> (hit.step(
                ui,
                Reply::Object { object: view },
            ) matches Some(s) && s.ui == ui && s.action == (ActionView::IsMultipleTouchEnabled {
                view,
            }) && s.down.stage == (Stage::Multi { window, view }))
            &&& view == nil || view == window ==> (hit.step(
                ui,
                Reply::Object { object: view },
            ) matches Some(s) && s.ui == ui && s.action == (ActionView::ViewTree { root: window }))
            &&& in_tree.step(ui, Reply::Tree { tree }) matches Some(s) && s.ui == ui && {
                let found = touch_target::target(tree);
                &&& found != nil ==> s.action == (ActionView::IsMultipleTouchEnabled {
                    view: found,
                })
                &&& found == nil ==> s.action == (ActionView::IsMultipleTouchEnabled {
                    view: window,
                })
            }
        }),
{
}

/// Whether the touch is given to the view.
pub open spec fn is_given(
    d: DownView,
    ui: TouchState,
    s: ui_touch::DownStep,
    window: id,
    view: id,
) -> bool {
    let t = d.new_touches[d.placed];
    &&& s.ui == ui
    &&& s.action == (ActionView::Retain { view, window })
    &&& s.down.stage == (Stage::Retain { window, view })
    &&& !touch_motion::appears(d.groups, t) ==> touch_motion::appears_once(s.down.groups, view, t)
}

/// A view that takes several touches at a time gets the touch, and so does every view
/// where that is forced. Where one touch at a time is forced, or the view wants that
/// and is no view that a game draws into, it gets the touch if it has no other.
pub proof fn law_view_gets_touch(
    d: DownView,
    ui: TouchState,
    window: id,
    view: id,
    flag: bool,
)
    requires
        d.stage == (Stage::Multi { window, view }),
        0 <= d.placed < d.new_touches.len(),
    ensures
        d.step(ui, Reply::Flag { flag }) matches Some(s) && ({
            &&& flag || (d.options.force_multi && !d.options.force_single) ==> is_given(
                d,
                ui,
                s,
                window,
                view,
            )
            &&& !flag && !d.options.force_multi && !d.options.force_single ==> s.ui == ui
                && s.action == (ActionView::ClassName { view }) && s.down.stage == (Stage::Class {
                window,
                view,
            })
            &&& !flag && d.options.force_single && !has_view(d, view) ==> is_given(
                d,
                ui,
                s,
                window,
                view,
            )
        }),
{
    let t = d.new_touches[d.placed];
    touch_motion::lemma_grouped(d.groups, view, t, t);
    ui_touch::lemma_group_index(d.groups, view);
    lemma_has_view(d, view);
}

/// Whether the view has a touch already, an old one or a new one.
pub open spec fn has_view(d: DownView, view: id) -> bool {
    d.existing_views.contains(view) || exists|g: int|
        0 <= g < d.groups.len() && (#[trigger] d.groups[g]).view == view
}

proof fn lemma_has_view(d: DownView, view: id)
    ensures
        ui_touch::has_group(d.groups, view) || d.existing_views.contains(view) <==> has_view(
            d,
            view,
        ),
{
    ui_touch::lemma_group_index(d.groups, view);
    if exists|g: int| 0 <= g < d.groups.len() && (#[trigger] d.groups[g]).view == view {
        let g = choose|g: int| 0 <= g < d.groups.len() && (#[trigger] d.groups[g]).view == view;
        if ui_touch::group_index(d.groups, view) == d.groups.len() {
            assert(d.groups[g].view != view);
        }
    }
}

/// A view that takes one touch at a time and has one gets the new touch in the place of
/// the others on it, which are released; if there are none on it, the new touch is
/// dropped.
pub proof fn law_single_view(d: DownView, ui: TouchState, window: id, view: id, name: Name)
    requires
        d.stage == (Stage::Class { window, view }),
        0 <= d.placed < d.new_touches.len(),
        !ui_touch::allows_multitouch(d.options, name@),
    ensures
        d.step(ui, Reply::Class { name }) matches Some(s) && ({
            let t = d.new_touches[d.placed];
            let others = |c: CurrentTouch|
                c.touch != t && ui.touch(c.touch).view == view;
            &&& !has_view(d, view) ==> is_given(d, ui, s, window, view)
            &&& has_view(d, view) ==> s.down.groups == d.groups && s.ui.touches == ui.touches
            &&& has_view(d, view) && s.action is Release ==> {
                let gone = s.action->Release_touches;
                &&& gone.len() > 0
                &&& forall|i: int|
                    0 <= i < gone.len() ==> exists|k: int|
                        0 <= k < ui.current.len() && others(#[trigger] ui.current[k])
                            && ui.current[k].touch == #[trigger] gone[i]
                &&& forall|k: int|
                    0 <= k < ui.current.len() && others(#[trigger] ui.current[k]) ==> gone.contains(
                        ui.current[k].touch,
                    ) && ui_touch::touch_of(s.ui.current, ui.current[k].finger) is None
                &&& forall|k: int|
                    0 <= k < ui.current.len() && (forall|j: int|
                        0 <= j < ui.current.len() && others(#[trigger] ui.current[j])
                            ==> ui.current[j].finger != ui.current[k].finger)
                        ==> s.ui.current.contains(#[trigger] ui.current[k])
                &&& s.down.stage == (Stage::Release { window, view })
            }
            &&& has_view(d, view) && !(s.action is Release) ==> s.ui == ui && s.down.placed
                == d.placed + 1 && forall|k: int|
                0 <= k < ui.current.len() ==> !others(#[trigger] ui.current[k])
        }),
{
    let t = d.new_touches[d.placed];
    touch_motion::lemma_grouped(d.groups, view, t, t);
    lemma_has_view(d, view);
    let stuck = ui_touch::others_on(ui, ui.current, view, t);
    lemma_stuck(ui, ui.current, view, t);
    lemma_gone_keeps_touches(ui, stuck);
    let others = |c: CurrentTouch| c.touch != t && ui.touch(c.touch).view == view;
    let s = d.step(ui, Reply::Class { name })->0;
    if has_view(d, view) && s.action is Release {
        let gone = s.action->Release_touches;
        assert forall|i: int| 0 <= i < gone.len() implies exists|k: int|
            0 <= k < ui.current.len() && others(#[trigger] ui.current[k]) && ui.current[k].touch
                == #[trigger] gone[i] by {
            assert(stuck[i] == stuck[i]);
            let k = choose|k: int|
                0 <= k < ui.current.len() && #[trigger] ui.current[k] == stuck[i];
            assert(others(ui.current[k]));
        }
        assert forall|k: int| 0 <= k < ui.current.len() && others(#[trigger] ui.current[k]) implies
            gone.contains(ui.current[k].touch) && ui_touch::touch_of(
            s.ui.current,
            ui.current[k].finger,
        ) is None by {
            let i = choose|i: int| 0 <= i < stuck.len() && #[trigger] stuck[i] == ui.current[k];
            assert(gone[i] == ui.current[k].touch);
            lemma_gone(ui, stuck, i);
        }
        assert forall|k: int|
            0 <= k < ui.current.len() && (forall|j: int|
                0 <= j < ui.current.len() && others(#[trigger] ui.current[j])
                    ==> ui.current[j].finger != ui.current[k].finger) implies s.ui.current.contains(
            #[trigger] ui.current[k],
        ) by {
            assert forall|i: int| 0 <= i < stuck.len() implies (#[trigger] stuck[i]).finger
                != ui.current[k].finger by {
                let j = choose|j: int|
                    0 <= j < ui.current.len() && #[trigger] ui.current[j] == stuck[i];
                assert(others(ui.current[j]));
            }
            lemma_left(ui, stuck, k);
        }
    }
    if has_view(d, view) && !(s.action is Release) {
        assert forall|k: int| 0 <= k < ui.current.len() implies !others(
            #[trigger] ui.current[k],
        ) by {
            if others(ui.current[k]) {
                assert(stuck.len() > 0);
            }
        }
    }
}

proof fn lemma_without(current: Seq<CurrentTouch>, finger: FingerId, k: int)
    requires
        0 <= k < current.len(),
        current[k].finger != finger,
    ensures
        ui_touch::without(current, finger).contains(current[k]),
    decreases current.len(),
{
    let rest = current.drop_last();
    let r = ui_touch::without(rest, finger);
    let all = ui_touch::without(current, finger);
    if k < rest.len() {
        lemma_without(rest, finger, k);
        assert(rest[k] == current[k]);
        let i = choose|i: int| 0 <= i < r.len() && #[trigger] r[i] == rest[k];
        assert(all[i] == current[k]);
    } else {
        assert(all[all.len() - 1] == current[k]);
    }
}

proof fn lemma_without_finger(current: Seq<CurrentTouch>, finger: FingerId, other: FingerId)
    ensures
        ui_touch::touch_of(ui_touch::without(current, finger), finger) is None,
        ui_touch::touch_of(current, other) is None ==> ui_touch::touch_of(
            ui_touch::without(current, finger),
            other,
        ) is None,
    decreases current.len(),
{
    if current.len() > 0 {
        let rest = current.drop_last();
        lemma_without_finger(rest, finger, other);
        let r = ui_touch::without(rest, finger);
        assert(r.push(current.last()).drop_last() =~= r);
    }
}

/// The fingers of released touches make none any more.
proof fn lemma_gone(ui: TouchState, gone: Seq<CurrentTouch>, i: int)
    requires
        0 <= i < gone.len(),
    ensures
        ui_touch::touch_of(ui_touch::without_all(ui, gone).current, gone[i].finger) is None,
    decreases gone.len(),
{
    let rest = gone.drop_last();
    let before = ui_touch::without_all(ui, rest).current;
    lemma_without_finger(before, gone.last().finger, gone[i].finger);
    if i < rest.len() {
        lemma_gone(ui, rest, i);
        assert(rest[i] == gone[i]);
    }
}

/// The touches of other fingers are left.
proof fn lemma_left(ui: TouchState, gone: Seq<CurrentTouch>, k: int)
    requires
        0 <= k < ui.current.len(),
        forall|i: int| 0 <= i < gone.len() ==> (#[trigger] gone[i]).finger != ui.current[k].finger,
    ensures
        ui_touch::without_all(ui, gone).current.contains(ui.current[k]),
    decreases gone.len(),
{
    if gone.len() > 0 {
        let rest = gone.drop_last();
        assert forall|i: int| 0 <= i < rest.len() implies (#[trigger] rest[i]).finger
            != ui.current[k].finger by {
            assert(rest[i] == gone[i]);
        }
        lemma_left(ui, rest, k);
        let before = ui_touch::without_all(ui, rest).current;
        let j = choose|j: int| 0 <= j < before.len() && #[trigger] before[j] == ui.current[k];
        assert(gone[gone.len() - 1].finger != ui.current[k].finger);
        lemma_without(before, gone.last().finger, j);
    }
}

/// Once the others are released, the view gets the new touch.
pub proof fn law_released_view_gets_touch(d: DownView, ui: TouchState, window: id, view: id)
    requires
        d.stage == (Stage::Release { window, view }),
        0 <= d.placed < d.new_touches.len(),
    ensures
        d.step(ui, Reply::Done) matches Some(s) && is_given(d, ui, s, window, view),
{
    let t = d.new_touches[d.placed];
    touch_motion::lemma_grouped(d.groups, view, t, t);
}

/// Without any window the touch goes nowhere, and it is the turn of the next one.
pub proof fn law_no_window(d: DownView, ui: TouchState, windows: Vec<id>)
    requires
        d.stage == Stage::Windows,
        windows@.len() == 0,
        0 <= d.placed < d.new_touches.len(),
    ensures
        d.step(ui, Reply::Objects { objects: windows }) matches Some(s) && s.ui == ui && s.down.groups
            == d.groups && s.down.placed == d.placed + 1 && (d.placed + 1 == d.new_touches.len()
            ==> s.action == (ActionView::Deliver { groups: d.groups })) && (d.placed + 1
            < d.new_touches.len() ==> s.action == ActionView::Windows),
{
}

/// One touch at a time can be forced, and then nothing allows more; otherwise more can
/// be forced, and views that a game draws into allow them.
pub proof fn law_multitouch_options(options: MultitouchOptions, name: Seq<u8>)
    ensures
        options.force_single ==> !ui_touch::allows_multitouch(options, name),
        !options.force_single && options.force_multi ==> ui_touch::allows_multitouch(options, name),
        !options.force_single && !options.force_multi ==> ui_touch::allows_multitouch(options, name)
            == touch_target::is_game_view_name(name),
{
}

proof fn lemma_stuck(ui: TouchState, current: Seq<CurrentTouch>, view: id, t: id)
    ensures
        ({
            let stuck = ui_touch::others_on(ui, current, view, t);
            &&& forall|i: int|
                0 <= i < stuck.len() ==> (#[trigger] stuck[i]).touch != t && ui.touch(
                    stuck[i].touch,
                ).view == view && exists|k: int|
                    0 <= k < current.len() && #[trigger] current[k] == stuck[i]
            &&& forall|k: int|
                0 <= k < current.len() && (#[trigger] current[k]).touch != t && ui.touch(
                    current[k].touch,
                ).view == view ==> stuck.len() > 0 && exists|i: int|
                    0 <= i < stuck.len() && #[trigger] stuck[i] == current[k]
        }),
    decreases current.len(),
{
    if current.len() > 0 {
        let rest = current.drop_last();
        lemma_stuck(ui, rest, view, t);
        let r = ui_touch::others_on(ui, rest, view, t);
        let stuck = ui_touch::others_on(ui, current, view, t);
        assert forall|i: int| 0 <= i < stuck.len() implies (#[trigger] stuck[i]).touch != t
            && ui.touch(stuck[i].touch).view == view && exists|k: int|
            0 <= k < current.len() && #[trigger] current[k] == stuck[i] by {
            if i < r.len() {
                assert(r[i] == stuck[i]);
                let k = choose|k: int| 0 <= k < rest.len() && #[trigger] rest[k] == r[i];
                assert(current[k] == stuck[i]);
            } else {
                assert(current[current.len() - 1] == stuck[i]);
            }
        }
        assert forall|k: int|
            0 <= k < current.len() && (#[trigger] current[k]).touch != t && ui.touch(
                current[k].touch,
            ).view == view implies stuck.len() > 0 && exists|i: int|
            0 <= i < stuck.len() && #[trigger] stuck[i] == current[k] by {
            if k < rest.len() {
                assert(rest[k].touch != t);
                let i = choose|i: int| 0 <= i < r.len() && #[trigger] r[i] == rest[k];
                assert(stuck[i] == current[k]);
            } else {
                assert(stuck[stuck.len() - 1] == current[k]);
            }
        }
    }
}

proof fn lemma_gone_keeps_touches(ui: TouchState, gone: Seq<CurrentTouch>)
    ensures
        ui_touch::without_all(ui, gone).touches == ui.touches,
    decreases gone.len(),
{
    if gone.len() > 0 {
        lemma_gone_keeps_touches(ui, gone.drop_last());
    }
}

/// Once the view and the window are retained, the touch belongs to them, and is
/// otherwise as it was; the next touch is placed, or, when there is none, each view
/// gets its touches.
pub proof fn law_touch_placed(d: DownView, ui: TouchState, window: id, view: id)
    requires
        d.stage == (Stage::Retain { window, view }),
        0 <= d.placed < d.new_touches.len(),
        ui.touches.contains_key(d.new_touches[d.placed]),
    ensures
        d.step(ui, Reply::Done) matches Some(s) && ({
            let t = d.new_touches[d.placed];
            &&& s.ui.touches.contains_key(t)
            &&& s.ui.touches[t] == (Touch { view, window, ..ui.touches[t] })
            &&& s.ui.current == ui.current
            &&& others_same(ui, s.ui, t)
            &&& s.down.groups == d.groups
            &&& s.down.placed == d.placed + 1
            &&& d.placed + 1 < d.new_touches.len() ==> s.action == ActionView::Windows
            &&& d.placed + 1 == d.new_touches.len() ==> s.action == (ActionView::Deliver {
                groups: d.groups,
            })
        }),
{
}

// Views that games draw into

/// Whether this view is in the tree, and its class has a name of the right kind.
pub open spec fn is_in(t: ViewTree, view: id) -> bool
    decreases t, 0nat,
{
    (t.view == view && touch_target::is_game_view_name(t.class_name@)) || is_among(
        t.subviews@,
        t.subviews@.len(),
        view,
    )
}

/// Whether this view is in one of the first `n` trees.
pub open spec fn is_among(trees: Seq<ViewTree>, n: nat, view: id) -> bool
    decreases trees, n,
{
    0 < n <= trees.len() && (is_in(trees[n - 1], view) || is_among(trees, (n - 1) as nat, view))
}

proof fn lemma_is_among(trees: Seq<ViewTree>, n: nat, i: int, view: id)
    requires
        0 <= i < n <= trees.len(),
        is_in(trees[i], view),
    ensures
        is_among(trees, n, view),
    decreases n,
{
    if i < n - 1 {
        lemma_is_among(trees, (n - 1) as nat, i, view);
    }
}

/// The view that gets touches which no other wants is a view of the tree whose class
/// has a name of the right kind; a view in front comes before one behind it, and one
/// inside a view before that view.
pub proof fn law_target(t: ViewTree)
    ensures
        touch_target::target(t) != nil ==> is_in(t, touch_target::target(t)),
        t.view != nil && touch_target::is_game_view_name(t.class_name@) ==> touch_target::target(t)
            != nil,
        t.view != nil ==> forall|i: int|
            #![trigger t.subviews@[i]]
            0 <= i < t.subviews@.len() && touch_target::target(t.subviews@[i]) != nil && (forall|
                j: int,
            |
                i < j < t.subviews@.len() ==> touch_target::target(#[trigger] t.subviews@[j]) == nil)
                ==> touch_target::target(t) == touch_target::target(t.subviews@[i]),
    decreases t,
{
    lemma_among(t.subviews@, t.subviews@.len());
    let n = t.subviews@.len();
    let found = touch_target::target_among(t.subviews@, n);
    if touch_target::target(t) != nil && found != nil {
        let i = choose|i: int|
            0 <= i < n && touch_target::target(#[trigger] t.subviews@[i]) == found && forall|j: int|
                i < j < n ==> touch_target::target(#[trigger] t.subviews@[j]) == nil;
        law_target(t.subviews@[i]);
        lemma_is_among(t.subviews@, n, i, found);
    }
    assert forall|i: int|
        #![trigger t.subviews@[i]]
        t.view != nil && 0 <= i < n && touch_target::target(t.subviews@[i]) != nil && (forall|
            j: int,
        |
            i < j < n ==> touch_target::target(#[trigger] t.subviews@[j]) == nil) implies
        touch_target::target(t) == touch_target::target(t.subviews@[i]) by {
        if found == nil {
            assert(touch_target::target(t.subviews@[i]) == nil);
        } else {
            let k = choose|k: int|
                0 <= k < n && touch_target::target(#[trigger] t.subviews@[k]) == found && forall|
                    j: int,
                |
                    k < j < n ==> touch_target::target(#[trigger] t.subviews@[j]) == nil;
            if k < i {
                assert(touch_target::target(t.subviews@[i]) == nil);
            } else if i < k {
                assert(touch_target::target(t.subviews@[k]) == nil);
            }
        }
    }
}

proof fn lemma_among(trees: Seq<ViewTree>, n: nat)
    requires
        n <= trees.len(),
    ensures
        ({
            let found = touch_target::target_among(trees, n);
            &&& found != nil ==> exists|i: int|
                0 <= i < n && touch_target::target(#[trigger] trees[i]) == found && forall|j: int|
                    i < j < n ==> touch_target::target(#[trigger] trees[j]) == nil
            &&& found == nil ==> forall|i: int|
                0 <= i < n ==> touch_target::target(#[trigger] trees[i]) == nil
        }),
    decreases n,
{
    if n > 0 {
        lemma_among(trees, (n - 1) as nat);
        let found = touch_target::target_among(trees, n);
        if touch_target::target(trees[n - 1]) != nil {
            assert(touch_target::target(trees[n - 1]) == found);
        } else if found != nil {
            let i = choose|i: int|
                0 <= i < n - 1 && touch_target::target(#[trigger] trees[i]) == found && forall|
                    j: int,
                |
                    i < j < n - 1 ==> touch_target::target(#[trigger] trees[j]) == nil;
            assert(touch_target::target(trees[i]) == found);
        }
    }
}

// Events

/// Until an event says otherwise, a touch that is there is stationary when it comes,
/// and otherwise as it was.
pub proof fn law_stationary_keeps(ui: TouchState, n: nat, c: int)
    requires
        touch_laws::touches_known(ui),
        n <= ui.current.len(),
        0 <= c < ui.current.len(),
    ensures
        ({
            let t = ui.current[c].touch;
            let s = ui.stationary(n);
            &&& s.current == ui.current
            &&& s.touches.contains_key(t)
            &&& s.touches[t] == ui.touches[t] || s.touches[t] == (Touch {
                phase: 2,
                ..ui.touches[t]
            })
            &&& c < n ==> s.touches[t] == (Touch { phase: 2, ..ui.touches[t] })
        }),
    decreases n,
{
    assert(ui.touches.contains_key(ui.current[c].touch));
    if n > 0 {
        law_stationary_keeps(ui, (n - 1) as nat, c);
        law_stationary_keeps(ui, (n - 1) as nat, n - 1);
    }
}

/// When fingers move, a finger that has moved has its touch moved and delivered as
/// such; one that has not leaves it stationary and undelivered; and all touches that
/// are there go with the event.
pub proof fn law_move_handled(
    before: TouchState,
    fingers: Vec<Finger>,
    timestamp: u64,
    options: MultitouchOptions,
    after: TouchState,
    handling: Handling,
    i: int,
    c: int,
)
    requires
        ui_touch::handled(
            before,
            Event::TouchesMove { fingers },
            timestamp,
            options,
            after,
            handling,
        ),
        0 <= i < fingers@.len(),
        0 <= c < before.current.len(),
        touch_laws::fingers_differ(before.current),
        touch_motion::touches_differ(before.current),
        touch_laws::touches_known(before),
        fingers@[i].id == before.current[c].finger,
        forall|j: int|
            0 <= j < fingers@.len() && j != i ==> (#[trigger] fingers@[j]).id != fingers@[i].id,
    ensures
        ({
            let t = before.current[c].touch;
            let old = before.touches[t];
            let to = fingers@[i].coords;
            let delivery = handling->delivery@;
            &&& handling is Deliver
            &&& delivery.phase == 1
            &&& delivery.released.len() == 0
            &&& after.current == before.current
            &&& delivery.all_touches.len() == before.current.len()
            &&& delivery.all_touches[c] == t
            &&& touch_motion::has_moved(old.location, to) ==> after.touches[t] == (Touch {
                location: to,
                previous_location: old.location,
                timestamp,
                phase: 1,
                ..old
            }) && touch_motion::appears_once(delivery.groups, old.view, t)
            &&& !touch_motion::has_moved(old.location, to) ==> after.touches[t] == (Touch {
                phase: 2,
                ..old
            }) && !touch_motion::appears(delivery.groups, t)
        }),
{
    let n = before.current.len();
    let ui = before.stationary(n);
    law_stationary_keeps(before, n, c);
    assert forall|k: int| 0 <= k < ui.current.len() implies ui.touches.contains_key(
        (#[trigger] ui.current[k]).touch,
    ) by {
        law_stationary_keeps(before, n, k);
    }
    touch_motion::law_finger_moves(ui, fingers@, timestamp, i, c);
}

/// When fingers are lifted, the touch of each ends, is delivered as such, and is no
/// longer there; all touches that were there go with the event.
pub proof fn law_lift_handled(
    before: TouchState,
    fingers: Vec<Finger>,
    timestamp: u64,
    options: MultitouchOptions,
    after: TouchState,
    handling: Handling,
    i: int,
    c: int,
)
    requires
        ui_touch::handled(
            before,
            Event::TouchesUp { fingers },
            timestamp,
            options,
            after,
            handling,
        ),
        0 <= i < fingers@.len(),
        0 <= c < before.current.len(),
        touch_laws::fingers_differ(before.current),
        touch_motion::touches_differ(before.current),
        touch_laws::touches_known(before),
        fingers@[i].id == before.current[c].finger,
        forall|j: int|
            0 <= j < fingers@.len() && j != i ==> (#[trigger] fingers@[j]).id != fingers@[i].id,
    ensures
        ({
            let t = before.current[c].touch;
            let old = before.touches[t];
            let delivery = handling->delivery@;
            &&& handling is Deliver
            &&& delivery.phase == 3
            &&& delivery.released.contains(t)
            &&& delivery.all_touches.len() == before.current.len()
            &&& delivery.all_touches[c] == t
            &&& after.touches[t] == (Touch {
                location: fingers@[i].coords,
                previous_location: old.location,
                timestamp,
                phase: 3,
                ..old
            })
            &&& touch_motion::appears_once(delivery.groups, old.view, t)
            &&& ui_touch::touch_of(after.current, fingers@[i].id) is None
        }),
{
    let n = before.current.len();
    let ui = before.stationary(n);
    law_stationary_keeps(before, n, c);
    assert forall|k: int| 0 <= k < ui.current.len() implies ui.touches.contains_key(
        (#[trigger] ui.current[k]).touch,
    ) by {
        law_stationary_keeps(before, n, k);
    }
    touch_motion::law_finger_lifts(ui, fingers@, timestamp, i, c);
    touch_laws::law_lifted_fingers_are_gone(
        ui,
        fingers@,
        timestamp,
        fingers@.len(),
        fingers@[i].id,
    );
}

} // verus!
