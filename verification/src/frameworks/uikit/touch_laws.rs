//! What holds of touches whatever happens.
use crate::frameworks::uikit::ui_touch;
use crate::frameworks::uikit::ui_touch::{
    CurrentTouch, DownView, Finger, FingerId, GroupView, MultitouchOptions, Reply, Sweep, TouchState, UITouchPhase,
    UITouchPhaseEnded, UITouchPhaseMoved, UITouchPhaseStationary,
};
use crate::objc::classes::id;
use vstd::prelude::*;

verus! {

/// No finger makes two touches.
pub open spec fn fingers_differ(current: Seq<CurrentTouch>) -> bool {
    forall|i: int, j: int|
        0 <= i < j < current.len() ==> (#[trigger] current[i]).finger != (
        #[trigger] current[j]).finger
}

/// Every touch that is there has an object.
pub open spec fn touches_known(ui: TouchState) -> bool {
    forall|i: int|
        0 <= i < ui.current.len() ==> ui.touches.contains_key((#[trigger] ui.current[i]).touch)
}

/// Every touch in a group belongs to the view of the group.
pub open spec fn on_own_view(ui: TouchState, groups: Seq<GroupView>) -> bool {
    forall|g: int, k: int|
        0 <= g < groups.len() && 0 <= k < groups[g].touches.len() ==> ui.touch(
            #[trigger] groups[g].touches[k],
        ).view == groups[g].view
}

/// Every touch in a group is in this phase.
pub open spec fn in_phase(ui: TouchState, groups: Seq<GroupView>, phase: UITouchPhase) -> bool {
    forall|g: int, k: int|
        0 <= g < groups.len() && 0 <= k < groups[g].touches.len() ==> {
            &&& ui.touches.contains_key(#[trigger] groups[g].touches[k])
            &&& ui.touch(groups[g].touches[k]).phase == phase
        }
}

/// No view has two groups.
pub open spec fn views_differ(groups: Seq<GroupView>) -> bool {
    forall|i: int, j: int|
        0 <= i < j < groups.len() ==> (#[trigger] groups[i]).view != (#[trigger] groups[j]).view
}

/// A finger that makes no touch is not found.
proof fn lemma_touch_of(current: Seq<CurrentTouch>, f: FingerId)
    ensures
        ui_touch::touch_of(current, f) is None <==> (forall|i: int|
            0 <= i < current.len() ==> (#[trigger] current[i]).finger != f),
        ui_touch::touch_of(current, f) matches Some(t) ==> exists|i: int|
            0 <= i < current.len() && (#[trigger] current[i]).finger == f && current[i].touch == t,
    decreases current.len(),
{
    if current.len() > 0 {
        let rest = current.drop_last();
        lemma_touch_of(rest, f);
        if current.last().finger == f {
            assert(current[current.len() - 1].finger == f);
        } else {
            assert forall|i: int| 0 <= i < current.len() && ui_touch::touch_of(rest, f)
                is None implies (#[trigger] current[i]).finger != f by {
                if i < current.len() - 1 {
                    assert(rest[i].finger != f);
                }
            }
            if ui_touch::touch_of(rest, f) is Some {
                let i = choose|i: int|
                    0 <= i < rest.len() && (#[trigger] rest[i]).finger == f && rest[i].touch
                        == ui_touch::touch_of(rest, f)->0;
                assert(current[i].finger == f && current[i].touch == ui_touch::touch_of(
                    current,
                    f,
                )->0);
            }
        }
    }
}

/// What is left when a finger is removed.
proof fn lemma_without(current: Seq<CurrentTouch>, f: FingerId)
    ensures
        forall|i: int|
            0 <= i < ui_touch::without(current, f).len() ==> {
                &&& (#[trigger] ui_touch::without(current, f)[i]).finger != f
                &&& current.contains(ui_touch::without(current, f)[i])
            },
        fingers_differ(current) ==> fingers_differ(ui_touch::without(current, f)),
    decreases current.len(),
{
    if current.len() > 0 {
        let rest = current.drop_last();
        let r = ui_touch::without(rest, f);
        let w = ui_touch::without(current, f);
        lemma_without(rest, f);
        assert forall|i: int| 0 <= i < w.len() implies (#[trigger] w[i]).finger != f
            && current.contains(w[i]) by {
            if i < r.len() {
                assert(r[i] == w[i]);
                let k = choose|k: int| 0 <= k < rest.len() && rest[k] == r[i];
                assert(current[k] == w[i]);
            } else {
                assert(current[current.len() - 1] == w[i]);
            }
        }
        if fingers_differ(current) {
            assert forall|i: int, j: int| 0 <= i < j < rest.len() implies (
            #[trigger] rest[i]).finger != (#[trigger] rest[j]).finger by {
                assert(current[i].finger != current[j].finger);
            }
            assert forall|i: int, j: int| 0 <= i < j < w.len() implies (#[trigger] w[i]).finger != (
            #[trigger] w[j]).finger by {
                if j < r.len() {
                    assert(r[i].finger != r[j].finger);
                } else {
                    assert(r[i] == w[i]);
                    let k = choose|k: int| 0 <= k < rest.len() && rest[k] == r[i];
                    assert(current[k].finger != current[current.len() - 1].finger);
                }
            }
        }
    }
}

/// Removing a finger changes nothing for another.
proof fn lemma_touch_of_without(current: Seq<CurrentTouch>, f: FingerId, other: FingerId)
    ensures
        ui_touch::touch_of(ui_touch::without(current, f), f) is None,
        other != f ==> ui_touch::touch_of(ui_touch::without(current, f), other)
            == ui_touch::touch_of(current, other),
    decreases current.len(),
{
    if current.len() > 0 {
        let rest = current.drop_last();
        lemma_touch_of_without(rest, f, other);
        if current.last().finger != f {
            assert(ui_touch::without(current, f).drop_last() =~= ui_touch::without(rest, f));
        }
    }
}

/// Adding to a group keeps the views of the groups apart.
proof fn lemma_grouped_views_differ(groups: Seq<GroupView>, view: id, t: id)
    requires
        views_differ(groups),
    ensures
        views_differ(ui_touch::grouped(groups, view, t)),
{
    ui_touch::lemma_group_index(groups, view);
    let r = ui_touch::grouped(groups, view, t);
    assert forall|i: int, j: int| 0 <= i < j < r.len() implies (#[trigger] r[i]).view != (
    #[trigger] r[j]).view by {
        assert(r[i].view == if i < groups.len() {
            groups[i].view
        } else {
            view
        });
        if j < groups.len() {
            assert(groups[i].view != groups[j].view);
        }
    }
}

/// What holds of every touch in the groups holds of the one that is added, if
/// it belongs to the view.
proof fn lemma_grouped_touches(groups: Seq<GroupView>, view: id, t: id, g: int, k: int)
    requires
        0 <= g < ui_touch::grouped(groups, view, t).len(),
        0 <= k < ui_touch::grouped(groups, view, t)[g].touches.len(),
    ensures
        ({
            let r = ui_touch::grouped(groups, view, t);
            ||| r[g].view == view && r[g].touches[k] == t
            ||| g < groups.len() && k < groups[g].touches.len() && r[g].view == groups[g].view
                && r[g].touches[k] == groups[g].touches[k]
        }),
{
    ui_touch::lemma_group_index(groups, view);
}

/// What one finger does keeps what holds of the groups.
proof fn lemma_finger(s: Sweep, f: Finger, timestamp: u64, lifted: bool)
    requires
        touches_known(s.ui),
        fingers_differ(s.ui.current),
        on_own_view(s.ui, s.groups),
        views_differ(s.groups),
        in_phase(
            s.ui,
            s.groups,
            if lifted {
                UITouchPhaseEnded
            } else {
                UITouchPhaseMoved
            },
        ),
    ensures
        ({
            let n = if lifted {
                ui_touch::finger_lifted(s, f, timestamp)
            } else {
                ui_touch::finger_moved(s, f, timestamp)
            };
            &&& touches_known(n.ui)
            &&& fingers_differ(n.ui.current)
            &&& on_own_view(n.ui, n.groups)
            &&& views_differ(n.groups)
            &&& in_phase(
                n.ui,
                n.groups,
                if lifted {
                    UITouchPhaseEnded
                } else {
                    UITouchPhaseMoved
                },
            )
        }),
{
    lemma_touch_of(s.ui.current, f.id);
    lemma_without(s.ui.current, f.id);
    let n = if lifted {
        ui_touch::finger_lifted(s, f, timestamp)
    } else {
        ui_touch::finger_moved(s, f, timestamp)
    };
    if let Some(t) = ui_touch::touch_of(s.ui.current, f.id) {
        let touch = s.ui.touch(t);
        assert(s.ui.touches.contains_key(t));
        lemma_grouped_views_differ(s.groups, touch.view, t);
        assert forall|i: int| 0 <= i < n.ui.current.len() implies n.ui.touches.contains_key(
            (#[trigger] n.ui.current[i]).touch,
        ) by {
            assert(s.ui.current.contains(n.ui.current[i]));
        }
        assert forall|g: int, k: int|
            0 <= g < n.groups.len() && 0 <= k < n.groups[g].touches.len() implies {
            &&& n.ui.touches.contains_key(#[trigger] n.groups[g].touches[k])
            &&& n.ui.touch(n.groups[g].touches[k]).view == n.groups[g].view
            &&& n.ui.touch(n.groups[g].touches[k]).phase == if lifted {
                UITouchPhaseEnded
            } else {
                UITouchPhaseMoved
            }
        } by {
            if n.groups != s.groups {
                lemma_grouped_touches(s.groups, touch.view, t, g, k);
            }
            let u = n.groups[g].touches[k];
            if u != t {
                assert(s.groups[g].touches[k] == u);
                assert(s.ui.touches.contains_key(u));
            }
        }
    }
}

/// When fingers move, no finger comes or goes, every view gets at most one
/// message, each touch goes to its own view, and it has moved.
pub proof fn law_moved(ui: TouchState, fingers: Seq<Finger>, timestamp: u64, n: nat)
    requires
        touches_known(ui),
        fingers_differ(ui.current),
        n <= fingers.len(),
    ensures
        ({
            let s = ui_touch::fingers_moved(ui, fingers, timestamp, n);
            &&& s.ui.current == ui.current
            &&& touches_known(s.ui)
            &&& views_differ(s.groups)
            &&& on_own_view(s.ui, s.groups)
            &&& in_phase(s.ui, s.groups, UITouchPhaseMoved)
        }),
    decreases n,
{
    if n > 0 {
        law_moved(ui, fingers, timestamp, (n - 1) as nat);
        lemma_finger(
            ui_touch::fingers_moved(ui, fingers, timestamp, (n - 1) as nat),
            fingers[n - 1],
            timestamp,
            false,
        );
    }
}

/// When fingers are lifted, every view gets at most one message, each touch goes
/// to its own view, and it has ended.
pub proof fn law_lifted(ui: TouchState, fingers: Seq<Finger>, timestamp: u64, n: nat)
    requires
        touches_known(ui),
        fingers_differ(ui.current),
        n <= fingers.len(),
    ensures
        ({
            let s = ui_touch::fingers_lifted(ui, fingers, timestamp, n);
            &&& fingers_differ(s.ui.current)
            &&& touches_known(s.ui)
            &&& views_differ(s.groups)
            &&& on_own_view(s.ui, s.groups)
            &&& in_phase(s.ui, s.groups, UITouchPhaseEnded)
        }),
    decreases n,
{
    if n > 0 {
        law_lifted(ui, fingers, timestamp, (n - 1) as nat);
        lemma_finger(
            ui_touch::fingers_lifted(ui, fingers, timestamp, (n - 1) as nat),
            fingers[n - 1],
            timestamp,
            true,
        );
    }
}

/// A finger that was lifted makes no touch, and one that was not makes the
/// touch that it made before.
pub proof fn law_lifted_fingers_are_gone(
    ui: TouchState,
    fingers: Seq<Finger>,
    timestamp: u64,
    n: nat,
    f: FingerId,
)
    requires
        n <= fingers.len(),
    ensures
        ui_touch::touch_of(ui_touch::fingers_lifted(ui, fingers, timestamp, n).ui.current, f) == (
        if exists|i: int| 0 <= i < n && (#[trigger] fingers[i]).id == f {
            None
        } else {
            ui_touch::touch_of(ui.current, f)
        }),
    decreases n,
{
    if n > 0 {
        let m = (n - 1) as nat;
        law_lifted_fingers_are_gone(ui, fingers, timestamp, m, f);
        let s = ui_touch::fingers_lifted(ui, fingers, timestamp, m);
        lemma_touch_of_without(s.ui.current, fingers[n - 1].id, f);
        assert(fingers[n - 1].id == f ==> exists|i: int|
            0 <= i < n && (#[trigger] fingers[i]).id == f);
        if exists|i: int| 0 <= i < m && (#[trigger] fingers[i]).id == f {
            let i = choose|i: int| 0 <= i < m && (#[trigger] fingers[i]).id == f;
            assert(0 <= i < n && fingers[i].id == f);
        }
    }
}

/// All touches that are there count as stationary when an event comes.
pub proof fn law_stationary(ui: TouchState, n: nat, i: int)
    requires
        touches_known(ui),
        n <= ui.current.len(),
        0 <= i < n,
    ensures
        ui.stationary(n).current == ui.current,
        ui.stationary(n).touches.dom() == ui.touches.dom(),
        ui.stationary(n).touch(ui.current[i].touch).phase == UITouchPhaseStationary,
    decreases n,
{
    lemma_stationary_domain(ui, (n - 1) as nat);
    if i < n - 1 {
        law_stationary(ui, (n - 1) as nat, i);
    }
    assert(ui.touches.contains_key(ui.current[n - 1].touch));
    assert(ui.touches.dom().contains(ui.current[n - 1].touch));
    assert(ui.stationary((n - 1) as nat).touches.dom().contains(ui.current[n - 1].touch));
    assert(ui.touches.contains_key(ui.current[i].touch));
    assert(ui.touches.dom().contains(ui.current[i].touch));
    assert(ui.stationary((n - 1) as nat).touches.dom().contains(ui.current[i].touch));
    assert(ui.stationary(n).touches.dom() =~= ui.touches.dom());
}

proof fn lemma_stationary_domain(ui: TouchState, n: nat)
    requires
        n <= ui.current.len(),
    ensures
        ui.stationary(n).current == ui.current,
        ui.stationary(n).touches.dom() == ui.touches.dom(),
    decreases n,
{
    if n > 0 {
        lemma_stationary_domain(ui, (n - 1) as nat);
        assert(ui.stationary(n).touches.dom() =~= ui.touches.dom());
    }
}

/// Whoever is not among those to be found is not found.
proof fn lemma_others_on(ui: TouchState, current: Seq<CurrentTouch>, view: id, t: id, c: CurrentTouch)
    ensures
        ui_touch::others_on(ui, current, view, t).contains(c) <==> current.contains(c) && ui.touch(
            c.touch,
        ).view == view && c.touch != t,
    decreases current.len(),
{
    if current.len() > 0 {
        let rest = current.drop_last();
        let r = ui_touch::others_on(ui, rest, view, t);
        let all = ui_touch::others_on(ui, current, view, t);
        lemma_others_on(ui, rest, view, t, c);
        if current.contains(c) {
            let k = choose|k: int| 0 <= k < current.len() && current[k] == c;
            if k < rest.len() {
                assert(rest[k] == c);
            }
        }
        if rest.contains(c) {
            let k = choose|k: int| 0 <= k < rest.len() && rest[k] == c;
            assert(current[k] == c);
        }
        if r.contains(c) {
            let k = choose|k: int| 0 <= k < r.len() && r[k] == c;
            assert(all[k] == c);
        }
        if all.contains(c) {
            let k = choose|k: int| 0 <= k < all.len() && all[k] == c;
            if k < r.len() {
                assert(r[k] == c);
            } else {
                assert(current[current.len() - 1] == c);
            }
        }
        if current.last() == c && ui.touch(c.touch).view == view && c.touch != t {
            assert(all[all.len() - 1] == c);
        }
    }
}

proof fn lemma_without_all(ui: TouchState, gone: Seq<CurrentTouch>)
    ensures
        ui_touch::without_all(ui, gone).touches == ui.touches,
        fingers_differ(ui.current) ==> fingers_differ(ui_touch::without_all(ui, gone).current),
        forall|i: int|
            0 <= i < ui_touch::without_all(ui, gone).current.len() ==> ui.current.contains(
                #[trigger] ui_touch::without_all(ui, gone).current[i],
            ),
        forall|i: int, k: int|
            0 <= i < ui_touch::without_all(ui, gone).current.len() && 0 <= k < gone.len() ==> (
            #[trigger] ui_touch::without_all(ui, gone).current[i]).finger != (
            #[trigger] gone[k]).finger,
    decreases gone.len(),
{
    let w = ui_touch::without_all(ui, gone).current;
    if gone.len() > 0 {
        let rest = gone.drop_last();
        let r = ui_touch::without_all(ui, rest).current;
        lemma_without_all(ui, rest);
        lemma_without(r, gone.last().finger);
        assert forall|i: int| 0 <= i < w.len() implies ui.current.contains(#[trigger] w[i]) by {
            assert(r.contains(w[i]));
        }
        assert forall|i: int, k: int| 0 <= i < w.len() && 0 <= k < gone.len() implies (
        #[trigger] w[i]).finger != (#[trigger] gone[k]).finger by {
            assert(r.contains(w[i]));
            let j = choose|j: int| 0 <= j < r.len() && r[j] == w[i];
            if k < rest.len() {
                assert(r[j].finger != rest[k].finger);
            }
        }
    } else {
        assert forall|i: int| 0 <= i < w.len() implies ui.current.contains(#[trigger] w[i]) by {
            assert(ui.current[i] == w[i]);
        }
    }
}

/// When a view that takes one touch at a time gets a new one, no other touch is
/// left on it.
pub proof fn law_single_touch(d: DownView, ui: TouchState, window: id, view: id)
    requires
        d.accept_single(ui, window, view).action is Release,
    ensures
        ({
            let after = d.accept_single(ui, window, view).ui;
            forall|i: int|
                0 <= i < after.current.len() ==> after.touch(
                    (#[trigger] after.current[i]).touch,
                ).view != view || after.current[i].touch == d.touch()
        }),
{
    let stuck = ui_touch::others_on(ui, ui.current, view, d.touch());
    let after = d.accept_single(ui, window, view).ui;
    lemma_without_all(ui, stuck);
    assert forall|i: int| 0 <= i < after.current.len() && after.touch(
        (#[trigger] after.current[i]).touch,
    ).view == view implies after.current[i].touch == d.touch() by {
        let c = after.current[i];
        if c.touch != d.touch() {
            lemma_others_on(ui, ui.current, view, d.touch(), c);
            let k = choose|k: int| 0 <= k < stuck.len() && stuck[k] == c;
            assert(after.current[i].finger != stuck[k].finger);
        }
    }
}

/// When fingers touch the screen, no view has a group yet, and a touch is made
/// only for a finger that makes none.
pub proof fn law_down_begins(
    ui: TouchState,
    fingers: Seq<Finger>,
    timestamp: u64,
    options: MultitouchOptions,
)
    ensures
        ({
            let s = ui_touch::touches_down(fingers, timestamp, options).create_next(ui);
            &&& s.ui == ui
            &&& s.down.wf()
            &&& views_differ(s.down.groups)
            &&& s.down.stage is Create ==> ui_touch::touch_of(
                ui.current,
                s.down.fingers[s.down.next].id,
            ) is None
        }),
{
}

/// Whatever the host replies while new touches are handled, no finger comes to
/// make two touches, every touch that is there has an object, and no view comes
/// to have two groups.
pub proof fn law_down_keeps(d: DownView, ui: TouchState, reply: Reply)
    requires
        fingers_differ(ui.current),
        touches_known(ui),
        views_differ(d.groups),
        d.wf(),
        d.step(ui, reply) is Some,
        d.stage is Create ==> ui_touch::touch_of(ui.current, d.fingers[d.next].id) is None,
    ensures
        ({
            let s = d.step(ui, reply)->0;
            &&& fingers_differ(s.ui.current)
            &&& touches_known(s.ui)
            &&& views_differ(s.down.groups)
            &&& s.down.stage is Create ==> ui_touch::touch_of(
                s.ui.current,
                s.down.fingers[s.down.next].id,
            ) is None
        }),
{
    let s = d.step(ui, reply)->0;
    if d.stage is Create {
        let f = d.fingers[d.next].id;
        lemma_touch_of(ui.current, f);
        assert forall|i: int, j: int| 0 <= i < j < s.ui.current.len() implies (
        #[trigger] s.ui.current[i]).finger != (#[trigger] s.ui.current[j]).finger by {
            if j < ui.current.len() {
                assert(ui.current[i].finger != ui.current[j].finger);
            } else {
                assert(ui.current[i].finger != f);
            }
        }
    } else {
        match d.stage {
            ui_touch::Stage::Multi { window, view } => {
                lemma_down_accept(d, ui, window, view);
            },
            ui_touch::Stage::Class { window, view } => {
                lemma_down_accept(d, ui, window, view);
            },
            ui_touch::Stage::Release { window, view } => {
                lemma_down_accept(d, ui, window, view);
            },
            _ => {},
        }
    }
}

proof fn lemma_down_accept(d: DownView, ui: TouchState, window: id, view: id)
    requires
        fingers_differ(ui.current),
        touches_known(ui),
        views_differ(d.groups),
    ensures
        touches_known(d.accept(ui, window, view).ui),
        touches_known(d.accept_single(ui, window, view).ui),
        fingers_differ(d.accept(ui, window, view).ui.current),
        views_differ(d.accept(ui, window, view).down.groups),
        fingers_differ(d.accept_single(ui, window, view).ui.current),
        views_differ(d.accept_single(ui, window, view).down.groups),
{
    lemma_grouped_views_differ(d.groups, view, d.touch());
    let stuck = ui_touch::others_on(ui, ui.current, view, d.touch());
    lemma_without_all(ui, stuck);
    let after = ui_touch::without_all(ui, stuck);
    assert forall|i: int| 0 <= i < after.current.len() implies after.touches.contains_key(
        (#[trigger] after.current[i]).touch,
    ) by {
        assert(ui.current.contains(after.current[i]));
    }
}

} // verus!
