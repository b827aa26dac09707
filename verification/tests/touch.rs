//! Touches.
use touchhle::environment::{Environment, FrameworkState, LibcState};
use touchhle::frameworks::uikit::pending_callback::{
    parse_number, ultrahle_minionjump_drain_pending_callback, Drain, Pending,
};
use touchhle::frameworks::uikit::touch_aliases::{
    touchhle_cocos_touch_aliases_enabled, touchhle_send_cocos_touch_aliases_to_chain, AliasAction,
    AliasPhase, AliasReply, AliasSettings, MAX_DEPTH,
};
use touchhle::frameworks::uikit::touch_remap::{
    remap_view, should_remap_touch_location_for_view, touch_mode, touchhle_cocos_target_size,
    touchhle_should_use_landscape_touch_remap, ModeSettings, RemapSettings, TouchMode,
};
use touchhle::frameworks::uikit::touch_target::{
    touchhle_cocos_is_gl_or_game_view_name, touchhle_find_cocos_touch_target, ViewTree,
};
use touchhle::frameworks::uikit::ui_touch::{
    self, handle_event, touchhle_cocos_should_allow_multitouch, Action, Delivery, Event, Finger,
    Handling, MultitouchOptions, Point, Reply, TouchesDown, UITouchPhaseBegan, UITouchPhaseEnded,
    UITouchPhaseMoved, UITouchPhaseStationary,
};
use touchhle::frameworks::{avfoundation::av_audio_player, opengles};
use touchhle::guest_console::Console;
use touchhle::libc::errno;
use touchhle::mem::Mem;
use touchhle::objc::classes::{nil, ObjC};

const WINDOW: u32 = 0x100;
const VIEW: u32 = 0x200;
const ASK: MultitouchOptions = MultitouchOptions { force_single: false, force_multi: false };

fn environment() -> Environment {
    Environment {
        mem: Mem::new(0x10000),
        objc: ObjC::new(Vec::new()),
        libc_state: LibcState { errno: errno::State::default(), ctype_locale: 0 },
        framework_state: FrameworkState {
            ui_touch: ui_touch::State::default(),
            opengles: opengles::State::default(),
            av_audio_player: av_audio_player::State::default(),
        },
        console: Console::new(),
        current_thread: 0,
    }
}

fn point(x: f32, y: f32) -> Point {
    Point { x: x.to_bits(), y: y.to_bits() }
}

fn finger(id: u64, x: f32) -> Finger {
    Finger { id, coords: point(x, 0.0) }
}

fn down(env: &mut Environment, fingers: Vec<Finger>, options: MultitouchOptions) -> (TouchesDown, Action) {
    match handle_event(env, Event::TouchesDown { fingers }, 1, options) {
        Handling::Ask { down, action } => (down, action),
        _ => panic!("it does not ask"),
    }
}

fn answer(env: &mut Environment, down: &mut TouchesDown, reply: Reply) -> Action {
    down.resume(&mut env.framework_state.ui_touch, reply).unwrap()
}

fn delivered(handling: Handling) -> Delivery {
    match handling {
        Handling::Deliver { delivery } => delivery,
        _ => panic!("nothing is delivered"),
    }
}

/// Puts fingers down on [VIEW], which wants as many touches as `multi` says.
/// Touches are numbered from `first` on. Gives what is delivered, and what is
/// released on the way.
fn press(
    env: &mut Environment,
    fingers: Vec<Finger>,
    first: u32,
    multi: bool,
) -> (Vec<(u32, Vec<u32>)>, Vec<u32>) {
    let (mut down, mut action) = down(env, fingers, ASK);
    let mut next = first;
    let mut released = Vec::new();
    loop {
        let reply = match action {
            Action::NewTouch => {
                next += 1;
                Reply::Object { object: next - 1 }
            }
            Action::MakeEvent { .. } => Reply::Done,
            Action::Windows => Reply::Objects { objects: vec![WINDOW] },
            Action::PointInside { location, .. } => Reply::Inside { inside: true, point: location },
            Action::HitTest { .. } => Reply::Object { object: VIEW },
            Action::IsMultipleTouchEnabled { view } => {
                assert_eq!(view, VIEW);
                Reply::Flag { flag: multi }
            }
            Action::ClassName { .. } => Reply::Class { name: b"UIView".to_vec() },
            Action::Release { touches } => {
                released.extend(touches);
                Reply::Done
            }
            Action::Retain { view, window } => {
                assert_eq!((view, window), (VIEW, WINDOW));
                Reply::Done
            }
            Action::Deliver { groups } => {
                let groups = groups.into_iter().map(|g| (g.view, g.touches)).collect();
                return (groups, released);
            }
            _ => panic!("unexpected"),
        };
        action = answer(env, &mut down, reply);
    }
}

#[test]
fn a_touch_from_begin_to_end() {
    let mut env = environment();
    let (groups, _) = press(&mut env, vec![finger(1, 5.0)], 0x300, true);
    assert_eq!(groups, vec![(VIEW, vec![0x300])]);
    let ui = &env.framework_state.ui_touch;
    assert_eq!(ui.current_touch(1), Some(0x300));
    let touch = ui.touch(0x300);
    assert_eq!((touch.view, touch.window), (VIEW, WINDOW));
    assert_eq!(touch.phase, UITouchPhaseBegan);
    assert_eq!(touch.location, point(5.0, 0.0));

    let event = Event::TouchesMove { fingers: vec![finger(1, 6.0), finger(9, 1.0)] };
    let delivery = delivered(handle_event(&mut env, event, 2, ASK));
    assert_eq!(delivery.phase, UITouchPhaseMoved);
    assert_eq!(delivery.groups.len(), 1);
    assert_eq!((delivery.groups[0].view, &delivery.groups[0].touches), (VIEW, &vec![0x300]));
    assert_eq!(delivery.all_touches, vec![0x300]);
    let touch = env.framework_state.ui_touch.touch(0x300);
    assert_eq!(touch.phase, UITouchPhaseMoved);
    assert_eq!(touch.location, point(6.0, 0.0));
    assert_eq!(touch.previous_location, point(5.0, 0.0));
    assert_eq!(touch.start_location, point(5.0, 0.0));
    assert_eq!(touch.timestamp, 2);

    let event = Event::TouchesUp { fingers: vec![finger(1, 7.0)] };
    let delivery = delivered(handle_event(&mut env, event, 3, ASK));
    assert_eq!(delivery.phase, UITouchPhaseEnded);
    assert_eq!(delivery.released, vec![0x300]);
    assert_eq!(delivery.all_touches, vec![0x300]);
    let ui = &mut env.framework_state.ui_touch;
    assert_eq!(ui.current_touch(1), None);
    assert_eq!(ui.touch(0x300).phase, UITouchPhaseEnded);
    assert_eq!(ui.dealloc_touch(0x300), (VIEW, WINDOW));
    assert_eq!(ui.touch(0x300).view, nil);
    ui.init_touch(0x340);
    assert_eq!(ui.touch(0x340).phase, UITouchPhaseBegan);
    assert_eq!(ui.dealloc_touch(0x340), (nil, nil));
}

#[test]
fn a_finger_that_stays_is_not_delivered() {
    let mut env = environment();
    press(&mut env, vec![finger(1, 0.0)], 0x300, true);
    // Zero has two bit patterns.
    let event = Event::TouchesMove { fingers: vec![finger(1, -0.0)] };
    let delivery = delivered(handle_event(&mut env, event, 2, ASK));
    assert!(delivery.groups.is_empty());
    assert_eq!(env.framework_state.ui_touch.touch(0x300).phase, UITouchPhaseStationary);
    // What is not a number is nowhere, so it always moves.
    for _ in 0..2 {
        let event = Event::TouchesMove { fingers: vec![finger(1, f32::NAN)] };
        let delivery = delivered(handle_event(&mut env, event, 2, ASK));
        assert_eq!(delivery.groups.len(), 1);
    }
}

#[test]
fn touches_are_stationary_until_they_change() {
    let mut env = environment();
    press(&mut env, vec![finger(1, 1.0), finger(2, 2.0)], 0x300, true);
    let event = Event::TouchesMove { fingers: vec![finger(2, 3.0)] };
    handle_event(&mut env, event, 2, ASK);
    let ui = &env.framework_state.ui_touch;
    assert_eq!(ui.touch(0x300).phase, UITouchPhaseStationary);
    assert_eq!(ui.touch(0x301).phase, UITouchPhaseMoved);
    assert!(matches!(handle_event(&mut env, Event::Other, 3, ASK), Handling::Nothing));
    assert_eq!(env.framework_state.ui_touch.touch(0x301).phase, UITouchPhaseStationary);
}

#[test]
fn fingers_are_lifted_one_by_one() {
    let mut env = environment();
    let (groups, _) = press(&mut env, vec![finger(1, 1.0), finger(2, 2.0)], 0x300, true);
    assert_eq!(groups, vec![(VIEW, vec![0x300, 0x301])]);
    let event = Event::TouchesUp { fingers: vec![finger(2, 2.0), finger(7, 0.0)] };
    let delivery = delivered(handle_event(&mut env, event, 2, ASK));
    assert_eq!(delivery.released, vec![0x301]);
    assert_eq!(delivery.all_touches, vec![0x300, 0x301]);
    let ui = &env.framework_state.ui_touch;
    assert_eq!(ui.current_touch(1), Some(0x300));
    assert_eq!(ui.current_touch(2), None);
}

#[test]
fn a_view_that_takes_one_touch() {
    let mut env = environment();
    let (groups, released) = press(&mut env, vec![finger(1, 1.0)], 0x300, false);
    assert_eq!(groups, vec![(VIEW, vec![0x300])]);
    assert!(released.is_empty());
    // The touch that is stuck there makes room for the new one.
    let (groups, released) = press(&mut env, vec![finger(2, 2.0)], 0x310, false);
    assert_eq!(groups, vec![(VIEW, vec![0x310])]);
    assert_eq!(released, vec![0x300]);
    let ui = &env.framework_state.ui_touch;
    assert_eq!(ui.current_touch(1), None);
    assert_eq!(ui.current_touch(2), Some(0x310));
}

#[test]
fn a_finger_that_is_down_already_is_moved() {
    let mut env = environment();
    press(&mut env, vec![finger(1, 1.0)], 0x300, true);
    let (mut down, action) = down(&mut env, vec![finger(1, 2.0)], ASK);
    match action {
        Action::Move { finger: f } => assert_eq!(f, finger(1, 2.0)),
        _ => panic!("it is not moved"),
    }
    assert!(down.resume(&mut env.framework_state.ui_touch, Reply::Done).is_none());
}

#[test]
fn windows_are_asked_from_front_to_back() {
    let mut env = environment();
    let (mut d, action) = down(&mut env, vec![finger(1, 1.0)], ASK);
    assert!(matches!(action, Action::NewTouch));
    // An answer to another question is ignored.
    assert!(d.resume(&mut env.framework_state.ui_touch, Reply::Done).is_none());
    match answer(&mut env, &mut d, Reply::Object { object: 0x300 }) {
        Action::MakeEvent { touches } => assert_eq!(touches, vec![0x300]),
        _ => panic!("no event is made"),
    }
    assert!(matches!(answer(&mut env, &mut d, Reply::Done), Action::Windows));
    let outside = || Reply::Inside { inside: false, point: point(0.0, 0.0) };
    match answer(&mut env, &mut d, Reply::Objects { objects: vec![0x10, 0x11] }) {
        Action::PointInside { window, location } => {
            assert_eq!((window, location), (0x11, point(1.0, 0.0)));
        }
        _ => panic!("no window is asked"),
    }
    match answer(&mut env, &mut d, outside()) {
        Action::PointInside { window, .. } => assert_eq!(window, 0x10),
        _ => panic!("no window is asked"),
    }
    // None wants it: the frontmost one gets it.
    match answer(&mut env, &mut d, outside()) {
        Action::ConvertPoint { window, .. } => assert_eq!(window, 0x11),
        _ => panic!("no point is converted"),
    }
    match answer(&mut env, &mut d, Reply::Converted { point: point(9.0, 0.0) }) {
        Action::HitTest { window, point: p } => assert_eq!((window, p), (0x11, point(9.0, 0.0))),
        _ => panic!("no view is looked for"),
    }
    // No view is hit: one that a game draws in is looked for.
    match answer(&mut env, &mut d, Reply::Object { object: nil }) {
        Action::ViewTree { root } => assert_eq!(root, 0x11),
        _ => panic!("no tree is asked for"),
    }
    let tree = ViewTree {
        view: 0x11,
        class_name: b"UIWindow".to_vec(),
        subviews: vec![ViewTree {
            view: 0x20,
            class_name: b"EAGLView".to_vec(),
            subviews: Vec::new(),
        }],
    };
    match answer(&mut env, &mut d, Reply::Tree { tree }) {
        Action::IsMultipleTouchEnabled { view } => assert_eq!(view, 0x20),
        _ => panic!("the view is not asked"),
    }
    match answer(&mut env, &mut d, Reply::Flag { flag: false }) {
        Action::ClassName { view } => assert_eq!(view, 0x20),
        _ => panic!("the class is not asked for"),
    }
    match answer(&mut env, &mut d, Reply::Class { name: b"EAGLView".to_vec() }) {
        Action::Retain { view, window } => assert_eq!((view, window), (0x20, 0x11)),
        _ => panic!("nothing is retained"),
    }
    match answer(&mut env, &mut d, Reply::Done) {
        Action::Deliver { groups } => {
            assert_eq!(groups.len(), 1);
            assert_eq!((groups[0].view, &groups[0].touches), (0x20, &vec![0x300]));
        }
        _ => panic!("nothing is delivered"),
    }
}

#[test]
fn without_windows_touches_are_dropped() {
    let mut env = environment();
    let (mut d, _) = down(&mut env, vec![finger(1, 1.0)], ASK);
    answer(&mut env, &mut d, Reply::Object { object: 0x300 });
    answer(&mut env, &mut d, Reply::Done);
    match answer(&mut env, &mut d, Reply::Objects { objects: Vec::new() }) {
        Action::Deliver { groups } => assert!(groups.is_empty()),
        _ => panic!("nothing is delivered"),
    }
}

#[test]
fn options_decide_on_several_touches() {
    let single = MultitouchOptions { force_single: true, force_multi: true };
    let multi = MultitouchOptions { force_single: false, force_multi: true };
    let game = b"EAGLView".to_vec();
    let plain = b"UIView".to_vec();
    assert!(!touchhle_cocos_should_allow_multitouch(single, &game));
    assert!(touchhle_cocos_should_allow_multitouch(multi, &plain));
    assert!(touchhle_cocos_should_allow_multitouch(ASK, &game));
    assert!(!touchhle_cocos_should_allow_multitouch(ASK, &plain));
}

#[test]
fn names_of_game_views() {
    for name in ["CCGLView", "MyEAGLStuff", "UnityView", "GLKView", "MainGameView", "RootView"] {
        assert!(touchhle_cocos_is_gl_or_game_view_name(name.as_bytes()));
    }
    for name in ["", "UIView", "UIWindow", "eaglview", "GLK"] {
        assert!(!touchhle_cocos_is_gl_or_game_view_name(name.as_bytes()));
    }
}

#[test]
fn the_frontmost_game_view_is_found() {
    let leaf = |view, name: &str| ViewTree {
        view,
        class_name: name.as_bytes().to_vec(),
        subviews: Vec::new(),
    };
    let tree = ViewTree {
        view: 1,
        class_name: b"EAGLView".to_vec(),
        subviews: vec![leaf(2, "CCGLView"), leaf(3, "GLKView"), leaf(4, "UILabel")],
    };
    assert_eq!(touchhle_find_cocos_touch_target(&tree), 3);
    assert_eq!(touchhle_find_cocos_touch_target(&leaf(5, "EAGLView")), 5);
    assert_eq!(touchhle_find_cocos_touch_target(&leaf(5, "UIView")), nil);
}

#[test]
fn landscape_games() {
    let none = RemapSettings {
        portrait_to_landscape: false,
        cocos: false,
        unity: false,
        engine: false,
    };
    let unity = RemapSettings { unity: true, ..none };
    assert!(touchhle_should_use_landscape_touch_remap(b"com.robtop.geometryjump", none));
    assert!(!touchhle_should_use_landscape_touch_remap(b"at.source.tomzom", unity));
    assert!(!touchhle_should_use_landscape_touch_remap(b"com.example", none));
    assert!(touchhle_should_use_landscape_touch_remap(b"com.example", unity));
    assert!(should_remap_touch_location_for_view(b"com.example", unity, 5, b"EAGLView"));
    assert!(!should_remap_touch_location_for_view(b"com.example", unity, nil, b"EAGLView"));
    assert!(!should_remap_touch_location_for_view(b"com.example", unity, 5, b"UIView"));
    assert!(!should_remap_touch_location_for_view(b"com.example", none, 5, b"EAGLView"));
    assert_eq!(remap_view(b"com.example", unity, 5, 6), Some(5));
    assert_eq!(remap_view(b"com.example", unity, nil, 6), Some(6));
    assert_eq!(remap_view(b"com.example", none, 5, 6), None);
}

#[test]
fn modes_of_coordinates() {
    let name = |s: &str| Some(s.as_bytes().to_vec());
    let settings = |touch, cocos, unity, engine| ModeSettings { touch, cocos, unity, engine };
    let cases = [
        ("identity", TouchMode::Identity),
        ("none", TouchMode::Identity),
        ("right", TouchMode::Right),
        ("right-flip-x", TouchMode::RightFlipX),
        ("left", TouchMode::Left),
        ("left-flip-x", TouchMode::LeftFlipX),
        ("flip-x", TouchMode::FlipX),
        ("flip-y", TouchMode::FlipY),
        ("scale-1024x768", TouchMode::ScaleLarge),
        ("scale-480x320", TouchMode::Scale),
        ("whatever", TouchMode::Scale),
    ];
    for (text, mode) in cases {
        assert_eq!(touch_mode(b"com.example", &settings(name(text), None, None, None)), mode);
    }
    let left = settings(None, None, name("left"), name("right"));
    assert_eq!(touch_mode(b"com.example", &left), TouchMode::Left);
    assert_eq!(touch_mode(b"at.source.potpan", &left), TouchMode::Scale);
    assert_eq!(touch_mode(b"com.example", &settings(None, None, None, None)), TouchMode::Scale);
}

#[test]
fn sizes_of_screens() {
    let name = |s: &str| Some(s.as_bytes().to_vec());
    let parts = |w: &str, h: &str| Some((w.as_bytes().to_vec(), h.as_bytes().to_vec()));
    assert_eq!(touchhle_cocos_target_size(&name("480x320"), &None, &None), parts("480", "320"));
    assert_eq!(touchhle_cocos_target_size(&name(" 1 , 2,3"), &None, &None), parts(" 1 ", " 2"));
    assert_eq!(touchhle_cocos_target_size(&None, &name("5X"), &None), parts("5", ""));
    assert_eq!(touchhle_cocos_target_size(&name("480"), &name("1x2"), &None), None);
    assert_eq!(touchhle_cocos_target_size(&None, &None, &None), None);
}

#[test]
fn views_that_get_aliases() {
    let off = AliasSettings { disable: true, enable: true };
    let on = AliasSettings { disable: false, enable: true };
    let ask = AliasSettings { disable: false, enable: false };
    assert!(!touchhle_cocos_touch_aliases_enabled(off, b"CCLayer"));
    assert!(touchhle_cocos_touch_aliases_enabled(on, b"UIView"));
    assert!(touchhle_cocos_touch_aliases_enabled(ask, b"CCNode"));
    assert!(touchhle_cocos_touch_aliases_enabled(ask, b"GameLayer2"));
    assert!(touchhle_cocos_touch_aliases_enabled(ask, b"MainMenu"));
    assert!(touchhle_cocos_touch_aliases_enabled(ask, b"EAGLView"));
    assert!(!touchhle_cocos_touch_aliases_enabled(ask, b"UIView"));
}

#[test]
fn aliases_go_up_the_views() {
    let mut env = environment();
    let ask = AliasSettings { disable: false, enable: false };
    let (mut chain, action) =
        touchhle_send_cocos_touch_aliases_to_chain(&mut env, ask, 5, AliasPhase::Began, 20, 30);
    assert_eq!(action, AliasAction::ClassName { view: 5 });
    assert_eq!(chain.resume(&mut env, AliasReply::Done), None);
    let name = AliasReply::Class { name: b"CCLayer".to_vec() };
    let action = chain.resume(&mut env, name);
    let all = env.objc.lookup_selector(b"ccTouchesBegan:withEvent:").unwrap();
    assert_eq!(action, Some(AliasAction::RespondsToSelector { view: 5, sel: all }));
    assert_eq!(
        chain.resume(&mut env, AliasReply::Flag { flag: true }),
        Some(AliasAction::Send { view: 5, sel: all, object: 20, event: 30 })
    );
    let action = chain.resume(&mut env, AliasReply::Done);
    let one = env.objc.lookup_selector(b"ccTouchBegan:withEvent:").unwrap();
    assert_eq!(action, Some(AliasAction::RespondsToSelector { view: 5, sel: one }));
    assert_eq!(
        chain.resume(&mut env, AliasReply::Flag { flag: true }),
        Some(AliasAction::FirstTouch { touches: 20 })
    );
    assert_eq!(
        chain.resume(&mut env, AliasReply::Object { object: 21 }),
        Some(AliasAction::Send { view: 5, sel: one, object: 21, event: 30 })
    );
    assert_eq!(
        chain.resume(&mut env, AliasReply::Done),
        Some(AliasAction::Superview { view: 5 })
    );
    assert_eq!(
        chain.resume(&mut env, AliasReply::Object { object: 6 }),
        Some(AliasAction::ClassName { view: 6 })
    );
    let name = AliasReply::Class { name: b"UIWindow".to_vec() };
    assert_eq!(chain.resume(&mut env, name), Some(AliasAction::Superview { view: 6 }));
    assert_eq!(
        chain.resume(&mut env, AliasReply::Object { object: nil }),
        Some(AliasAction::Finish)
    );
}

#[test]
fn aliases_do_not_go_up_forever() {
    let mut env = environment();
    let off = AliasSettings { disable: true, enable: false };
    let (mut chain, mut action) =
        touchhle_send_cocos_touch_aliases_to_chain(&mut env, off, 5, AliasPhase::Ended, 20, 30);
    let mut steps = 0;
    while action == (AliasAction::Superview { view: 5 }) {
        action = chain.resume(&mut env, AliasReply::Object { object: 5 }).unwrap();
        steps += 1;
    }
    assert_eq!(action, AliasAction::Finish);
    assert_eq!(steps, MAX_DEPTH);
    let (_, action) =
        touchhle_send_cocos_touch_aliases_to_chain(&mut env, off, nil, AliasPhase::Moved, 20, 30);
    assert_eq!(action, AliasAction::Finish);
}

#[test]
fn numbers_in_text() {
    assert_eq!(parse_number(b"0"), Some(0));
    assert_eq!(parse_number(b"+42"), Some(42));
    assert_eq!(parse_number(b"007"), Some(7));
    assert_eq!(parse_number(b"4294967295"), Some(u32::MAX));
    assert_eq!(parse_number(b"4294967296"), None);
    assert_eq!(parse_number(b"99999999999999999999"), None);
    for text in ["", "+", "-1", " 1", "1 ", "0x10", "++1"] {
        assert_eq!(parse_number(text.as_bytes()), None);
        assert_eq!(text.parse::<u32>().ok(), None);
    }
}

#[test]
fn pending_callbacks() {
    let name = |s: &str| Some(s.as_bytes().to_vec());
    let game = b"com.apprisetec9.minionjump";
    let drain = ultrahle_minionjump_drain_pending_callback;
    let pending = |callback, target| Pending { target, sel: name("16"), sender: name("7"), callback };
    let select = pending(name("selectLVAction:"), name("5"));
    let call = Drain::Call { target: 5, sel: 16, sender: Some(7) };
    assert_eq!(drain(game, &select, true), call);
    assert_eq!(drain(game, &select, false), Drain::Keep);
    assert_eq!(drain(b"com.example", &select, true), Drain::Keep);
    let other = pending(name("restart"), name("5"));
    assert_eq!(drain(game, &other, true), Drain::Keep);
    let call = Drain::Call { target: 5, sel: 16, sender: None };
    assert_eq!(drain(b"com.risinghighapps.kingdomprincepro", &other, false), call);
    assert_eq!(drain(game, &pending(None, name("5")), false), call);
    assert_eq!(drain(game, &pending(None, name("0")), false), Drain::Forget);
    assert_eq!(drain(game, &pending(None, name("x")), false), Drain::Keep);
    assert_eq!(drain(game, &pending(None, None), false), Drain::Keep);
}
