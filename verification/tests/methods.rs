//! Methods of classes.
use touchhle::environment::{Environment, FrameworkState, LibcState};
use touchhle::frameworks::{avfoundation::av_audio_player, opengles, uikit::ui_touch};
use touchhle::guest_console::Console;
use touchhle::libc::errno;
use touchhle::mem::Mem;
use touchhle::objc::classes::{nil, Class, ClassTemplate, MethodTemplate, ObjC, SEL};
use touchhle::objc::methods::{
    class_addMethod, class_getClassMethod, class_getInstanceMethod, class_getInstanceSize,
    class_getMethodImplementation, class_getMethodImplementation_stret, class_replaceMethod,
    class_respondsToSelector, method_exchangeImplementations, method_getImplementation,
    method_getName, method_getTypeEncoding, method_setImplementation, objc_getMetaClass,
};
use touchhle::objc::runtime::register_host_selector;

fn template(name: &str, superclass: Option<&str>, instance: &[(&str, u32)]) -> ClassTemplate {
    ClassTemplate {
        name: name.as_bytes().to_vec(),
        superclass: superclass.map(|s| s.as_bytes().to_vec()),
        class_methods: vec![MethodTemplate { name: b"make".to_vec(), imp: 90 }],
        instance_methods: instance
            .iter()
            .map(|(name, imp)| MethodTemplate { name: name.as_bytes().to_vec(), imp: *imp })
            .collect(),
    }
}

struct World {
    env: Environment,
    root: Class,
    dog: Class,
    speak: SEL,
    eat: SEL,
    fly: SEL,
}

fn world() -> World {
    let templates = vec![
        template("NSObject", None, &[("speak", 1), ("eat", 2)]),
        template("Dog", Some("NSObject"), &[("speak", 3)]),
    ];
    let mut env = Environment {
        mem: Mem::new(0x10000),
        objc: ObjC::new(templates),
        libc_state: LibcState { errno: errno::State::default(), ctype_locale: 0 },
        framework_state: FrameworkState {
            ui_touch: ui_touch::State::default(),
            opengles: opengles::State::default(),
            av_audio_player: av_audio_player::State::default(),
        },
        console: Console::new(),
        current_thread: 0,
    };
    let speak = register_host_selector(&mut env, "speak");
    let eat = register_host_selector(&mut env, "eat");
    let fly = register_host_selector(&mut env, "fly");
    register_host_selector(&mut env, "make");
    let dog = env.objc.link_class("Dog", false, &mut env.mem);
    let root = env.objc.link_class("NSObject", false, &mut env.mem);
    World { env, root, dog, speak, eat, fly }
}

#[test]
fn methods_are_inherited() {
    let World { mut env, root, dog, speak, eat, fly } = world();
    let own = class_getInstanceMethod(&mut env, dog, speak);
    let roots = class_getInstanceMethod(&mut env, root, speak);
    assert_ne!(own, 0);
    assert_ne!(own, roots);
    // There is one for the class that has it.
    let inherited = class_getInstanceMethod(&mut env, dog, eat);
    assert_eq!(inherited, class_getInstanceMethod(&mut env, root, eat));
    assert_eq!(class_getInstanceMethod(&mut env, dog, fly), 0);
    assert_eq!(class_getInstanceMethod(&mut env, nil, speak), 0);
    assert_eq!(class_getInstanceMethod(&mut env, dog, 0), 0);
    assert_eq!(class_getInstanceSize(&env, dog, eat), root);
    assert_eq!(objc_getMetaClass(&env, dog, speak), dog);
    assert_eq!(objc_getMetaClass(&env, dog, fly), nil);
}

#[test]
fn handles_are_stable() {
    let World { mut env, dog, speak, .. } = world();
    let m = class_getInstanceMethod(&mut env, dog, speak);
    let heap = env.mem.next_block();
    assert_eq!(class_getInstanceMethod(&mut env, dog, speak), m);
    assert_eq!(env.mem.next_block(), heap);
    assert_eq!(method_getName(&env, m), speak);
    assert_eq!(env.mem.read_u32(m), dog);
    // Any other address is no method.
    assert_eq!(method_getName(&env, 0), 0);
    assert_eq!(method_getName(&env, m + 4), 0);
    assert_eq!(method_getImplementation(&mut env, m + 4), 0);
    assert_eq!(method_getTypeEncoding(&env, 0x5000), 0);
    assert_eq!(method_setImplementation(&mut env, 0x5000, 0x7001), 0);
}

#[test]
fn responding_is_having_a_method() {
    let World { mut env, root, dog, speak, eat, fly } = world();
    for class in [nil, root, dog] {
        for sel in [0, speak, eat, fly] {
            let responds = class_respondsToSelector(&env, class, sel);
            assert_eq!(responds, class_getInstanceMethod(&mut env, class, sel) != 0);
        }
    }
    assert!(class_respondsToSelector(&env, dog, eat));
    assert!(!class_respondsToSelector(&env, dog, fly));
}

#[test]
fn implementations_are_replaced() {
    let World { mut env, dog, speak, .. } = world();
    let m = class_getInstanceMethod(&mut env, dog, speak);
    let host = method_getImplementation(&mut env, m);
    assert_ne!(host, 0);
    assert_eq!(method_getImplementation(&mut env, m), host);
    assert_eq!(class_getMethodImplementation(&mut env, dog, speak), host);
    assert_eq!(class_getMethodImplementation_stret(&mut env, dog, speak), host);
    // The previous one comes back.
    assert_eq!(method_setImplementation(&mut env, m, 0x7001), host);
    assert_eq!(method_getImplementation(&mut env, m), 0x7001);
    assert_eq!(method_setImplementation(&mut env, m, host), 0x7001);
    assert_eq!(method_getImplementation(&mut env, m), host);
    // NULL changes nothing.
    assert_eq!(method_setImplementation(&mut env, m, 0), host);
    assert_eq!(method_getImplementation(&mut env, m), host);
}

#[test]
fn methods_are_added_once() {
    let World { mut env, root, dog, speak, fly, .. } = world();
    assert!(class_addMethod(&mut env, dog, fly, 0x7001, 0x9000));
    assert!(class_respondsToSelector(&env, dog, fly));
    assert!(!class_respondsToSelector(&env, root, fly));
    let m = class_getInstanceMethod(&mut env, dog, fly);
    assert_eq!(method_getImplementation(&mut env, m), 0x7001);
    assert_eq!(method_getTypeEncoding(&env, m), 0x9000);
    assert!(!class_addMethod(&mut env, dog, fly, 0x7003, 0));
    assert_eq!(method_getImplementation(&mut env, m), 0x7001);
    assert!(!class_addMethod(&mut env, dog, speak, 0x7003, 0));
    assert!(!class_addMethod(&mut env, nil, fly, 0x7003, 0));
    assert!(!class_addMethod(&mut env, root, 0, 0x7003, 0));
    assert!(!class_addMethod(&mut env, root, fly, 0, 0));
    // A method of a superclass can be overridden.
    let World { mut env, dog, eat, .. } = world();
    assert!(class_addMethod(&mut env, dog, eat, 0x7001, 0));
    assert_eq!(class_getMethodImplementation(&mut env, dog, eat), 0x7001);
}

#[test]
fn methods_are_replaced_or_added() {
    let World { mut env, dog, speak, fly, .. } = world();
    let host = class_getMethodImplementation(&mut env, dog, speak);
    assert_eq!(class_replaceMethod(&mut env, dog, speak, 0x7001, 0x9000), host);
    assert_eq!(class_getMethodImplementation(&mut env, dog, speak), 0x7001);
    let m = class_getInstanceMethod(&mut env, dog, speak);
    assert_eq!(method_getTypeEncoding(&env, m), 0x9000);
    assert_eq!(class_replaceMethod(&mut env, dog, fly, 0x7003, 0), 0);
    assert_eq!(class_getMethodImplementation(&mut env, dog, fly), 0x7003);
    assert_eq!(class_replaceMethod(&mut env, dog, fly, 0, 0), 0x7003);
    assert_eq!(class_getMethodImplementation(&mut env, dog, fly), 0x7003);
    assert_eq!(class_replaceMethod(&mut env, nil, fly, 0x7005, 0), 0);
    assert_eq!(class_replaceMethod(&mut env, dog, 0, 0x7005, 0), 0);
}

#[test]
fn implementations_are_exchanged() {
    let World { mut env, root, dog, speak, eat, fly } = world();
    assert!(class_addMethod(&mut env, dog, fly, 0x7001, 0x9000));
    let a = class_getInstanceMethod(&mut env, dog, fly);
    let b = class_getInstanceMethod(&mut env, root, eat);
    let host = method_getImplementation(&mut env, b);
    method_exchangeImplementations(&mut env, a, b);
    assert_eq!(method_getImplementation(&mut env, b), 0x7001);
    assert_eq!(method_getTypeEncoding(&env, a), 0);
    assert_eq!(method_getTypeEncoding(&env, b), 0x9000);
    // Twice is not at all.
    method_exchangeImplementations(&mut env, a, b);
    assert_eq!(method_getImplementation(&mut env, a), 0x7001);
    assert_eq!(method_getImplementation(&mut env, b), host);
    assert_eq!(method_getTypeEncoding(&env, a), 0x9000);
    assert_eq!(method_getTypeEncoding(&env, b), 0);
    // Nothing happens for what is no method.
    method_exchangeImplementations(&mut env, a, 0x5000);
    assert_eq!(method_getImplementation(&mut env, a), 0x7001);
    let own = class_getInstanceMethod(&mut env, dog, speak);
    method_exchangeImplementations(&mut env, own, own);
    assert_eq!(method_getName(&env, own), speak);
}

#[test]
fn class_methods() {
    let World { env, dog, speak, .. } = world();
    let make = env.objc.lookup_selector(b"make").unwrap();
    assert_eq!(class_getClassMethod(&env, dog, make), env.mem.read_u32(dog));
    // The root's metaclass is below the root.
    assert_ne!(class_getClassMethod(&env, dog, speak), 0);
    assert_eq!(class_getClassMethod(&env, nil, make), 0);
}

#[test]
fn implementations_through_methods() {
    let World { mut env, root, dog, speak, eat, fly } = world();
    for class in [root, dog] {
        for sel in [speak, eat] {
            let called = class_getMethodImplementation(&mut env, class, sel);
            assert_ne!(called, 0);
            let m = class_getInstanceMethod(&mut env, class, sel);
            assert_eq!(method_getName(&env, m), sel);
            assert_eq!(method_getImplementation(&mut env, m), called);
            assert_eq!(class_getMethodImplementation_stret(&mut env, class, sel), called);
        }
        assert_eq!(class_getMethodImplementation(&mut env, class, fly), 0);
    }
    assert_eq!(class_getMethodImplementation(&mut env, nil, speak), 0);
    assert_eq!(class_getMethodImplementation(&mut env, dog, 0), 0);
}

#[test]
fn what_is_there_needs_no_memory() {
    let World { mut env, dog, speak, eat, fly, .. } = world();
    assert!(class_addMethod(&mut env, dog, fly, 0x7001, 0));
    let m = class_getInstanceMethod(&mut env, dog, speak);
    let host = method_getImplementation(&mut env, m);
    let guest = class_getInstanceMethod(&mut env, dog, fly);
    while env.mem.has_room(0x1000_0000) {
        env.mem.allocate(0x1000_0000);
    }
    while env.mem.has_room(16) {
        let size = if env.mem.has_room(0x10_0000) { 0x10_0000 } else { 16 };
        env.mem.allocate(size);
    }
    assert_eq!(class_getInstanceMethod(&mut env, dog, speak), m);
    assert_eq!(class_getInstanceMethod(&mut env, nil, eat), 0);
    assert_eq!(method_getImplementation(&mut env, m), host);
    assert_eq!(method_getImplementation(&mut env, guest), 0x7001);
    assert_eq!(method_setImplementation(&mut env, guest, 0x7003), 0x7001);
}
