//! The functions of the runtime that the guest calls.
use touchhle::environment::{Environment, FrameworkState, LibcState};
use touchhle::frameworks::{avfoundation::av_audio_player, opengles, uikit::ui_touch};
use touchhle::guest_console::Console;
use touchhle::libc::errno;
use touchhle::mem::Mem;
use touchhle::objc::binary::Section;
use touchhle::objc::classes::{nil, Class, ClassTemplate, MethodTemplate, ObjC};
use touchhle::objc::methods::{class_addMethod, class_getInstanceMethod, method_getName};
use touchhle::objc::runtime::{self, Message};

fn template(name: &str, superclass: Option<&str>, class_methods: &[&str]) -> ClassTemplate {
    ClassTemplate {
        name: name.as_bytes().to_vec(),
        superclass: superclass.map(|s| s.as_bytes().to_vec()),
        class_methods: class_methods
            .iter()
            .map(|name| MethodTemplate { name: name.as_bytes().to_vec(), imp: 5 })
            .collect(),
        instance_methods: Vec::new(),
    }
}

fn environment() -> Environment {
    let templates = vec![
        template("NSObject", None, &[]),
        template("NSArray", Some("NSObject"), &["initialize"]),
        template("NSString", Some("NSObject"), &[]),
    ];
    let mut env = Environment {
        mem: Mem::new(0x10000),
        objc: ObjC::new(templates),
        libc_state: LibcState { errno: errno::State::default(), ctype_locale: 0 },
        framework_state: FrameworkState {
            ui_touch: ui_touch::State::default(),
            opengles: opengles::State::default(),
            av_audio_player: av_audio_player::State::default(),
        },
        console: Console::new(),
        current_thread: 0,
    };
    runtime::register_host_selector(&mut env, "initialize");
    env
}

fn link(env: &mut Environment, name: &str) -> Class {
    env.objc.link_class(name, false, &mut env.mem)
}

#[test]
fn classes_are_found_by_name() {
    let mut env = environment();
    env.mem.write_cstr(0x3000, &b"NSArray".to_vec());
    env.mem.write_cstr(0x3100, &b"NSMissing".to_vec());
    env.mem.write_cstr(0x3200, &b"\xFF".to_vec());
    let class = runtime::objc_getClass(&mut env, 0x3000);
    assert_eq!(class, link(&mut env, "NSArray"));
    assert_eq!(runtime::objc_getClass(&mut env, 0x3100), nil);
    assert_eq!(runtime::objc_getClass(&mut env, 0x3200), nil);
    assert_eq!(runtime::objc_getClass(&mut env, 0), nil);
    assert_eq!(runtime::objc_lookUpClass(&mut env, 0x3000), class);
    assert_eq!(runtime::objc_getRequiredClass(&mut env, 0x3000), class);
    assert_eq!(runtime::objc_begin_catch(&mut env, 0x3000), class);
    assert_eq!(runtime::objc_end_catch(&mut env, 0x3000), class);
    assert_eq!(runtime::objc_exception_throw(&mut env, 0x3000), class);
    assert_eq!(runtime::objc_retainAutoreleasedReturnValue(&mut env, 0x3000), class);
    assert_eq!(runtime::objc_autoreleaseReturnValue(&mut env, 0x3000), class);
    assert_eq!(runtime::objc_retainAutoreleaseReturnValue(&mut env, 0x3000), class);
    assert_eq!(runtime::objc_autoreleasePoolPush(&mut env, 0x3000), nil);
    runtime::objc_autoreleasePoolPop(&mut env, 0);
}

#[test]
fn objects_and_their_classes() {
    let mut env = environment();
    let class = link(&mut env, "NSArray");
    env.mem.write_u32(0x3000, class);
    assert_eq!(runtime::object_getClass(&env, 0x3000), class);
    assert_eq!(runtime::object_getClassName(&env, 0x3000), class);
    assert_eq!(runtime::object_getClass(&env, nil), nil);
    assert_eq!(runtime::object_getIndexedIvars(&env, 0x3000), 0x3000);
    let root = link(&mut env, "NSObject");
    assert_eq!(runtime::class_getSuperclass(&env, class), root);
    assert_eq!(runtime::class_getSuperclass(&env, root), nil);
    assert_eq!(runtime::class_getSuperclass(&env, nil), nil);
}

#[test]
fn messages_to_objects() {
    let env = environment();
    let retain = Message::Retain { object: 5 };
    let release = Message::Release { object: 5 };
    let autorelease = Message::Autorelease { object: 5 };
    let call = runtime::objc_retain(&env, 5);
    assert_eq!((call.value, call.messages), (5, vec![retain]));
    let call = runtime::objc_release(&env, 5);
    assert_eq!((call.value, call.messages), (5, vec![release]));
    let call = runtime::objc_autorelease(&env, 5);
    assert_eq!((call.value, call.messages), (5, vec![autorelease]));
    let call = runtime::objc_retainAutorelease(&env, 5);
    assert_eq!((call.value, call.messages), (5, vec![retain, autorelease]));
    let call = runtime::__objc_deallocOnMainThreadHelper(&env, 5);
    assert_eq!(call.messages, vec![release]);
    for call in [
        runtime::objc_retain(&env, nil),
        runtime::objc_release(&env, nil),
        runtime::objc_autorelease(&env, nil),
        runtime::objc_retainAutorelease(&env, nil),
        runtime::__objc_deallocOnMainThreadHelper(&env, nil),
    ] {
        assert_eq!((call.value, call.messages.len()), (nil, 0));
    }
    assert_eq!(runtime::objc_alloc(&env, 5), Some(Message::Alloc { class: 5 }));
    assert_eq!(runtime::objc_alloc(&env, nil), None);
    assert_eq!(
        runtime::objc_allocWithZone(&env, 5, 6),
        Some(Message::AllocWithZone { class: 5, zone: 6 })
    );
    assert_eq!(runtime::objc_allocWithZone(&env, nil, 6), None);
    assert_eq!(runtime::objc_retainBlock(&env, 5), 5);
    assert_eq!(runtime::objc_unsafeClaimAutoreleasedReturnValue(&env, 5), 5);
    assert_eq!(runtime::objc_msgForward(&env, 5, 6), nil);
    assert_eq!(runtime::___objc_personality_v0(&env, 0, 0, 0, 0, 0), 3);
}

#[test]
fn forwarding_writes_nothing() {
    let mut env = environment();
    env.mem.write_u32(0x3000, 7);
    runtime::objc_msgForward_stret(&mut env, 0x3000, 5, 6);
    assert_eq!(env.mem.read_u32(0x3000), 7);
}

#[test]
fn strong_references() {
    let mut env = environment();
    env.mem.write_u32(0x3000, 5);
    assert_eq!(runtime::objc_storeStrong(&env, 0, 6), None);
    assert_eq!(runtime::objc_storeStrong(&env, 0x3000, 5), None);
    let store = runtime::objc_storeStrong(&env, 0x3000, 6).unwrap();
    assert_eq!(store.before(), Some(Message::Retain { object: 6 }));
    assert_eq!(store.commit(&mut env), Some(Message::Release { object: 5 }));
    assert_eq!(env.mem.read_u32(0x3000), 6);
    let store = runtime::objc_storeStrong(&env, 0x3000, nil).unwrap();
    assert_eq!(store.before(), None);
    assert_eq!(store.commit(&mut env), Some(Message::Release { object: 6 }));
    let store = runtime::objc_storeStrong(&env, 0x3000, 7).unwrap();
    assert_eq!(store.commit(&mut env), None);
}

#[test]
fn names_of_classes_are_stable() {
    let mut env = environment();
    let class = link(&mut env, "NSArray");
    let name = runtime::class_getName(&mut env, class);
    assert_eq!(env.mem.cstr_at(name), b"NSArray".to_vec());
    let heap = env.mem.next_block();
    assert_eq!(runtime::class_getName(&mut env, class), name);
    assert_eq!(env.mem.next_block(), heap);
    assert_eq!(runtime::class_getName(&mut env, nil), 0);
}

#[test]
fn selectors_are_stable() {
    let mut env = environment();
    let sel = runtime::register_host_selector(&mut env, "play:");
    assert_eq!(env.mem.cstr_at(sel), b"play:".to_vec());
    assert_eq!(runtime::register_host_selector(&mut env, "play:"), sel);
    assert_ne!(runtime::register_host_selector(&mut env, "play"), sel);
    assert_eq!(env.objc.lookup_selector(b"play:"), Some(sel));
}

#[test]
fn classes_made_by_the_guest() {
    let mut env = environment();
    env.mem.write_cstr(0x3000, &b"MyClass".to_vec());
    let class = runtime::objc_allocateClassPair(&mut env, nil, 0x3000, 0);
    assert!(env.objc.is_unimplemented_class(class));
    assert_eq!(env.objc.get_class_name(class), b"MyClass".to_vec());
    runtime::objc_registerClassPair(&mut env, class);
    runtime::objc_disposeClassPair(&mut env, class);
    assert_eq!(runtime::objc_readClassPair(&env, class, 0), class);
    env.mem.write_cstr(0x3000, &b"\xFF".to_vec());
    assert_eq!(runtime::objc_allocateClassPair(&mut env, nil, 0x3000, 0), nil);
}

#[test]
fn superclasses_are_changed() {
    let mut env = environment();
    let array = link(&mut env, "NSArray");
    let string = link(&mut env, "NSString");
    let root = link(&mut env, "NSObject");
    assert_eq!(runtime::class_setSuperclass(&mut env, array, string), root);
    assert_eq!(runtime::class_getSuperclass(&env, array), string);
    assert_eq!(runtime::class_getSuperclass(&env, string), root);
    assert_eq!(runtime::class_setSuperclass(&mut env, nil, string), nil);
}

#[test]
fn classes_are_initialized() {
    let mut env = environment();
    let array = link(&mut env, "NSArray");
    let string = link(&mut env, "NSString");
    let sel = env.objc.lookup_selector(b"initialize").unwrap();
    let (class, message) = runtime::swift_getInitializedObjCClass(&mut env, array);
    assert_eq!(class, array);
    assert_eq!(message, Some(Message::Initialize { class: array, sel }));
    assert_eq!(runtime::swift_getInitializedObjCClass(&mut env, string), (string, None));
    assert_eq!(runtime::swift_getInitializedObjCClass(&mut env, nil), (nil, None));
}

#[test]
fn protocols_are_not_modelled() {
    let mut env = environment();
    assert_eq!(runtime::objc_getProtocol(&env, 0x3000), nil);
    assert_eq!(runtime::protocol_getName(&env, 5), 0);
    assert!(runtime::protocol_conformsToProtocol(&env, 5, 5));
    assert!(!runtime::protocol_conformsToProtocol(&env, 5, 6));
    assert!(!runtime::protocol_conformsToProtocol(&env, nil, nil));
    env.mem.write_u32(0x3000, 9);
    assert_eq!(runtime::class_copyProtocolList(&mut env, 5, 0x3000), 0);
    assert_eq!(env.mem.read_u32(0x3000), 0);
    env.mem.write_u32(0x3000, 9);
    assert_eq!(runtime::class_copyIvarList(&mut env, 5, 0x3000), 0);
    assert_eq!(env.mem.read_u32(0x3000), 0);
    env.mem.write_u32(0x3000, 9);
    assert_eq!(runtime::objc_copyClassNamesForImage(&mut env, 5, 0x3000), 0);
    assert_eq!(env.mem.read_u32(0x3000), 0);
}

#[test]
fn lists_of_classes() {
    let mut env = environment();
    let array = link(&mut env, "NSArray");
    let string = link(&mut env, "NSString");
    let root = link(&mut env, "NSObject");
    assert_eq!(runtime::objc_getClassList(&mut env, 0, 10), 3);
    assert_eq!(runtime::objc_getClassList(&mut env, 0x3000, 2), 3);
    assert_eq!(env.mem.read_u32(0x3000), root);
    assert_eq!(env.mem.read_u32(0x3004), array);
    assert_eq!(env.mem.read_u32(0x3008), 0);
    assert_eq!(runtime::objc_getClassList(&mut env, 0x3000, 9), 3);
    assert_eq!(env.mem.read_u32(0x3008), string);
    assert_eq!(env.mem.read_u32(0x300C), 0);
}

#[test]
fn lists_of_methods() {
    let mut env = environment();
    let array = link(&mut env, "NSArray");
    assert_eq!(runtime::class_copyMethodList(&mut env, array, 0x3000), 0);
    let play = runtime::register_host_selector(&mut env, "play");
    let stop = runtime::register_host_selector(&mut env, "stop");
    assert!(class_addMethod(&mut env, array, play, 0x7001, 0));
    assert!(class_addMethod(&mut env, array, stop, 0x7003, 0));
    let list = runtime::class_copyMethodList(&mut env, array, 0x3000);
    assert_eq!(env.mem.read_u32(0x3000), 2);
    let mut names = vec![
        method_getName(&env, env.mem.read_u32(list)),
        method_getName(&env, env.mem.read_u32(list + 4)),
    ];
    names.sort();
    let mut wanted = vec![play, stop];
    wanted.sort();
    assert_eq!(names, wanted);
    assert_eq!(env.mem.read_u32(list + 8), 0);
    for at in [list, list + 4] {
        let m = env.mem.read_u32(at);
        let sel = method_getName(&env, m);
        assert_eq!(class_getInstanceMethod(&mut env, array, sel), m);
    }
    assert_eq!(runtime::class_copyMethodList(&mut env, nil, 0x3000), 0);
    assert_eq!(env.mem.read_u32(0x3000), 0);
}

#[test]
fn properties() {
    let mut env = environment();
    let mem = &mut env.mem;
    let name = mem.alloc_and_write_cstr(&b"App".to_vec());
    let below = mem.alloc_and_write_cstr(&b"Below".to_vec());
    let title = mem.alloc_and_write_cstr(&b"title".to_vec());
    let attributes = mem.alloc_and_write_cstr(&b"T@".to_vec());
    let list = mem.allocate(16);
    mem.write_words(list, &vec![8, 1, title, attributes]);
    let data = mem.allocate(40);
    mem.write_words(data, &vec![0, 0, 4, 0, name, 0, 0, 0, 0, list]);
    let below_data = mem.allocate(40);
    mem.write_words(below_data, &vec![0, 4, 4, 0, below, 0, 0, 0, 0, 0]);
    let class = mem.allocate(20);
    let sub = mem.allocate(20);
    let meta = mem.allocate(20);
    mem.write_words(class, &vec![meta, 0, 0, 0, data]);
    mem.write_words(sub, &vec![meta, class, 0, 0, below_data]);
    mem.write_words(meta, &vec![meta, 0, 0, 0, below_data]);
    let section = mem.allocate(8);
    mem.write_words(section, &vec![class, sub]);
    env.objc.register_bin_classes(b"x", Some(Section { addr: section, size: 8 }), &env.mem);
    // Inherited ones are found, but not listed.
    assert_eq!(runtime::class_getProperty(&env, class, title), list + 8);
    assert_eq!(runtime::class_getProperty(&env, sub, title), list + 8);
    assert_eq!(runtime::class_getProperty(&env, sub, name), 0);
    assert_eq!(runtime::class_getProperty(&env, nil, title), 0);
    assert_eq!(runtime::class_getProperty(&env, class, 0), 0);
    let copy = runtime::class_copyPropertyList(&mut env, class, 0x3000);
    assert_eq!(env.mem.read_u32(0x3000), 1);
    assert_eq!(env.mem.read_u32(copy), list + 8);
    assert_eq!(env.mem.read_u32(copy + 4), 0);
    assert_eq!(runtime::class_copyPropertyList(&mut env, sub, 0x3000), 0);
    assert_eq!(env.mem.read_u32(0x3000), 0);
    assert_eq!(runtime::class_copyPropertyList(&mut env, nil, 0), 0);
}
