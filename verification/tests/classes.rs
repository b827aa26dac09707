//! Classes.
use touchhle::mem::Mem;
use touchhle::objc::classes::{nil, ClassTemplate, MethodTemplate, ObjC};

fn template(name: &str, superclass: Option<&str>) -> ClassTemplate {
    ClassTemplate {
        name: name.as_bytes().to_vec(),
        superclass: superclass.map(|s| s.as_bytes().to_vec()),
        class_methods: Vec::new(),
        instance_methods: Vec::new(),
    }
}

fn runtime() -> (ObjC, Mem) {
    let templates = vec![
        template("NSObject", None),
        template("NSArray", Some("NSObject")),
        template("NSMutableArray", Some("NSArray")),
    ];
    (ObjC::new(templates), Mem::new(0x10000))
}

#[test]
fn linking_makes_the_superclasses_too() {
    let (mut objc, mut mem) = runtime();
    let class = objc.link_class("NSMutableArray", false, &mut mem);
    assert_ne!(class, nil);
    assert_eq!(objc.get_class_name(class), b"NSMutableArray".to_vec());
    let above = objc.get_superclass(class);
    assert_eq!(objc.get_class_name(above), b"NSArray".to_vec());
    let root = objc.get_superclass(above);
    assert_eq!(objc.get_class_name(root), b"NSObject".to_vec());
    assert_eq!(objc.get_superclass(root), nil);
    assert_eq!(objc.all_classes().len(), 3);
}

#[test]
fn linking_twice_is_linking_once() {
    let (mut objc, mut mem) = runtime();
    let class = objc.link_class("NSArray", false, &mut mem);
    let heap = mem.next_block();
    assert_eq!(objc.link_class("NSArray", false, &mut mem), class);
    assert_eq!(objc.get_known_class("NSArray", &mut mem), class);
    assert_eq!(mem.next_block(), heap);
}

#[test]
fn metaclasses() {
    let (mut objc, mut mem) = runtime();
    let class = objc.link_class("NSArray", false, &mut mem);
    let meta = objc.link_class("NSArray", true, &mut mem);
    assert_ne!(class, meta);
    assert_eq!(mem.read_u32(class), meta);
    assert_eq!(objc.get_class_name(meta), b"NSArray".to_vec());
    let root = objc.link_class("NSObject", false, &mut mem);
    let root_meta = objc.link_class("NSObject", true, &mut mem);
    // The root's metaclass is its own metaclass, and is below the root.
    assert_eq!(mem.read_u32(root_meta), root_meta);
    assert_eq!(objc.get_superclass(root_meta), root);
    assert_eq!(mem.read_u32(meta), root_meta);
    assert_eq!(objc.get_superclass(meta), root_meta);
}

#[test]
fn missing_classes_get_placeholders() {
    let (mut objc, mut mem) = runtime();
    let class = objc.link_class("NSMissing", false, &mut mem);
    assert!(objc.is_unimplemented_class(class));
    assert!(!objc.is_fake_class(class));
    assert_eq!(objc.get_class_name(class), b"NSMissing".to_vec());
    let fake = objc.link_class("FlurryAnalytics", false, &mut mem);
    assert!(objc.is_fake_class(fake));
    assert!(!objc.is_unimplemented_class(fake));
    let known = objc.link_class("NSArray", false, &mut mem);
    assert!(!objc.is_unimplemented_class(known));
    assert!(!objc.is_fake_class(known));
}

#[test]
fn placeholders_are_not_made_on_trial() {
    let (mut objc, mut mem) = runtime();
    assert_eq!(objc.try_get_known_class("NSMissing", &mut mem), None);
    assert_eq!(objc.all_classes().len(), 0);
    let class = objc.try_get_known_class("NSArray", &mut mem);
    assert!(class.is_some());
    // Once it is there, it is found.
    let missing = objc.link_class("NSMissing", false, &mut mem);
    assert_eq!(objc.try_get_known_class("NSMissing", &mut mem), Some(missing));
    assert_eq!(objc.get_known_class("NSMissing", &mut mem), missing);
}

#[test]
fn implausible_names_have_no_class() {
    let (mut objc, mut mem) = runtime();
    assert_eq!(objc.link_class("", false, &mut mem), nil);
    assert_eq!(objc.link_class("a\u{1}b", false, &mut mem), nil);
    assert_eq!(objc.link_class("\u{e9}", false, &mut mem), nil);
    assert_eq!(objc.all_classes().len(), 0);
}

#[test]
fn names_of_what_is_no_class() {
    let (objc, _) = runtime();
    assert_eq!(objc.try_get_class_name(0x5000), None);
    assert_eq!(objc.get_superclass(0x5000), nil);
    assert!(!objc.is_unimplemented_class(0x5000));
    assert!(!objc.is_fake_class(0x5000));
}

#[test]
fn subclasses() {
    let (mut objc, mut mem) = runtime();
    let mutable = objc.link_class("NSMutableArray", false, &mut mem);
    let array = objc.link_class("NSArray", false, &mut mem);
    let root = objc.link_class("NSObject", false, &mut mem);
    assert!(objc.class_is_subclass_of(mutable, mutable));
    assert!(objc.class_is_subclass_of(mutable, array));
    assert!(objc.class_is_subclass_of(array, root));
    assert!(objc.class_is_subclass_of(mutable, root));
    assert!(!objc.class_is_subclass_of(array, mutable));
    assert!(!objc.class_is_subclass_of(root, array));
    assert!(!objc.class_is_subclass_of(nil, root));
}

#[test]
fn the_first_template_of_a_name_counts() {
    let mut first = template("NSThing", Some("NSObject"));
    first.instance_methods.push(MethodTemplate { name: b"go".to_vec(), imp: 1 });
    let second = template("NSThing", None);
    let mut objc = ObjC::new(vec![template("NSObject", None), second, first]);
    let mut mem = Mem::new(0x10000);
    let class = objc.link_class("NSThing", false, &mut mem);
    assert_eq!(objc.get_superclass(class), nil);
    assert_eq!(objc.lookup_selector(b"go"), None);
}

#[test]
fn whether_classes_can_be_linked() {
    let (objc, mem) = runtime();
    assert!(objc.can_link(&mem));
    // Superclasses that have no end.
    let looped = vec![template("A", Some("B")), template("B", Some("A"))];
    assert!(!ObjC::new(looped).can_link(&mem));
    let rooted = vec![template("NSObject", Some("A"))];
    assert!(!ObjC::new(rooted).can_link(&mem));
    // A superclass without a template is no obstacle.
    assert!(ObjC::new(vec![template("A", Some("B"))]).can_link(&mem));
    // A method whose selector is unknown.
    let mut unknown = template("A", None);
    unknown.instance_methods.push(MethodTemplate { name: b"copy".to_vec(), imp: 1 });
    assert!(!ObjC::new(vec![unknown]).can_link(&mem));
}

#[test]
fn searches_that_end() {
    let (mut objc, mut mem) = runtime();
    let mutable = objc.link_class("NSMutableArray", false, &mut mem);
    let root = objc.link_class("NSObject", false, &mut mem);
    // NSArray, NSObject, nil.
    assert!(!objc.search_ends_within(mutable, mutable, 2));
    assert!(objc.search_ends_within(mutable, mutable, 3));
    assert!(!objc.search_ends_within(mutable, root, 1));
    assert!(objc.search_ends_within(mutable, root, 2));
    assert!(!objc.search_ends_within(nil, root, 0));
    assert!(objc.search_ends_within(nil, root, 1));
}

#[test]
fn replaced_classes_are_fakes_with_their_metaclasses() {
    for name in [
        "AdMobView", "AltAdsX", "Mobclix", "FBSession", "Flurry", "OpenFeintX", "TapjoyY", "UAPush",
        "GADBanner", "iSimulateX", "SBSceneX", "SBSystemX",
    ] {
        let (mut objc, mut mem) = runtime();
        let class = objc.link_class(name, false, &mut mem);
        let metaclass = objc.link_class(name, true, &mut mem);
        assert_ne!(class, metaclass);
        for c in [class, metaclass] {
            assert!(objc.is_fake_class(c));
            assert!(!objc.is_unimplemented_class(c));
            assert_eq!(objc.get_class_name(c), name.as_bytes().to_vec());
        }
        assert!(!objc.is_fake_class(nil));
    }
}

#[test]
fn a_linked_class_needs_no_memory() {
    let (mut objc, mut mem) = runtime();
    let class = objc.link_class("NSArray", false, &mut mem);
    while mem.has_room(0x1000_0000) {
        mem.allocate(0x1000_0000);
    }
    while mem.has_room(16) {
        let size = if mem.has_room(0x10_0000) { 0x10_0000 } else { 16 };
        mem.allocate(size);
    }
    assert!(!objc.can_link(&mem));
    assert_eq!(objc.link_class("NSArray", false, &mut mem), class);
    assert_eq!(objc.try_get_known_class("NSMissing", &mut mem), None);
    assert_eq!(objc.link_class("", false, &mut mem), nil);
}
