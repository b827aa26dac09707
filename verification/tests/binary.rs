//! Classes and categories of an app binary.
use touchhle::mem::Mem;
use touchhle::objc::binary::{substitute_classes, Section};
use touchhle::objc::classes::{nil, ClassTemplate, ObjC, IMP};

/// Writes a string and returns its address.
fn string(mem: &mut Mem, text: &[u8]) -> u32 {
    mem.alloc_and_write_cstr(&text.to_vec())
}

/// Writes words and returns their address.
fn words(mem: &mut Mem, words: &[u32]) -> u32 {
    let at = mem.allocate(4 * words.len() as u32);
    mem.write_words(at, &words.to_vec());
    at
}

/// A list of methods, of names and addresses.
fn methods(mem: &mut Mem, list: &[(&str, u32)]) -> u32 {
    let mut w = vec![12, list.len() as u32];
    for (name, addr) in list {
        let name = string(mem, name.as_bytes());
        let types = string(mem, b"v8@0:4");
        w.extend([name, types, *addr]);
    }
    words(mem, &w)
}

/// A class and its metaclass, whose addresses are reserved.
struct Bin {
    class: u32,
    meta: u32,
}

fn reserve(mem: &mut Mem) -> Bin {
    Bin { class: mem.allocate(20), meta: mem.allocate(20) }
}

fn define(
    mem: &mut Mem,
    bin: &Bin,
    name: &[u8],
    superclass: u32,
    start: u32,
    size: u32,
    method_list: u32,
    ivars: u32,
    properties: u32,
) {
    let name = string(mem, name);
    let data = words(mem, &[0, start, size, 0, name, method_list, 0, ivars, 0, properties]);
    let meta_data = words(mem, &[1, 20, 20, 0, name, 0, 0, 0, 0, 0]);
    mem.write_words(bin.class, &vec![bin.meta, superclass, 0, 0, data]);
    mem.write_words(bin.meta, &vec![bin.meta, 0, 0, 0, meta_data]);
}

fn section(mem: &mut Mem, classes: &[u32]) -> Option<Section> {
    let addr = words(mem, classes);
    Some(Section { addr, size: 4 * classes.len() as u32 })
}

#[test]
fn classes_are_registered() {
    let mut mem = Mem::new(0x10000);
    let mut objc = ObjC::new(Vec::new());
    let root = reserve(&mut mem);
    let app = reserve(&mut mem);
    let list = methods(&mut mem, &[("run", 0x7001), ("stop", 0x7005)]);
    define(&mut mem, &root, b"Root", nil, 0, 4, 0, 0, 0);
    define(&mut mem, &app, b"App", root.class, 4, 8, list, 0, 0);
    let all = section(&mut mem, &[root.class, app.class]);
    objc.register_bin_classes(b"com.example", all, &mem);
    assert_eq!(objc.all_classes().len(), 2);
    assert_eq!(objc.get_class_name(app.class), b"App".to_vec());
    assert_eq!(objc.get_class_name(app.meta), b"App".to_vec());
    assert_eq!(objc.get_superclass(app.class), root.class);
    assert!(objc.lookup_selector(b"run").is_some());
    assert!(objc.lookup_selector(b"walk").is_none());
    assert_eq!(objc.class_declaring_instance_method("stop"), Some(app.class));
    let run = objc.lookup_selector(b"run").unwrap();
    assert_eq!(objc.class(app.class).unwrap().methods[&run], IMP::Guest { addr: 0x7001 });
    assert!(objc.class(0x5000).is_none());
    assert_eq!(objc.link_class("App", true, &mut mem), app.meta);
    // Without a section nothing happens.
    objc.register_bin_classes(b"com.example", None, &mem);
    assert_eq!(objc.all_classes().len(), 2);
}

#[test]
fn unreadable_names_are_replaced() {
    let mut mem = Mem::new(0x10000);
    let mut objc = ObjC::new(Vec::new());
    let bin = reserve(&mut mem);
    define(&mut mem, &bin, b"\xFF\xFE", nil, 0, 4, 0, 0, 0);
    let all = section(&mut mem, &[bin.class]);
    objc.register_bin_classes(b"com.example", all, &mem);
    let name = format!("_touchHLE_UnreadableClass_{:08x}", bin.class);
    assert_eq!(objc.get_class_name(bin.class), name.as_bytes().to_vec());
    assert_eq!(objc.get_class_name(bin.meta), name.as_bytes().to_vec());
}

#[test]
fn advertising_classes_are_faked() {
    let mut mem = Mem::new(0x10000);
    let mut objc = ObjC::new(Vec::new());
    let ad = reserve(&mut mem);
    let score = reserve(&mut mem);
    define(&mut mem, &ad, b"GADBannerView", nil, 0, 4, 0, 0, 0);
    define(&mut mem, &score, b"OFHighScoreService", nil, 0, 4, 0, 0, 0);
    assert!(substitute_classes(b"com.example", &mem, ad.class, ad.meta).is_some());
    assert!(substitute_classes(b"com.example", &mem, score.class, score.meta).is_none());
    let defender = b"com.chillingo.defenderchronicles";
    assert!(substitute_classes(defender, &mem, score.class, score.meta).is_some());
    // The names have to agree.
    assert!(substitute_classes(b"com.example", &mem, ad.class, score.meta).is_none());
    let all = section(&mut mem, &[ad.class, score.class]);
    objc.register_bin_classes(b"com.example", all, &mem);
    assert!(objc.is_fake_class(ad.class));
    assert!(objc.is_fake_class(ad.meta));
    assert!(!objc.is_fake_class(score.class));
}

#[test]
fn instance_variables_move_behind_those_of_the_superclass() {
    let mut mem = Mem::new(0x10000);
    let mut objc = ObjC::new(Vec::new());
    let root = reserve(&mut mem);
    let middle = reserve(&mut mem);
    let leaf = reserve(&mut mem);
    // An instance variable of eight bytes, aligned to eight bytes.
    let name = string(&mut mem, b"value");
    let types = string(&mut mem, b"d");
    let ivars = words(&mut mem, &[20, 1, 0x9000, name, types, 3, 8]);
    define(&mut mem, &root, b"Root", nil, 0, 13, 0, 0, 0);
    define(&mut mem, &middle, b"Middle", root.class, 8, 16, 0, ivars, 0);
    define(&mut mem, &leaf, b"Leaf", middle.class, 16, 20, 0, 0, 0);
    // The order in the binary makes no difference.
    let all = section(&mut mem, &[leaf.class, middle.class, root.class]);
    objc.register_bin_classes(b"com.example", all, &mem);
    for class in [root.class, middle.class, leaf.class] {
        assert_eq!(objc.need_ivar_reconciliation(class), (false, 0));
    }
    // Five bytes are rounded up to eight, and what follows moves along.
    let layout = |class| {
        let class = objc.class(class).unwrap();
        (class.instance_start, class.instance_size)
    };
    assert_eq!(layout(root.class), (0, 13));
    assert_eq!(layout(middle.class), (16, 24));
    assert_eq!(layout(leaf.class), (24, 28));
    let ivar = objc.class(middle.class).unwrap().ivars.get(b"value").unwrap();
    assert_eq!((ivar.offset, ivar.alignment), (0x9008, 8));
    let mut other = ObjC::new(Vec::new());
    let alone = section(&mut mem, &[middle.class]);
    other.register_bin_classes(b"com.example", alone, &mem);
    assert_eq!(other.need_ivar_reconciliation(middle.class), (false, 0));
    let dump = String::from_utf8(objc.dump_classes()).unwrap();
    assert!(dump.contains("\"name\": \"Leaf\", \"super\": \"Middle\""));
}

#[test]
fn categories_add_methods() {
    let mut mem = Mem::new(0x10000);
    let mut objc = ObjC::new(Vec::new());
    let app = reserve(&mut mem);
    let list = methods(&mut mem, &[("run", 0x7001)]);
    define(&mut mem, &app, b"App", nil, 0, 4, list, 0, 0);
    let all = section(&mut mem, &[app.class]);
    objc.register_bin_classes(b"com.example", all, &mem);
    let name = string(&mut mem, b"Extra");
    let instance = methods(&mut mem, &[("jump", 0x7003), ("run", 0x7005)]);
    let class = methods(&mut mem, &[("shared", 0x7007)]);
    let category = words(&mut mem, &[name, app.class, instance, class]);
    assert_eq!(objc.class_declaring_instance_method("jump"), None);
    let categories = section(&mut mem, &[category]);
    objc.register_bin_categories(categories, &mem);
    assert_eq!(objc.class_declaring_instance_method("jump"), Some(app.class));
    // A method of a category takes the place of one of the class.
    let run = objc.lookup_selector(b"run").unwrap();
    assert_eq!(objc.class(app.class).unwrap().methods[&run], IMP::Guest { addr: 0x7005 });
    // Class methods belong to the metaclass.
    assert!(objc.lookup_selector(b"shared").is_some());
    assert_eq!(objc.class_declaring_instance_method("shared"), None);
    // A name that is not text has its category skipped.
    let bad = string(&mut mem, b"\xFF");
    let more = methods(&mut mem, &[("swim", 0x7009)]);
    let category = words(&mut mem, &[bad, app.class, more, 0]);
    let categories = section(&mut mem, &[category]);
    objc.register_bin_categories(categories, &mem);
    assert!(objc.lookup_selector(b"swim").is_none());
    objc.register_bin_categories(None, &mem);
}

#[test]
fn overgrown_superclasses_are_noticed() {
    let mut mem = Mem::new(0x10000);
    let root = ClassTemplate {
        name: b"NSObject".to_vec(),
        superclass: None,
        class_methods: Vec::new(),
        instance_methods: Vec::new(),
    };
    let mut objc = ObjC::new(vec![root]);
    let class = objc.link_class("NSObject", false, &mut mem);
    // The metaclass is below the class: both start behind the `isa`.
    let meta = objc.link_class("NSObject", true, &mut mem);
    assert_eq!(objc.need_ivar_reconciliation(class), (false, 0));
    assert_eq!(objc.need_ivar_reconciliation(meta), (false, 0));
    // A class with instances from byte 0 on, below one of four bytes, which is
    // not registered by name.
    let app = reserve(&mut mem);
    define(&mut mem, &app, b"App", meta, 0, 8, 0, 0, 0);
    let all = section(&mut mem, &[app.class]);
    objc.register_bin_classes(b"com.example", all, &mem);
    assert_eq!(objc.need_ivar_reconciliation(app.class), (true, 4));
}
