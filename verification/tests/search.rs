//! Looking for classes.
use touchhle::environment::{Environment, FrameworkState, LibcState};
use touchhle::frameworks::{avfoundation::av_audio_player, opengles, uikit::ui_touch};
use touchhle::guest_console::Console;
use touchhle::libc::errno;
use touchhle::mem::Mem;
use touchhle::objc::classes::{ClassTemplate, MethodTemplate, ObjC};
use touchhle::objc::runtime::register_host_selector;

fn template(name: &str, superclass: Option<&str>, methods: &[&str]) -> ClassTemplate {
    ClassTemplate {
        name: name.as_bytes().to_vec(),
        superclass: superclass.map(|s| s.as_bytes().to_vec()),
        class_methods: Vec::new(),
        instance_methods: methods
            .iter()
            .map(|name| MethodTemplate { name: name.as_bytes().to_vec(), imp: 1 })
            .collect(),
    }
}

fn environment(templates: Vec<ClassTemplate>) -> Environment {
    let mut env = Environment {
        mem: Mem::new(0x10000),
        objc: ObjC::new(templates),
        libc_state: LibcState { errno: errno::State::default(), ctype_locale: 0 },
        framework_state: FrameworkState {
            ui_touch: ui_touch::State::default(),
            opengles: opengles::State::default(),
            av_audio_player: av_audio_player::State::default(),
        },
        console: Console::new(),
        current_thread: 0,
    };
    register_host_selector(&mut env, "didFinish:");
    env
}

#[test]
fn delegates_are_preferred() {
    let mut env = environment(vec![
        template("NSObject", None, &[]),
        template("Alpha", Some("NSObject"), &["didFinish:"]),
        template("LoginDelegate", Some("NSObject"), &["didFinish:"]),
        template("MyAppDelegate", Some("NSObject"), &["didFinish:"]),
        template("Quiet", Some("MyAppDelegate"), &[]),
    ]);
    assert_eq!(env.objc.class_declaring_instance_method("didFinish:"), None);
    let quiet = env.objc.link_class("Alpha", false, &mut env.mem);
    assert_eq!(env.objc.class_declaring_instance_method("didFinish:"), Some(quiet));
    let login = env.objc.link_class("LoginDelegate", false, &mut env.mem);
    assert_eq!(env.objc.class_declaring_instance_method("didFinish:"), Some(login));
    // A class that only inherits the method does not count.
    env.objc.link_class("Quiet", false, &mut env.mem);
    let app = env.objc.link_class("MyAppDelegate", false, &mut env.mem);
    assert_eq!(env.objc.class_declaring_instance_method("didFinish:"), Some(app));
    assert_eq!(env.objc.class_declaring_instance_method("unknown"), None);
}

#[test]
fn the_alphabet_decides_between_equals() {
    let mut env = environment(vec![
        template("NSObject", None, &[]),
        template("Beta", Some("NSObject"), &["didFinish:"]),
        template("Alpha", Some("NSObject"), &["didFinish:"]),
        template("Alph", Some("NSObject"), &["didFinish:"]),
    ]);
    env.objc.link_class("Beta", false, &mut env.mem);
    env.objc.link_class("Alpha", false, &mut env.mem);
    let first = env.objc.link_class("Alph", false, &mut env.mem);
    assert_eq!(env.objc.class_declaring_instance_method("didFinish:"), Some(first));
}

#[test]
fn classes_in_json() {
    let mut env = environment(vec![
        template("NSObject", None, &[]),
        template("NSArray", Some("NSObject"), &[]),
    ]);
    assert_eq!(
        String::from_utf8(env.objc.dump_classes()).unwrap(),
        "{\n    \"object\": \"classes\",\n    \"classes\": [\n    ]\n}\n"
    );
    env.objc.link_class("NSArray", false, &mut env.mem);
    env.objc.link_class("NSMissing", false, &mut env.mem);
    env.objc.link_class("FBSession", false, &mut env.mem);
    let wanted = "{\n    \"object\": \"classes\",\n    \"classes\": [\n\
        \x20       { \"name\": \"NSObject\", \"class_type\": \"normal\" },\n\
        \x20       { \"name\": \"NSArray\", \"super\": \"NSObject\", \"class_type\": \"normal\" },\n\
        \x20       { \"name\": \"NSMissing\", \"class_type\": \"unimplemented\" },\n\
        \x20       { \"name\": \"FBSession\", \"class_type\": \"fake\" }\n    ]\n}\n";
    assert_eq!(String::from_utf8(env.objc.dump_classes()).unwrap(), wanted);
}
