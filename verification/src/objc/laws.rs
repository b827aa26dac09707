//! What holds of classes and methods.
use crate::environment::layout;
use crate::environment::layout::Owner;
use crate::environment::EnvState;
use crate::libc::errno::ErrnoState;
use crate::mem;
use crate::mem::MemState;
use crate::objc::binary;
use crate::objc::classes;
use crate::objc::classes::{
    nil, Class, ClassView, MethodHandle, ObjCState, Runtime, IMP, SEL,
};
use crate::objc::methods;
use crate::objc::names;
use vstd::prelude::*;
use vstd::utf8::*;

verus! {

// Linking

/// Linking a class that is linked already changes nothing.
pub proof fn law_link_again(o: ObjCState, m: MemState, name: Seq<u8>)
    ensures
        ({
            let r = o.linked(m, name);
            r.objc.linked(r.mem, name) == r
        }),
{
    let s = Runtime { objc: o, mem: m };
    lemma_found_when_linked(s, name, o.templates.len());
    lemma_templates_stay(s, name, o.templates.len());
}

proof fn lemma_templates_stay(s: Runtime, name: Seq<u8>, n: nat)
    ensures
        s.with_class(name, n).objc.templates == s.objc.templates,
    decreases n,
{
    let superclass = match classes::template_of(s.objc.templates, name) {
        Some(t) => t.superclass,
        None => None,
    };
    if superclass is Some && n > 0 {
        lemma_templates_stay(s, superclass.unwrap(), (n - 1) as nat);
    }
}

proof fn lemma_found_when_linked(s: Runtime, name: Seq<u8>, n: nat)
    ensures
        classes::is_plausible_name(name) || name == classes::root_name() ==> names::find(
            s.with_class(name, n).objc.classes,
            name,
        ) is Some,
        s.with_class(name, n) == s || names::find(s.with_class(name, n).objc.classes, name) is Some,
{
    let r = s.with_class(name, n);
    if names::find(s.objc.classes, name) is None {
        if name == classes::root_name() {
            let e = s.objc.classes;
            names::lemma_find_put(e, name, s.mem.grow(4).heap, name);
            assert(names::find(r.objc.classes, name) is Some);
        } else if classes::is_plausible_name(name) {
            let superclass = match classes::template_of(s.objc.templates, name) {
                Some(t) => t.superclass,
                None => None,
            };
            let r1 = if superclass is Some && n > 0 {
                s.with_class(superclass.unwrap(), (n - 1) as nat)
            } else {
                s
            };
            let r2 = r1.with_root();
            names::lemma_find_put(r2.objc.classes, name, r2.mem.grow(4).heap, name);
            mem::lemma_poke_u32_heap(
                r2.mem.grow(4),
                r2.mem.heap,
                classes::lookup_or_nil(r2.objc, r2.mem, classes::root_name(), true),
            );
        }
    }
}

/// A class that was linked is known by its name, if that can be the name of a
/// class.
pub proof fn law_linked_is_known(o: ObjCState, m: MemState, name: Seq<u8>)
    requires
        classes::is_plausible_name(name) || name == classes::root_name(),
    ensures
        classes::lookup(o.linked(m, name).objc, o.linked(m, name).mem, name, false) is Some,
{
    lemma_found_when_linked(Runtime { objc: o, mem: m }, name, o.templates.len());
}

/// A class that was linked and its metaclass have its name, whether they were made
/// or were there already, and whether they are implemented or not.
pub proof fn law_linked_name(env: EnvState, name: Seq<u8>, is_metaclass: bool)
    requires
        env.sound(),
        classes::is_plausible_name(name) || name == classes::root_name(),
        env.objc.link_ready(env.mem, name),
    ensures
        ({
            let r = env.objc.linked(env.mem, name);
            let c = classes::lookup_or_nil(r.objc, r.mem, name, is_metaclass);
            &&& r.objc.class_name(c) == Some(name)
            &&& r.objc.class_name_or_unknown(c) == name
            &&& !is_metaclass ==> c != nil
        }),
{
    let r = env.objc.linked(env.mem, name);
    let e = env.with_runtime(r);
    layout::law_sound_linked(env, name);
    law_linked_is_known(env.objc, env.mem, name);
    names::lemma_find(r.objc.classes, name);
    let class = names::find(r.objc.classes, name).unwrap();
    let i = choose|i: int|
        0 <= i < r.objc.classes.len() && #[trigger] r.objc.classes[i] == (name, class);
    assert(e.objc.classes[i].1 == class);
    assert(layout::is_known(e.objc.classes, class));
    let o = Owner::Class { class };
    assert(e.block(o) == Some((class, 4nat)));
    assert(layout::in_use(e.mem, e.block(o).unwrap()) && e.intact(o));
}

/// What is no class has the name for that.
pub proof fn law_unknown_name(o: ObjCState, c: Class)
    requires
        !o.objects.contains_key(c) || o.objects[c] is Other,
    ensures
        o.class_name_or_unknown(c) == classes::name_of("<unknown>"@),
{
}

/// A class of an SDK that is replaced, which has no template and is not known yet,
/// is linked as a fake, and so is its metaclass.
pub proof fn law_fake_pair(env: EnvState, name: Seq<u8>)
    requires
        env.sound(),
        env.objc.can_link(env.mem),
        classes::is_plausible_name(name),
        classes::is_fake_name(name),
        names::find(env.objc.classes, name) is None,
        classes::template_of(env.objc.templates, name) is None,
    ensures
        ({
            let r = env.objc.linked(env.mem, name);
            let c = classes::lookup_or_nil(r.objc, r.mem, name, false);
            let m = classes::lookup_or_nil(r.objc, r.mem, name, true);
            &&& r.objc.is_fake(c) && !r.objc.is_unimplemented(c)
            &&& r.objc.is_fake(m) && !r.objc.is_unimplemented(m)
            &&& !r.objc.is_fake(nil)
        }),
{
    let s = Runtime { objc: env.objc, mem: env.mem };
    let root = classes::root_name();
    lemma_root_is_no_fake();
    layout::lemma_sound_root(env);
    let r2 = s.with_root();
    let isa = classes::lookup_or_nil(r2.objc, r2.mem, root, true);
    layout::lemma_new_class(
        r2,
        name,
        isa,
        classes::linked_object(r2.objc, name, false, nil),
        classes::linked_object(r2.objc, name, true, nil),
    );
}

/// The root class is not replaced.
proof fn lemma_root_is_no_fake()
    ensures
        !classes::is_fake_name(classes::root_name()),
{
    reveal_strlit("NSObject");
    reveal_strlit("AdMob");
    reveal_strlit("AltAds");
    reveal_strlit("Mobclix");
    reveal_strlit("FB");
    reveal_strlit("Flurry");
    reveal_strlit("OpenFeint");
    reveal_strlit("Tapjoy");
    reveal_strlit("UA");
    reveal_strlit("GAD");
    reveal_strlit("iSimulate");
    reveal_strlit("SBScene");
    reveal_strlit("SBSystem");
    lemma_no_prefix("AdMob"@);
    lemma_no_prefix("AltAds"@);
    lemma_no_prefix("Mobclix"@);
    lemma_no_prefix("FB"@);
    lemma_no_prefix("Flurry"@);
    lemma_no_prefix("OpenFeint"@);
    lemma_no_prefix("Tapjoy"@);
    lemma_no_prefix("UA"@);
    lemma_no_prefix("GAD"@);
    lemma_no_prefix("iSimulate"@);
    lemma_no_prefix("SBScene"@);
    lemma_no_prefix("SBSystem"@);
}

proof fn lemma_no_prefix(prefix: Seq<char>)
    requires
        prefix.len() > 0,
        is_ascii_chars(prefix),
        prefix[0] != 'N',
    ensures
        !classes::starts_with(classes::root_name(), prefix),
{
    reveal_strlit("NSObject");
    is_ascii_chars_encode_utf8("NSObject"@);
    is_ascii_chars_encode_utf8(prefix);
    let p = classes::name_of(prefix);
    assert(prefix[0] as u8 == p[0]);
    assert("NSObject"@[0] as u8 == classes::root_name()[0]);
    if p.is_prefix_of(classes::root_name()) {
        assert(classes::root_name().subrange(0, p.len() as int)[0] == p[0]);
    }
}

// Inheritance

/// A class is a subclass of itself.
pub proof fn law_subclass_reflexive(o: ObjCState, c: Class)
    ensures
        o.is_subclass(c, c),
{
}

/// A subclass of a subclass is a subclass.
pub proof fn law_subclass_transitive(o: ObjCState, a: Class, b: Class, c: Class)
    requires
        o.is_subclass(a, b),
        o.is_subclass(b, c),
        c != nil,
    ensures
        o.is_subclass(a, c),
{
    if a != b && b != c {
        let j = choose|j: nat| #[trigger] o.ancestor(a, j) == b;
        let k = choose|k: nat| #[trigger] o.ancestor(b, k) == c;
        classes::lemma_ancestor_sum(o, a, j, k);
        assert(o.ancestor(a, j + k) == c);
    }
}

/// Of two different classes at most one is a subclass of the other, if going up
/// from one of them comes to an end.
pub proof fn law_subclass_antisymmetric(o: ObjCState, a: Class, b: Class)
    requires
        a != b,
        o.search_ends(a, nil),
    ensures
        !(o.is_subclass(a, b) && o.is_subclass(b, a)),
{
    if o.is_subclass(a, b) && o.is_subclass(b, a) {
        let j = choose|j: nat| #[trigger] o.ancestor(a, j) == b;
        let k = choose|k: nat| #[trigger] o.ancestor(b, k) == a;
        classes::lemma_ancestor_sum(o, a, j, k);
        let n = choose|n: nat| n > 0 && #[trigger] o.ancestor(a, n) == nil;
        lemma_round(o, a, j + k, n);
    }
}

/// Going up from a class that is above itself never comes to nil.
proof fn lemma_round(o: ObjCState, c: Class, round: nat, n: nat)
    requires
        c != nil,
        round > 0,
        o.ancestor(c, round) == c,
    ensures
        o.ancestor(c, n) != nil,
    decreases n,
{
    if n >= round {
        classes::lemma_ancestor_sum(o, c, round, (n - round) as nat);
        lemma_round(o, c, round, (n - round) as nat);
    } else if o.ancestor(c, n) == nil {
        classes::lemma_ancestor_sum(o, c, n, (round - n) as nat);
        lemma_above_nil(o, (round - n) as nat);
    }
}

/// There is nothing above nil.
proof fn lemma_above_nil(o: ObjCState, n: nat)
    ensures
        o.ancestor(nil, n) == nil,
    decreases n,
{
    if n > 0 {
        lemma_above_nil(o, (n - 1) as nat);
    }
}

/// A class has the methods of its superclass, but its own come first.
pub proof fn law_inherits(o: ObjCState, c: Class, sel: SEL)
    requires
        c != nil,
    ensures
        o.imp_at(c, sel) is Some ==> o.defining(c, sel) == c,
        o.imp_at(c, sel) is None ==> o.defining(c, sel) == o.defining(o.superclass(c), sel),
{
    let d = o.superclass(c);
    assert(o.ancestor(c, 0) == c);
    assert(o.ancestor(c, 1) == d) by {
        reveal_with_fuel(ObjCState::ancestor, 2);
    }
    if o.imp_at(c, sel) is Some {
        assert(o.is_nearest(c, sel, 0));
        methods::lemma_nearest(o, c, sel, 0);
    } else {
        if exists|k: nat| o.is_nearest(d, sel, k) {
            let k = choose|k: nat| o.is_nearest(d, sel, k);
            classes::lemma_ancestor_sum(o, c, 1, k);
            assert forall|j: nat| j < k + 1 implies o.imp_at(
                #[trigger] o.ancestor(c, j),
                sel,
            ) is None by {
                if j > 0 {
                    classes::lemma_ancestor_sum(o, c, 1, (j - 1) as nat);
                    assert(o.imp_at(o.ancestor(d, (j - 1) as nat), sel) is None);
                }
            }
            assert(o.is_nearest(c, sel, k + 1));
            methods::lemma_nearest(o, c, sel, k + 1);
            methods::lemma_nearest(o, d, sel, k);
        } else {
            assert forall|k: nat| !o.is_nearest(c, sel, k) by {
                if o.is_nearest(c, sel, k) && k > 0 {
                    let i = (k - 1) as nat;
                    classes::lemma_ancestor_sum(o, c, 1, i);
                    assert forall|j: nat| j < i implies o.imp_at(
                        #[trigger] o.ancestor(d, j),
                        sel,
                    ) is None by {
                        classes::lemma_ancestor_sum(o, c, 1, j);
                        assert(o.imp_at(o.ancestor(c, j + 1), sel) is None);
                    }
                    assert(o.is_nearest(d, sel, i));
                }
            }
        }
    }
}

/// A superclass that was set is the superclass, and other classes keep theirs.
pub proof fn law_superclass_set(o: ObjCState, c: Class, superclass: Class, other: Class)
    requires
        o.class(c) is Some,
    ensures
        o.with_superclass(c, superclass).superclass(c) == superclass,
        other != c ==> o.with_superclass(c, superclass).superclass(other) == o.superclass(other),
{
}

// Methods

/// An implementation that was set is the implementation, and nothing else
/// changes.
pub proof fn law_imp_set(o: ObjCState, c: Class, sel: SEL, imp: IMP, d: Class, other: SEL)
    requires
        o.class(c) is Some,
    ensures
        o.with_imp(c, sel, imp).imp_at(c, sel) == Some(imp),
        d != c || other != sel ==> o.with_imp(c, sel, imp).imp_at(d, other) == o.imp_at(d, other),
        o.with_imp(c, sel, imp).types_at(d, other) == o.types_at(d, other),
{
}

/// A method can be added to a class once: afterwards the class has it.
pub proof fn law_method_added_once(env: EnvState, c: Class, sel: SEL, imp: IMP, types: u32)
    requires
        env.objc.class(c) is Some,
    ensures
        env.with_method(c, sel, Some(imp), types).objc.imp_at(c, sel) == Some(imp),
{
}

/// The guest gets back the implementation that it was given an address for.
pub proof fn law_imp_address(env: EnvState, c: Class, sel: SEL, imp: IMP)
    requires
        env.imp_ptr(c, sel, imp) != 0,
        imp matches IMP::Guest { addr } ==> !env.objc.imp_tokens.contains_key(addr),
    ensures
        env.with_imp_ptr(c, sel, imp).objc.imp_of(env.imp_ptr(c, sel, imp)) == Some(imp),
        env.with_imp_ptr(c, sel, imp).imp_ptr(c, sel, imp) == env.imp_ptr(c, sel, imp),
{
}

/// Exchanging the implementations of two methods gives each that of the other,
/// along with the types.
pub proof fn law_exchanged(env: EnvState, c1: Class, s1: SEL, c2: Class, s2: SEL)
    requires
        env.objc.imp_at(c1, s1) is Some,
        env.objc.imp_at(c2, s2) is Some,
    ensures
        ({
            let o = env.objc;
            let e = env.exchanged(c1, s1, c2, s2).objc;
            &&& e.imp_at(c1, s1) == o.imp_at(c2, s2)
            &&& e.imp_at(c2, s2) == o.imp_at(c1, s1)
            &&& e.types_at(c1, s1) == o.types_at(c2, s2)
            &&& e.types_at(c2, s2) == o.types_at(c1, s1)
        }),
{
}

/// Exchanging two methods twice changes nothing.
pub proof fn law_exchanged_twice(env: EnvState, c1: Class, s1: SEL, c2: Class, s2: SEL)
    requires
        env.objc.imp_at(c1, s1) is Some,
        env.objc.imp_at(c2, s2) is Some,
    ensures
        env.exchanged(c1, s1, c2, s2).exchanged(c1, s1, c2, s2) == env,
{
    let once = env.exchanged(c1, s1, c2, s2);
    let twice = once.exchanged(c1, s1, c2, s2);
    law_exchanged(env, c1, s1, c2, s2);
    let k1 = env.objc.class(c1)->0;
    let k2 = env.objc.class(c2)->0;
    let t1 = twice.objc.class(c1)->0;
    let t2 = twice.objc.class(c2)->0;
    assert(twice.objc.class(c1) is Some);
    assert(twice.objc.class(c2) is Some);
    assert(t1.methods =~= k1.methods);
    assert(t2.methods =~= k2.methods);
    assert(t1.signatures =~= k1.signatures);
    assert(t2.signatures =~= k2.signatures);
    assert(twice.objc.objects =~= env.objc.objects);
}

proof fn lemma_same_ancestor(o: ObjCState, p: ObjCState, c: Class, k: nat)
    requires
        p.objects == o.objects,
    ensures
        p.ancestor(c, k) == o.ancestor(c, k),
    decreases k,
{
    if k > 0 {
        lemma_same_ancestor(o, p, c, (k - 1) as nat);
    }
}

/// Which class defines a method depends on the classes alone.
proof fn lemma_same_defining(o: ObjCState, p: ObjCState, c: Class, sel: SEL)
    requires
        p.objects == o.objects,
    ensures
        p.defining(c, sel) == o.defining(c, sel),
        p.imp_at(c, sel) == o.imp_at(c, sel),
        p.types_at(c, sel) == o.types_at(c, sel),
{
    assert forall|k: nat| #[trigger] p.ancestor(c, k) == o.ancestor(c, k) by {
        lemma_same_ancestor(o, p, c, k);
    }
    assert forall|d: Class| #[trigger] p.imp_at(d, sel) == o.imp_at(d, sel) by {}
    assert forall|k: nat| #[trigger] p.is_nearest(c, sel, k) == o.is_nearest(c, sel, k) by {
        assert forall|j: nat| j < k && o.is_nearest(c, sel, k) implies p.imp_at(
            #[trigger] p.ancestor(c, j),
            sel,
        ) is None by {
            assert(o.imp_at(o.ancestor(c, j), sel) is None);
        }
        assert forall|j: nat| j < k && p.is_nearest(c, sel, k) implies o.imp_at(
            #[trigger] o.ancestor(c, j),
            sel,
        ) is None by {
            assert(p.imp_at(p.ancestor(c, j), sel) is None);
        }
    }
    if exists|k: nat| o.is_nearest(c, sel, k) {
        let k = choose|k: nat| o.is_nearest(c, sel, k);
        assert(p.is_nearest(c, sel, k));
        methods::lemma_nearest(o, c, sel, k);
        methods::lemma_nearest(p, c, sel, k);
    }
}

/// There is one `Method` for a class and a selector, always the same one.
pub proof fn law_handle_stable(env: EnvState, c: Class, sel: SEL, d: Class, other: SEL)
    ensures
        env.with_handle(c, sel).handle_ptr(c, sel) == env.handle_ptr(c, sel),
        env.with_handle(c, sel).with_handle(c, sel) == env.with_handle(c, sel),
        env.objc.handle(d, other) is Some ==> env.with_handle(c, sel).handle_ptr(d, other)
            == env.handle_ptr(d, other),
{
    if env.objc.handle(c, sel) is None {
        let h = MethodHandle { class: c, sel, ptr: env.mem.heap };
        assert(env.objc.method_handles.push(h).drop_last() =~= env.objc.method_handles);
    }
}

/// Whether a `Method` can be looked up.
pub open spec fn method_room(env: EnvState, cls: Class, name: SEL) -> bool {
    env.responds(cls, name) ==> env.objc.handle(env.objc.defining(cls, name), name) is Some
        || env.mem.room() >= 16
}

/// There is a `Method` exactly where instances respond. It is the same every time,
/// and it stands for the class that defines it and for the selector, so its name
/// is the selector, inherited or not.
pub proof fn law_instance_method(env: EnvState, cls: Class, name: SEL)
    requires
        env.sound(),
        method_room(env, cls, name),
    ensures
        ({
            let m = env.instance_method(cls, name);
            let e = env.with_instance_method(cls, name);
            &&& m == 0 <==> !env.responds(cls, name)
            &&& e.sound()
            &&& e.instance_method(cls, name) == m
            &&& e.with_instance_method(cls, name) == e
            &&& m != 0 ==> {
                &&& e.decoded(m) == Some((env.objc.defining(cls, name), name))
                &&& e.method_name(m) == name
            }
        }),
{
    let d = env.objc.defining(cls, name);
    let e = env.with_instance_method(cls, name);
    if env.responds(cls, name) {
        layout::law_sound_method(env, d, name);
        law_handle_stable(env, d, name, d, name);
        lemma_same_defining(env.objc, e.objc, cls, name);
        lemma_handle_known(env, d, name);
        layout::law_method_decodes(e, d, name);
    }
}

proof fn lemma_handle_known(env: EnvState, c: Class, sel: SEL)
    ensures
        env.with_handle(c, sel).objc.handle(c, sel) == Some(env.handle_ptr(c, sel)),
{
}

/// A class and one that inherits the method from it have the same `Method`; other
/// defining classes or selectors have others. Looking one up leaves the others as
/// they are.
pub proof fn law_methods_of_classes(
    env: EnvState,
    cls: Class,
    name: SEL,
    other: Class,
    sel: SEL,
)
    requires
        env.sound(),
        method_room(env, cls, name),
        env.responds(cls, name),
    ensures
        ({
            let m = env.instance_method(cls, name);
            let e = env.with_instance_method(cls, name);
            let same = sel == name && env.objc.defining(other, sel) == env.objc.defining(cls, name);
            &&& env.responds(other, sel) && same ==> e.instance_method(other, sel) == m
            &&& method_room(e, other, sel) && !same ==> e.instance_method(other, sel) != m
            &&& env.objc.handle(env.objc.defining(other, sel), sel) is Some ==> e.instance_method(
                other,
                sel,
            ) == env.instance_method(other, sel)
        }),
{
    let d = env.objc.defining(cls, name);
    let f = env.objc.defining(other, sel);
    let e = env.with_instance_method(cls, name);
    law_instance_method(env, cls, name);
    law_handle_stable(env, d, name, f, sel);
    lemma_handle_known(env, d, name);
    lemma_same_defining(env.objc, e.objc, other, sel);
    if e.responds(other, sel) && !(sel == name && f == d) && method_room(e, other, sel) {
        layout::law_methods_differ(e, d, name, f, sel);
    }
}

/// The type encoding that a method was added with is that of its `Method`.
pub proof fn law_types_added(env: EnvState, cls: Class, sel: SEL, imp: u32, types: u32)
    requires
        env.sound(),
        env.objc.class(cls) is Some,
        cls != nil,
        sel != 0,
        types != 0,
        env.objc.handle(cls, sel) is Some || env.mem.room() >= 16,
    ensures
        ({
            let e = env.with_method(cls, sel, Some(IMP::Guest { addr: imp }), types);
            let m = e.instance_method(cls, sel);
            &&& m != 0
            &&& e.with_instance_method(cls, sel).method_types(m) == types
        }),
{
    let e = env.with_method(cls, sel, Some(IMP::Guest { addr: imp }), types);
    layout::law_sound_methods(env, cls, sel, Some(IMP::Guest { addr: imp }), types, nil, 0);
    law_inherits(e.objc, cls, sel);
    law_instance_method(e, cls, sel);
    lemma_same_defining(e.objc, e.with_instance_method(cls, sel).objc, cls, sel);
}

/// What is no `Method` has no name, no type encoding and no implementation, and
/// setting one does nothing.
pub proof fn law_no_method(env: EnvState, m: u32, imp: u32)
    requires
        !env.objc.is_handle(m),
    ensures
        env.method_name(m) == 0,
        env.method_types(m) == 0,
        env.method_imp(m) == 0,
        env.with_method_set(m, imp) == env,
{
}

/// The implementation that the runtime would call is that of the `Method`, in
/// whichever order the two are asked for; there is none where instances do not
/// respond.
pub proof fn law_class_imp(env: EnvState, cls: Class, name: SEL)
    requires
        env.sound(),
        method_room(env, cls, name),
        env.class_imp_ready(cls, name),
        env.responds(cls, name) ==> method_room(env.with_class_imp(cls, name), cls, name),
    ensures
        ({
            let m = env.instance_method(cls, name);
            let e = env.with_instance_method(cls, name);
            let i = env.with_class_imp(cls, name);
            &&& e.class_imp(cls, name) == e.method_imp(m)
            &&& e.with_class_imp(cls, name) == e.with_method_imp(m)
            &&& env.class_imp(cls, name) == i.with_instance_method(cls, name).method_imp(
                i.instance_method(cls, name),
            )
            &&& !env.responds(cls, name) ==> env.class_imp(cls, name) == 0
        }),
{
    let d = env.objc.defining(cls, name);
    let e = env.with_instance_method(cls, name);
    let i = env.with_class_imp(cls, name);
    law_instance_method(env, cls, name);
    lemma_same_defining(env.objc, e.objc, cls, name);
    lemma_same_defining(env.objc, e.objc, d, name);
    if env.responds(cls, name) {
        layout::law_sound_lookups(env, cls, name, 0, 0);
        lemma_same_defining(env.objc, i.objc, cls, name);
        lemma_same_defining(env.objc, i.objc, d, name);
        law_instance_method(i, cls, name);
        let j = i.with_instance_method(cls, name);
        lemma_same_defining(i.objc, j.objc, d, name);
    } else {
        assert(!env.objc.is_handle(0));
    }
}

/// An implementation that is set is the implementation, and the one before it is
/// returned. Setting what was returned reinstalls that, guest or host; NULL leaves
/// it in place. The address of a guest implementation must not be one that stands,
/// or comes to stand, for a host implementation.
pub proof fn law_imp_reinstalled(env: EnvState, m: u32, g: u32)
    requires
        env.sound(),
        env.method_ready(m),
        env.decoded(m) matches Some((cls, sel)) && env.objc.imp_at(cls, sel) is Some,
        g != 0,
        !env.with_method_set(m, g).objc.imp_tokens.contains_key(g),
        ({
            let (cls, sel) = env.decoded(m).unwrap();
            env.objc.imp_at(cls, sel) matches Some(IMP::Guest { addr }) ==> addr != 0
                && !env.objc.imp_tokens.contains_key(addr)
        }),
    ensures
        ({
            let (cls, sel) = env.decoded(m).unwrap();
            let before = env.objc.imp_at(cls, sel);
            let r = env.method_imp(m);
            let e = env.with_method_set(m, g);
            let f = e.with_method_set(m, r);
            &&& e.decoded(m) == Some((cls, sel))
            &&& e.objc.imp_at(cls, sel) == Some(IMP::Guest { addr: g })
            &&& e.method_imp(m) == g
            &&& f.decoded(m) == Some((cls, sel))
            &&& f.objc.imp_at(cls, sel) == before
            &&& f.method_imp(m) == r
            &&& env.with_method_set(m, 0).objc.imp_at(cls, sel) == before
        }),
{
    let (cls, sel) = env.decoded(m).unwrap();
    let before = env.objc.imp_at(cls, sel).unwrap();
    let key = methods::pair(cls, sel);
    let r = env.method_imp(m);
    let e = env.with_method_set(m, g);
    let f = e.with_method_set(m, r);
    assert(!env.objc.imp_tokens.contains_key(g));
    assert(env.objc.imp_of(g) == Some(IMP::Guest { addr: g }));
    lemma_decoded_stays(env, e, m);
    assert(e.objc.imp_at(cls, sel) == Some(IMP::Guest { addr: g }));
    assert(r != 0) by {
        if before is Host {
            let o = Owner::Implementation { key };
            if env.objc.host_imp_tokens.contains_key(key) {
                assert(env.block(o) is Some);
                assert(layout::in_use(env.mem, env.block(o).unwrap()));
            }
        }
    }
    assert(e.objc.imp_of(r) == Some(before));
    lemma_decoded_stays(e, f, m);
    assert(f.objc.imp_at(cls, sel) == Some(before));
    assert(e.objc.imp_of(0) is None);
}

/// A `Method` stands for the same as long as nothing is stored into it.
proof fn lemma_decoded_stays(env: EnvState, e: EnvState, m: u32)
    requires
        e.objc.method_handles == env.objc.method_handles,
        forall|b: u32| #[trigger] e.mem.peek(b) == env.mem.peek(b),
    ensures
        e.decoded(m) == env.decoded(m),
{
    reveal(MemState::peek_u16);
    reveal(MemState::peek_u32);
    assert(e.objc.is_handle(m) == env.objc.is_handle(m));
    assert(e.mem.peek_u32(m) == env.mem.peek_u32(m));
    assert(e.mem.peek_u32(mem::wrap(m + 4)) == env.mem.peek_u32(mem::wrap(m + 4)));
}

/// The environment with nothing in guest memory but its `Method`s.
spec fn only_methods(env: EnvState) -> EnvState {
    EnvState {
        errno: ErrnoState { errnos: Map::empty(), strings: Map::empty() },
        objc: ObjCState {
            classes: seq![],
            host_imp_tokens: Map::empty(),
            class_names: Map::empty(),
            ..env.objc
        },
        ..env
    }
}

proof fn lemma_only_methods_sound(env: EnvState)
    requires
        env.sound(),
    ensures
        only_methods(env).sound(),
{
    let e = only_methods(env);
    assert forall|o: Owner| (#[trigger] e.block(o)) is Some implies e.block(o) == env.block(o)
        && e.intact(o) == env.intact(o) by {}
    assert forall|c: Class| #[trigger] e.objc.class_name(c) == env.objc.class_name(c) by {}
}

proof fn lemma_only_methods_with(env: EnvState, cls: Class, sels: Seq<SEL>, buf: u32, n: nat)
    ensures
        only_methods(env).with_methods(cls, sels, buf, n) == only_methods(
            env.with_methods(cls, sels, buf, n),
        ),
    decreases n,
{
    if n > 0 {
        lemma_only_methods_with(env, cls, sels, buf, (n - 1) as nat);
    }
}

/// The list of the methods of a class has each of its own selectors once, by the
/// names of its entries, which are what the class has as `Method`s, but for the NULL
/// selector, which none can be asked for by. It ends in NULL. The number of entries
/// must be stored outside the `Method`s, the null page and what is left of the heap;
/// if it is stored outside everything that the guest was given the address of, that
/// stays in place.
pub proof fn law_method_list(env: EnvState, cls: Class, sels: Seq<SEL>, out_count: u32)
    requires
        env.sound(),
        cls != nil,
        sels.no_duplicates(),
        sels.to_set() == env.objc.own_methods(cls),
        env.mem.room() >= 20 * sels.len() + 32,
        out_count == 0 || layout::in_use(env.mem, (out_count, 4nat)),
        out_count == 0 || forall|i: int|
            0 <= i < env.objc.method_handles.len() ==> layout::apart(
                (out_count, 4nat),
                ((#[trigger] env.objc.method_handles[i]).ptr, 8nat),
            ),
    ensures
        ({
            let list = env.mem.heap;
            let e = env.with_count(out_count, 0).with_method_list(cls, sels, out_count);
            let entry = |i: int| e.mem.peek_u32((list + 4 * i) as u32);
            &&& out_count == 0 || env.spares(out_count, 4) ==> e.sound()
            &&& sels.len() == env.objc.own_methods(cls).len()
            &&& forall|i: int|
                0 <= i < sels.len() ==> e.method_name(entry(i)) == #[trigger] sels[i] && (sels[i]
                    != 0 ==> e.instance_method(cls, sels[i]) == entry(i))
            &&& entry(sels.len() as int) == 0
            &&& out_count != 0 ==> e.mem.peek_u32(out_count) == sels.len()
        }),
{
    let s = env.with_count(out_count, 0);
    let e = s.with_method_list(cls, sels, out_count);
    if out_count == 0 || env.spares(out_count, 4) {
        layout::law_sound_count(env, out_count, 0);
        assert(out_count != 0 ==> s.spares(out_count, 4));
        layout::law_sound_method_list(s, cls, sels, out_count);
    }
    // Nothing but the `Method`s matters for the list.
    let env2 = only_methods(env);
    let s2 = env2.with_count(out_count, 0);
    let e2 = s2.with_method_list(cls, sels, out_count);
    lemma_only_methods_sound(env);
    assert(out_count != 0 ==> env2.spares(out_count, 4));
    layout::law_sound_count(env2, out_count, 0);
    assert(out_count != 0 ==> s2.spares(out_count, 4));
    layout::law_sound_method_list(s2, cls, sels, out_count);
    let n = sels.len();
    let start = EnvState { mem: s.mem.grow((4 * n + 4) as u32), ..s };
    lemma_only_methods_with(start, cls, sels, s.mem.heap, n);
    assert(only_methods(start) == (EnvState { mem: s2.mem.grow((4 * n + 4) as u32), ..s2 }));
    assert(e2 == only_methods(e));
    sels.unique_seq_to_set();
    if out_count != 0 {
        mem::lemma_poke_u32_heap(env.mem, out_count, 0);
    }
    assert forall|i: int| 0 <= i < sels.len() implies e.method_name(
        e.mem.peek_u32((env.mem.heap + 4 * i) as u32),
    ) == #[trigger] sels[i] && (sels[i] != 0 ==> e.instance_method(cls, sels[i])
        == e.mem.peek_u32((env.mem.heap + 4 * i) as u32)) by {
        let sel = sels[i];
        assert(sels.contains(sel));
        assert(sels.to_set().contains(sel));
        assert(env.objc.own_methods(cls).contains(sel));
        assert(e2.objc.objects == env.objc.objects);
        assert(e2.objc.imp_at(cls, sel) is Some);
        layout::law_method_decodes(e2, cls, sel);
        assert(e.decoded(e2.handle_ptr(cls, sel)) == e2.decoded(e2.handle_ptr(cls, sel)));
        law_inherits(e.objc, cls, sel);
    }
}

// Names

/// The name of a class is at the same address every time, and the guest finds it
/// there, the first time and every time.
pub proof fn law_class_name_address(env: EnvState, c: Class)
    requires
        env.sound(),
        c != nil,
        env.objc.class_name(c) is Some,
        env.class_name_ready(c),
    ensures
        env.class_name_ptr(c) != 0,
        env.with_class_name(c).sound(),
        env.with_class_name(c).class_name_ptr(c) == env.class_name_ptr(c),
        env.with_class_name(c).with_class_name(c) == env.with_class_name(c),
        env.with_class_name(c).mem.cstr(env.class_name_ptr(c)) == env.objc.class_name(c).unwrap(),
{
    let name = env.objc.class_name(c).unwrap();
    let e = env.with_class_name(c);
    assert(env.objc.objects.contains_key(c));
    layout::law_sound_class_name(env, c);
    assert(e.objc.class_name(c) == Some(name));
    let o = Owner::ClassName { class: c };
    assert(e.block(o) == Some((env.class_name_ptr(c), name.len() + 1)));
    assert(layout::in_use(e.mem, e.block(o).unwrap()) && e.intact(o));
    layout::lemma_held_text(e.mem, env.class_name_ptr(c), name);
}

/// A name has one selector, always the same one, and the guest finds the name
/// there, if it has no NUL in it.
pub proof fn law_selector_address(env: EnvState, name: Seq<u8>, other: Seq<u8>)
    requires
        env.sound(),
        env.mem.room() >= name.len() + 32,
        forall|i: int| 0 <= i < name.len() ==> name[i] != 0,
    ensures
        env.with_selector(name).selector(name) == env.selector(name),
        env.with_selector(name).with_selector(name) == env.with_selector(name),
        names::find(env.objc.selectors, name) is None ==> env.with_selector(name).mem.cstr(
            env.selector(name),
        ) == name,
        names::find(env.objc.selectors, other) is Some ==> env.with_selector(name).selector(other)
            == env.selector(other),
{
    names::lemma_find_put(env.objc.selectors, name, env.mem.heap, name);
    names::lemma_find_put(env.objc.selectors, name, env.mem.heap, other);
    mem::laws::law_string_reads_back(
        env.mem.grow((name.len() + 1) as u32),
        env.mem.heap,
        name,
    );
}

// Instance variables

/// A class that was fitted behind its superclass starts where that ends or
/// later, its instance variables have moved by a multiple of their largest
/// alignment, and fitting it again changes nothing. It must not be moved past
/// the end of the address space.
pub proof fn law_fitted(class: ClassView, size: u32)
    requires
        class.instance_start < size ==> class.instance_start + binary::overlap(class, size)
            <= u32::MAX,
    ensures
        binary::fitted(class, size).instance_start >= size,
        binary::fitted(binary::fitted(class, size), size) == binary::fitted(class, size),
        class.instance_start >= size ==> binary::fitted(class, size) == class,
        class.instance_start < size && class.ivars.len() > 0 ==> binary::overlap(class, size) % (
        binary::max_alignment(class.ivars) as int) == 0,
{
    if class.instance_start < size {
        let diff = size - class.instance_start;
        if class.ivars.len() > 0 {
            let a = binary::max_alignment(class.ivars) as int;
            lemma_max_alignment(class.ivars);
            assert((diff + a - 1) / a * a >= diff && ((diff + a - 1) / a * a) % a == 0)
                by (nonlinear_arith)
                requires
                    a >= 1,
                    diff >= 0,
            ;
        }
        assert(mem::wrap(class.instance_start + binary::overlap(class, size))
            == class.instance_start + binary::overlap(class, size));
    }
}

proof fn lemma_max_alignment(ivars: names::Entries<classes::Ivar>)
    ensures
        binary::max_alignment(ivars) >= 1,
    decreases ivars.len(),
{
    if ivars.len() > 0 {
        lemma_max_alignment(ivars.drop_last());
    }
}

/// Whether every class stays within the address space when it is fitted behind
/// its superclass.
pub open spec fn layouts_fit(o: ObjCState) -> bool {
    forall|c: Class, n: nat|
        n > 0 && #[trigger] o.rooted(c, n) ==> {
            let class = o.class(c).unwrap();
            let size = o.layout(class.superclass, (n - 1) as nat).instance_size;
            class.instance_start < size ==> class.instance_start + binary::overlap(class, size)
                <= u32::MAX
        }
}

proof fn lemma_overlap(class: ClassView, size: u32)
    requires
        class.instance_start < size,
        class.instance_start + binary::overlap(class, size) <= u32::MAX,
    ensures
        binary::fitted(class, size).instance_start >= size,
{
    let diff = size - class.instance_start;
    if class.ivars.len() > 0 {
        let a = binary::max_alignment(class.ivars) as int;
        lemma_max_alignment(class.ivars);
        assert((diff + a - 1) / a * a >= diff) by (nonlinear_arith)
            requires
                a >= 1,
                diff >= 0,
        ;
    }
    assert(mem::wrap(class.instance_start + binary::overlap(class, size)) == class.instance_start
        + binary::overlap(class, size));
}

/// After reconciliation no superclass has grown into a class whose superclasses
/// are all known.
pub proof fn law_reconciled(o: ObjCState, c: Class, n: nat)
    requires
        layouts_fit(o),
        o.rooted(c, n),
    ensures
        binary::overgrown(o.reconciled(), c) == (false, 0u32),
{
    let r = o.reconciled();
    let k = choose|k: nat| o.rooted(c, k);
    binary::lemma_rooted_once(o, c, n, k);
    assert(o.objects.contains_key(c));
    assert(r.class(c) == Some(o.layout(c, n)));
    if n > 0 {
        let above = o.superclass(c);
        assert(o.rooted(above, (n - 1) as nat));
        let j = choose|j: nat| o.rooted(above, j);
        binary::lemma_rooted_once(o, above, (n - 1) as nat, j);
        assert(o.objects.contains_key(above));
        assert(r.class(above) == Some(o.layout(above, (n - 1) as nat)));
        let class = o.class(c).unwrap();
        let size = o.layout(above, (n - 1) as nat).instance_size;
        if class.instance_start < size {
            lemma_overlap(class, size);
        }
    }
}

/// Whether a class stays within the address space when it is fitted behind its
/// superclass.
pub open spec fn layout_fits(o: ObjCState, c: Class) -> bool {
    forall|n: nat|
        n > 0 && #[trigger] o.rooted(c, n) ==> {
            let class = o.class(c).unwrap();
            let size = o.layout(class.superclass, (n - 1) as nat).instance_size;
            let diff = binary::overlap(class, size);
            class.instance_start < size ==> class.instance_start + diff <= u32::MAX
                && class.instance_size + diff <= u32::MAX
        }
}

/// A class has as many bytes of its own after reconciliation as before it.
pub proof fn law_reconciled_size(o: ObjCState, c: Class)
    requires
        o.class(c) is Some,
        layout_fits(o, c),
    ensures
        ({
            let class = o.class(c).unwrap();
            o.reconciled().class(c) matches Some(r) && r.instance_size - r.instance_start
                == class.instance_size - class.instance_start
        }),
{
    let r = o.reconciled();
    let class = o.class(c).unwrap();
    assert(o.objects.contains_key(c));
    if exists|n: nat| o.rooted(c, n) {
        let n = choose|n: nat| o.rooted(c, n);
        assert(r.class(c) == Some(o.layout(c, n)));
        if n > 0 {
            let size = o.layout(class.superclass, (n - 1) as nat).instance_size;
            if class.instance_start < size {
                let diff = binary::overlap(class, size);
                lemma_overlap(class, size);
                assert(mem::wrap(class.instance_size + diff) == class.instance_size + diff);
            }
        }
    } else {
        assert(r.class(c) == o.class(c));
    }
}

} // verus!
