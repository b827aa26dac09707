//! What linking a class is for, and how classes are found.
use crate::environment::layout;
use crate::environment::layout::Owner;
use crate::environment::EnvState;
use crate::mem;
use crate::mem::MemState;
use crate::objc::binary;
use crate::objc::classes;
use crate::objc::classes::{
    nil, Class, ClassView, Ivar, ObjCState, ObjectView, Runtime, TemplateView, IMP, SEL,
};
use crate::objc::laws;
use crate::objc::names;
use crate::objc::names::Entries;
use crate::objc::runtime;
use crate::objc::search;
use vstd::prelude::*;

verus! {

// Method tables

/// Whether no later method has the selector of method `i`.
pub open spec fn is_last(selectors: Entries<SEL>, methods: Seq<(Seq<u8>, u32)>, i: int) -> bool {
    forall|j: int|
        i < j < methods.len() ==> names::find(selectors, (#[trigger] methods[j]).0) != names::find(
            selectors,
            methods[i].0,
        )
}

/// Whether `sel` is the selector of one of these methods.
pub open spec fn is_listed(
    selectors: Entries<SEL>,
    methods: Seq<(Seq<u8>, u32)>,
    sel: SEL,
) -> bool {
    exists|i: int|
        0 <= i < methods.len() && names::find(selectors, (#[trigger] methods[i]).0) == Some(sel)
}

/// Whether a method table has these host methods, each under the selector of its name,
/// and no others.
pub open spec fn has_methods(
    selectors: Entries<SEL>,
    methods: Seq<(Seq<u8>, u32)>,
    table: Map<SEL, IMP>,
) -> bool {
    &&& forall|i: int|
        0 <= i < methods.len() && #[trigger] is_last(selectors, methods, i) ==> ({
            let sel = names::find(selectors, methods[i].0);
            sel is Some && table.contains_key(sel.unwrap()) && table[sel.unwrap()] == (IMP::Host {
                index: methods[i].1,
            })
        })
    &&& forall|sel: SEL| #[trigger]
        table.contains_key(sel) ==> is_listed(selectors, methods, sel)
}

proof fn lemma_table(selectors: Entries<SEL>, methods: Seq<(Seq<u8>, u32)>)
    requires
        classes::registered(selectors, methods),
    ensures
        has_methods(selectors, methods, classes::method_table(selectors, methods)),
    decreases methods.len(),
{
    let table = classes::method_table(selectors, methods);
    if methods.len() > 0 {
        let rest = methods.drop_last();
        assert forall|i: int| 0 <= i < rest.len() implies names::find(
            selectors,
            (#[trigger] rest[i]).0,
        ) is Some by {
            assert(rest[i] == methods[i]);
        }
        lemma_table(selectors, rest);
        let before = classes::method_table(selectors, rest);
        let l = methods.len() - 1;
        assert(names::find(selectors, methods[l].0) is Some);
        let last = names::find(selectors, methods[l].0).unwrap();
        assert forall|i: int|
            0 <= i < methods.len() && #[trigger] is_last(selectors, methods, i) implies ({
            let sel = names::find(selectors, methods[i].0);
            sel is Some && table.contains_key(sel.unwrap()) && table[sel.unwrap()] == (IMP::Host {
                index: methods[i].1,
            })
        }) by {
            assert(names::find(selectors, methods[i].0) is Some);
            if i < l {
                assert(names::find(selectors, methods[l].0) != names::find(
                    selectors,
                    methods[i].0,
                ));
                assert forall|j: int| i < j < rest.len() implies names::find(
                    selectors,
                    (#[trigger] rest[j]).0,
                ) != names::find(selectors, rest[i].0) by {
                    assert(rest[j] == methods[j]);
                }
                assert(is_last(selectors, rest, i));
                assert(rest[i] == methods[i]);
            }
        }
        assert forall|sel: SEL| #[trigger] table.contains_key(sel) implies is_listed(
            selectors,
            methods,
            sel,
        ) by {
            if sel == last {
                assert(names::find(selectors, methods[l].0) == Some(sel));
            } else {
                assert(before.contains_key(sel));
                let i = choose|i: int|
                    0 <= i < rest.len() && names::find(selectors, (#[trigger] rest[i]).0) == Some(
                        sel,
                    );
                assert(methods[i] == rest[i]);
            }
        }
    }
}

// Linking

/// Whether a class is as its template says: it has its name, this superclass and these
/// methods, and its instances consist of nothing but the `isa` pointer.
pub open spec fn is_made(
    name: Seq<u8>,
    selectors: Entries<SEL>,
    methods: Seq<(Seq<u8>, u32)>,
    superclass: Class,
    is_metaclass: bool,
    class: ClassView,
) -> bool {
    &&& class.name == name
    &&& class.is_metaclass == is_metaclass
    &&& class.superclass == superclass
    &&& has_methods(selectors, methods, class.methods)
    &&& class.signatures.dom() == Set::<SEL>::empty()
    &&& class.ivars.len() == 0
    &&& class.properties.len() == 0
    &&& class.instance_start == 4
    &&& class.instance_size == 4
}

proof fn lemma_tables_stay(s: Runtime, name: Seq<u8>, n: nat)
    ensures
        s.with_class(name, n).objc.templates == s.objc.templates,
        s.with_class(name, n).objc.selectors == s.objc.selectors,
    decreases n,
{
    let superclass = match classes::template_of(s.objc.templates, name) {
        Some(t) => t.superclass,
        None => None,
    };
    if superclass is Some && n > 0 {
        lemma_tables_stay(s, superclass.unwrap(), (n - 1) as nat);
    }
}

proof fn lemma_template_listed(t: Seq<TemplateView>, name: Seq<u8>)
    requires
        classes::template_of(t, name) is Some,
    ensures
        t.len() > 0,
        exists|i: int|
            0 <= i < t.len() && #[trigger] t[i] == classes::template_of(t, name).unwrap(),
        classes::template_of(t, name).unwrap().name == name,
    decreases t.len(),
{
    if t.len() > 0 && t[0].name != name {
        let rest = t.drop_first();
        lemma_template_listed(rest, name);
        let i = choose|i: int|
            0 <= i < rest.len() && #[trigger] rest[i] == classes::template_of(t, name).unwrap();
        assert(t[i + 1] == rest[i]);
    } else if t.len() > 0 {
        assert(t[0] == classes::template_of(t, name).unwrap());
    }
}

/// No template is its own superclass.
proof fn lemma_not_above_itself(t: Seq<TemplateView>, name: Seq<u8>, n: nat)
    requires
        classes::template_of(t, name) matches Some(template) && template.superclass == Some(name),
    ensures
        !classes::template_chain_ends(t, name, n),
    decreases n,
{
    if n > 0 {
        lemma_not_above_itself(t, name, (n - 1) as nat);
    }
}

/// What is known by a name stays where it is, and so does its metaclass, when a class of
/// another name is made.
proof fn lemma_lookup_stays(
    env: EnvState,
    name: Seq<u8>,
    isa: Class,
    class: ObjectView,
    metaclass: ObjectView,
    other: Seq<u8>,
    is_metaclass: bool,
)
    requires
        env.sound(),
        env.mem.room() >= 32,
        other != name,
    ensures
        ({
            let s = Runtime { objc: env.objc, mem: env.mem };
            let r = s.with_new_class(name, isa, class, metaclass);
            classes::lookup_or_nil(r.objc, r.mem, other, is_metaclass) == classes::lookup_or_nil(
                s.objc,
                s.mem,
                other,
                is_metaclass,
            )
        }),
{
    let s = Runtime { objc: env.objc, mem: env.mem };
    let r = s.with_new_class(name, isa, class, metaclass);
    layout::lemma_new_class(s, name, isa, class, metaclass);
    names::lemma_find_put(s.objc.classes, name, (s.mem.heap + 16) as u32, other);
    if let Some(c) = names::find(s.objc.classes, other) {
        names::lemma_find(s.objc.classes, other);
        let i = choose|i: int|
            0 <= i < s.objc.classes.len() && #[trigger] s.objc.classes[i] == (other, c);
        assert(s.objc.classes[i].1 == c);
        assert(layout::is_known(env.objc.classes, c));
        let o = Owner::Class { class: c };
        assert(env.block(o) == Some((c, 4nat)));
        assert(layout::in_use(env.mem, env.block(o).unwrap()));
        assert forall|b: u32| c <= b < c + 4 implies s.mem.peek(b) == #[trigger] r.mem.peek(b) by {
            assert(!layout::in_free(s.mem, b));
        }
        layout::lemma_word_same(s.mem, r.mem, c);
    }
}

proof fn lemma_root_lookup_stays(env: EnvState, other: Seq<u8>, is_metaclass: bool)
    requires
        env.sound(),
        env.mem.room() >= 32,
        other != classes::root_name() || names::find(env.objc.classes, other) is Some,
    ensures
        ({
            let s = Runtime { objc: env.objc, mem: env.mem };
            let r = s.with_root();
            classes::lookup_or_nil(r.objc, r.mem, other, is_metaclass) == classes::lookup_or_nil(
                s.objc,
                s.mem,
                other,
                is_metaclass,
            )
        }),
{
    let s = Runtime { objc: env.objc, mem: env.mem };
    let root = classes::root_name();
    if names::find(env.objc.classes, root) is None {
        lemma_lookup_stays(
            env,
            root,
            s.mem.heap,
            classes::linked_object(s.objc, root, false, nil),
            classes::linked_object(s.objc, root, true, s.mem.grow(4).heap),
            other,
            is_metaclass,
        );
    }
}

/// What the new class and its metaclass are, and what the metaclass's `isa` is.
proof fn lemma_pair_made(
    s: Runtime,
    name: Seq<u8>,
    isa: Class,
    class: ObjectView,
    metaclass: ObjectView,
)
    requires
        mem::NULL_PAGE_END <= s.mem.heap,
        s.mem.room() >= 32,
    ensures
        ({
            let r = s.with_new_class(name, isa, class, metaclass);
            let c = classes::lookup_or_nil(r.objc, r.mem, name, false);
            let mc = classes::lookup_or_nil(r.objc, r.mem, name, true);
            &&& r.objc.objects.contains_key(c) && r.objc.objects[c] == class
            &&& r.objc.objects.contains_key(mc) && r.objc.objects[mc] == metaclass
            &&& mc == s.mem.heap
            &&& c == s.mem.heap + 16
            &&& r.mem.peek_u32(mc) == isa
        }),
{
    let r = s.with_new_class(name, isa, class, metaclass);
    let r1 = s.with_new_object(isa, metaclass);
    layout::lemma_new_class(s, name, isa, class, metaclass);
    layout::lemma_new_word(s.mem, isa);
    layout::lemma_new_word(r1.mem, s.mem.heap);
    assert forall|b: u32| s.mem.heap <= b < s.mem.heap + 4 implies r1.mem.peek(b)
        == #[trigger] r.mem.peek(b) by {
        assert(b < r1.mem.heap);
    }
    layout::lemma_word_same(r1.mem, r.mem, s.mem.heap);
}

/// A class that has a template, and was not linked yet, is made as the template says,
/// with the instance methods, and its metaclass with the class methods. The class has
/// the class of the template's superclass above it, and the metaclass has the metaclass
/// of that. The `isa` of the class is its metaclass, and that of the metaclass is the
/// metaclass of the root.
#[verifier::rlimit(40)]
pub proof fn law_linked_from_template(env: EnvState, name: Seq<u8>)
    requires
        env.sound(),
        env.objc.can_link(env.mem),
        names::find(env.objc.classes, name) is None,
        classes::template_of(env.objc.templates, name) is Some,
        classes::is_plausible_name(name),
        name != classes::root_name(),
    ensures
        ({
            let t = classes::template_of(env.objc.templates, name).unwrap();
            let r = env.objc.linked(env.mem, name);
            let c = classes::lookup_or_nil(r.objc, r.mem, name, false);
            let mc = classes::lookup_or_nil(r.objc, r.mem, name, true);
            let above = |is_metaclass: bool| match t.superclass {
                Some(superclass) => classes::lookup_or_nil(
                    r.objc,
                    r.mem,
                    superclass,
                    is_metaclass,
                ),
                None => nil,
            };
            &&& r.objc.class(c) is Some && r.objc.class(mc) is Some
            &&& is_made(
                name,
                env.objc.selectors,
                t.instance_methods,
                above(false),
                false,
                r.objc.class(c).unwrap(),
            )
            &&& is_made(
                name,
                env.objc.selectors,
                t.class_methods,
                above(true),
                true,
                r.objc.class(mc).unwrap(),
            )
            &&& r.mem.peek_u32(c) == mc
            &&& r.mem.peek_u32(mc) == classes::lookup_or_nil(
                r.objc,
                r.mem,
                classes::root_name(),
                true,
            )
        }),
{
    let s = Runtime { objc: env.objc, mem: env.mem };
    let n = env.objc.templates.len();
    let t = classes::template_of(env.objc.templates, name).unwrap();
    let root = classes::root_name();
    lemma_template_listed(env.objc.templates, name);
    assert(classes::template_chain_ends(env.objc.templates, name, n));
    let r1 = if t.superclass is Some {
        s.with_class(t.superclass.unwrap(), (n - 1) as nat)
    } else {
        s
    };
    if t.superclass is Some {
        layout::lemma_sound_class(env, t.superclass.unwrap(), (n - 1) as nat);
        lemma_tables_stay(s, t.superclass.unwrap(), (n - 1) as nat);
        if t.superclass == Some(name) {
            lemma_not_above_itself(env.objc.templates, name, n);
        }
    } else {
        layout::law_sound_elsewhere(env, env.with_runtime(r1));
    }
    let e1 = env.with_runtime(r1);
    let r2 = r1.with_root();
    let e2 = e1.with_runtime(r2);
    layout::lemma_sound_root(e1);
    assert(r1 == (Runtime { objc: e1.objc, mem: e1.mem }));
    assert(r2 == (Runtime { objc: e2.objc, mem: e2.mem }));
    let isa = classes::lookup_or_nil(r2.objc, r2.mem, root, true);
    let above = |is_metaclass: bool|
        if t.superclass is Some {
            classes::lookup_or_nil(r1.objc, r1.mem, t.superclass.unwrap(), is_metaclass)
        } else {
            nil
        };
    let class = classes::linked_object(r2.objc, name, false, above(false));
    let metaclass = classes::linked_object(r2.objc, name, true, above(true));
    let r = env.objc.linked(env.mem, name);
    assert(r == r2.with_new_class(name, isa, class, metaclass));
    lemma_pair_made(r2, name, isa, class, metaclass);
    layout::lemma_new_class(r2, name, isa, class, metaclass);
    lemma_lookup_stays(e2, name, isa, class, metaclass, root, true);
    if t.superclass is Some {
        let superclass = t.superclass.unwrap();
        if superclass == root {
            lemma_root_known(s, (n - 1) as nat);
        }
        lemma_root_lookup_stays(e1, superclass, false);
        lemma_root_lookup_stays(e1, superclass, true);
        lemma_lookup_stays(e2, name, isa, class, metaclass, superclass, false);
        lemma_lookup_stays(e2, name, isa, class, metaclass, superclass, true);
    }
    let i = choose|i: int|
        0 <= i < env.objc.templates.len() && #[trigger] env.objc.templates[i] == t;
    assert(env.objc.templates[i] == t);
    lemma_table(env.objc.selectors, t.instance_methods);
    lemma_table(env.objc.selectors, t.class_methods);
}

proof fn lemma_root_known(s: Runtime, n: nat)
    ensures
        names::find(s.with_class(classes::root_name(), n).objc.classes, classes::root_name()) is Some,
{
    let root = classes::root_name();
    if names::find(s.objc.classes, root) is None {
        names::lemma_find_put(s.objc.classes, root, s.mem.grow(4).heap, root);
    }
}

/// The root class, where it was not linked yet, has nothing above it. Its metaclass is
/// its own metaclass, and has the class above it.
pub proof fn law_root_linked(env: EnvState)
    requires
        env.sound(),
        env.objc.can_link(env.mem),
        names::find(env.objc.classes, classes::root_name()) is None,
        classes::template_of(env.objc.templates, classes::root_name()) is Some,
    ensures
        ({
            let name = classes::root_name();
            let t = classes::template_of(env.objc.templates, name).unwrap();
            let r = env.objc.linked(env.mem, name);
            let c = classes::lookup_or_nil(r.objc, r.mem, name, false);
            let mc = classes::lookup_or_nil(r.objc, r.mem, name, true);
            &&& r.objc.class(c) is Some && r.objc.class(mc) is Some
            &&& is_made(
                name,
                env.objc.selectors,
                t.instance_methods,
                nil,
                false,
                r.objc.class(c).unwrap(),
            )
            &&& is_made(
                name,
                env.objc.selectors,
                t.class_methods,
                c,
                true,
                r.objc.class(mc).unwrap(),
            )
            &&& r.mem.peek_u32(c) == mc
            &&& r.mem.peek_u32(mc) == mc
        }),
{
    let name = classes::root_name();
    let s = Runtime { objc: env.objc, mem: env.mem };
    let t = classes::template_of(env.objc.templates, name).unwrap();
    let c = s.mem.grow(4).heap;
    let class = classes::linked_object(s.objc, name, false, nil);
    let metaclass = classes::linked_object(s.objc, name, true, c);
    assert(env.objc.linked(env.mem, name) == s.with_new_class(name, s.mem.heap, class, metaclass));
    lemma_pair_made(s, name, s.mem.heap, class, metaclass);
    layout::lemma_new_class(s, name, s.mem.heap, class, metaclass);
    layout::lemma_new_word(s.mem, s.mem.heap);
    lemma_template_listed(env.objc.templates, name);
    let i = choose|i: int|
        0 <= i < env.objc.templates.len() && #[trigger] env.objc.templates[i] == t;
    assert(env.objc.templates[i] == t);
    lemma_table(env.objc.selectors, t.instance_methods);
    lemma_table(env.objc.selectors, t.class_methods);
}

/// A class without a template that is not one of an SDK that is replaced is linked as a
/// placeholder of that name, and so is its metaclass; neither counts as a fake.
pub proof fn law_placeholder_pair(env: EnvState, name: Seq<u8>)
    requires
        env.sound(),
        env.objc.can_link(env.mem),
        classes::is_plausible_name(name),
        !classes::is_fake_name(name),
        name != classes::root_name(),
        names::find(env.objc.classes, name) is None,
        classes::template_of(env.objc.templates, name) is None,
    ensures
        ({
            let r = env.objc.linked(env.mem, name);
            let c = classes::lookup_or_nil(r.objc, r.mem, name, false);
            let mc = classes::lookup_or_nil(r.objc, r.mem, name, true);
            &&& r.objc.objects[c] == (ObjectView::Unimplemented { name, is_metaclass: false })
            &&& r.objc.objects[mc] == (ObjectView::Unimplemented { name, is_metaclass: true })
            &&& r.objc.is_unimplemented(c) && !r.objc.is_fake(c)
            &&& r.objc.is_unimplemented(mc) && !r.objc.is_fake(mc)
        }),
{
    let s = Runtime { objc: env.objc, mem: env.mem };
    let root = classes::root_name();
    layout::lemma_sound_root(env);
    let r2 = s.with_root();
    let isa = classes::lookup_or_nil(r2.objc, r2.mem, root, true);
    let class = classes::linked_object(r2.objc, name, false, nil);
    let metaclass = classes::linked_object(r2.objc, name, true, nil);
    assert(env.objc.linked(env.mem, name) == r2.with_new_class(name, isa, class, metaclass));
    lemma_pair_made(r2, name, isa, class, metaclass);
}

/// A name that no class can have is not linked, and nothing changes.
pub proof fn law_bad_name_not_linked(o: ObjCState, m: MemState, name: Seq<u8>, i: int)
    requires
        name != classes::root_name(),
        name.len() == 0 || (0 <= i < name.len() && (name[i] < 0x20 || name[i] >= 0x7F)),
    ensures
        o.linked(m, name) == (Runtime { objc: o, mem: m }),
{
}

/// Of templates with the same name the first one counts.
pub proof fn law_first_template(t: Seq<TemplateView>, name: Seq<u8>, i: int)
    requires
        0 <= i <= t.len(),
        forall|j: int| 0 <= j < i ==> (#[trigger] t[j]).name != name,
        i < t.len() ==> t[i].name == name,
    ensures
        i < t.len() ==> classes::template_of(t, name) == Some(t[i]),
        i == t.len() ==> classes::template_of(t, name) is None,
    decreases t.len(),
{
    if i > 0 {
        let rest = t.drop_first();
        assert(t[0].name != name);
        assert forall|j: int| 0 <= j < i - 1 implies (#[trigger] rest[j]).name != name by {
            assert(rest[j] == t[j + 1]);
        }
        law_first_template(rest, name, i - 1);
    }
}

// Superclasses

/// What is above a class is what the class says; above what is no class there is nothing.
pub proof fn law_above(o: ObjCState, c: Class)
    ensures
        o.class(c) matches Some(k) ==> o.superclass(c) == k.superclass,
        o.class(c) is None ==> o.superclass(c) == nil,
        c != nil ==> o.above(c) == o.superclass(c),
        o.above(nil) == nil,
{
}

/// A class is a subclass of another one exactly where its superclass is that one or a
/// subclass of it.
pub proof fn law_subclass_steps(o: ObjCState, c: Class, d: Class)
    requires
        c != nil,
        d != nil,
        c != d,
    ensures
        o.is_subclass(c, d) == o.is_subclass(o.superclass(c), d),
{
    let above = o.superclass(c);
    assert(o.ancestor(c, 0) == c);
    assert(o.ancestor(c, 1) == above) by {
        reveal_with_fuel(ObjCState::ancestor, 2);
    }
    assert(o.ancestor(above, 0) == above);
    if o.is_subclass(c, d) {
        let k = choose|k: nat| #[trigger] o.ancestor(c, k) == d;
        classes::lemma_ancestor_sum(o, c, 1, (k - 1) as nat);
        assert(o.ancestor(above, (k - 1) as nat) == d);
    }
    if o.is_subclass(above, d) {
        let k = if above == d {
            0
        } else {
            choose|k: nat| #[trigger] o.ancestor(above, k) == d
        };
        classes::lemma_ancestor_sum(o, c, 1, k);
        assert(o.ancestor(c, 1 + k) == d);
    }
}

// Methods

/// An address stands for the guest function there, unless it was handed out for a host
/// implementation; NULL stands for none. A guest function has its own address.
pub proof fn law_guest_imp(env: EnvState, c: Class, sel: SEL, addr: u32)
    ensures
        env.objc.imp_of(0) is None,
        addr != 0 && !env.objc.imp_tokens.contains_key(addr) ==> env.objc.imp_of(addr) == Some(
            IMP::Guest { addr },
        ),
        addr != 0 && env.objc.imp_tokens.contains_key(addr) ==> env.objc.imp_of(addr) == Some(
            env.objc.imp_tokens[addr],
        ),
        env.imp_ptr(c, sel, IMP::Guest { addr }) == addr,
        env.with_imp_ptr(c, sel, IMP::Guest { addr }) == env,
{
}

/// Instances respond to what their class or one above it has a method for.
pub proof fn law_responds(env: EnvState, c: Class, sel: SEL)
    requires
        c != nil,
        sel != 0,
    ensures
        env.objc.imp_at(c, sel) is Some ==> env.responds(c, sel),
        env.objc.imp_at(c, sel) is None && env.objc.superclass(c) != nil ==> env.responds(c, sel)
            == env.responds(env.objc.superclass(c), sel),
        env.objc.imp_at(c, sel) is None && env.objc.superclass(c) == nil ==> !env.responds(c, sel),
{
    laws::law_inherits(env.objc, c, sel);
    if env.objc.superclass(c) == nil {
        assert forall|k: nat| !env.objc.is_nearest(nil, sel, k) by {
            lemma_above_nil(env.objc, k);
        }
    }
}

/// Adding or replacing a method changes nothing but that method of that class: not its
/// type encoding, where none is given, and nothing at all, where there is no
/// implementation.
pub proof fn law_other_methods_stay(
    env: EnvState,
    c: Class,
    sel: SEL,
    imp: Option<IMP>,
    types: u32,
    d: Class,
    other: SEL,
)
    requires
        env.objc.class(c) is Some,
    ensures
        ({
            let e = env.with_method(c, sel, imp, types);
            &&& d != c || other != sel ==> e.objc.imp_at(d, other) == env.objc.imp_at(d, other)
                && e.objc.types_at(d, other) == env.objc.types_at(d, other)
            &&& imp is Some ==> e.objc.imp_at(c, sel) == imp
            &&& imp is Some && types != 0 ==> e.objc.types_at(c, sel) == Some(types)
            &&& imp is Some && types == 0 ==> e.objc.types_at(c, sel) == env.objc.types_at(c, sel)
            &&& imp is None ==> e == env
            &&& e.objc.superclass(d) == env.objc.superclass(d)
            &&& e.objc.classes == env.objc.classes
            &&& e.mem == env.mem
        }),
{
}

/// Exchanging two methods leaves all others as they are.
pub proof fn law_exchanged_others_stay(
    env: EnvState,
    c1: Class,
    s1: SEL,
    c2: Class,
    s2: SEL,
    d: Class,
    other: SEL,
)
    requires
        d != c1 || other != s1,
        d != c2 || other != s2,
    ensures
        ({
            let e = env.exchanged(c1, s1, c2, s2);
            &&& e.objc.imp_at(d, other) == env.objc.imp_at(d, other)
            &&& e.objc.types_at(d, other) == env.objc.types_at(d, other)
            &&& e.objc.superclass(d) == env.objc.superclass(d)
            &&& e.objc.classes == env.objc.classes
            &&& e.mem == env.mem
        }),
{
}

// Names of classes that are replaced

/// A name that starts as one that is replaced does is replaced, whatever follows.
pub proof fn law_longer_name_is_fake(name: Seq<u8>, rest: Seq<u8>)
    requires
        classes::is_fake_name(name),
    ensures
        classes::is_fake_name(name + rest),
{
    lemma_starts_with(name, rest, "AdMob"@);
    lemma_starts_with(name, rest, "AltAds"@);
    lemma_starts_with(name, rest, "Mobclix"@);
    lemma_starts_with(name, rest, "FB"@);
    lemma_starts_with(name, rest, "Flurry"@);
    lemma_starts_with(name, rest, "OpenFeint"@);
    lemma_starts_with(name, rest, "Tapjoy"@);
    lemma_starts_with(name, rest, "UA"@);
    lemma_starts_with(name, rest, "GAD"@);
    lemma_starts_with(name, rest, "iSimulate"@);
    lemma_starts_with(name, rest, "SBScene"@);
    lemma_starts_with(name, rest, "SBSystem"@);
}

proof fn lemma_starts_with(name: Seq<u8>, rest: Seq<u8>, prefix: Seq<char>)
    ensures
        classes::starts_with(name, prefix) ==> classes::starts_with(name + rest, prefix),
{
    if classes::starts_with(name, prefix) {
        let p = classes::name_of(prefix);
        assert((name + rest).subrange(0, p.len() as int) =~= name.subrange(0, p.len() as int));
    }
}

/// Whether the names of an SDK's classes start so.
pub open spec fn is_sdk(prefix: Seq<char>) -> bool {
    prefix == "AdMob"@ || prefix == "AltAds"@ || prefix == "Mobclix"@ || prefix == "FB"@ || prefix
        == "Flurry"@ || prefix == "OpenFeint"@ || prefix == "Tapjoy"@ || prefix == "UA"@ || prefix
        == "GAD"@ || prefix == "iSimulate"@
}

/// Every class of these SDKs is replaced, in every app, whether the app has it or only
/// refers to it. Some more are replaced where the app has them, and private ones that
/// apps probe for where it refers to them.
pub proof fn law_sdk_classes(bundle: Seq<u8>, prefix: Seq<char>, rest: Seq<u8>)
    ensures
        is_sdk(prefix) ==> classes::is_fake_name(classes::name_of(prefix) + rest)
            && binary::is_substituted(bundle, classes::name_of(prefix) + rest),
        prefix == "SBScene"@ || prefix == "SBSystem"@ ==> classes::is_fake_name(
            classes::name_of(prefix) + rest,
        ),
        prefix == "RevMob"@ || prefix == "ALSdk"@ || prefix == "ALAd"@ || prefix == "ALEvent"@
            || prefix == "ALIncentivized"@ || prefix == "ALTargeting"@ || prefix == "ALPrivacy"@
            ==> binary::is_substituted(bundle, classes::name_of(prefix) + rest),
        binary::is_substituted(bundle, classes::name_of("CCModalViewController"@)),
        bundle == classes::name_of("com.chillingo.defenderchronicles"@) ==> binary::is_substituted(
            bundle,
            classes::name_of("OFHighScoreService"@),
        ),
{
    let p = classes::name_of(prefix);
    assert((p + rest).subrange(0, p.len() as int) =~= p);
    assert(classes::starts_with(p + rest, prefix));
}

/// Classes of the same SDKs are replaced whether the app has them or only refers to
/// them, in every app. Only private classes that apps probe for are replaced nowhere but
/// in references.
pub proof fn law_replaced_alike(bundle: Seq<u8>, name: Seq<u8>)
    requires
        !classes::starts_with(name, "SBScene"@),
        !classes::starts_with(name, "SBSystem"@),
    ensures
        classes::is_fake_name(name) ==> binary::is_substituted(bundle, name),
        binary::is_substituted(bundle, name) && !classes::is_fake_name(name) ==> name
            == classes::name_of("CCModalViewController"@) || classes::starts_with(name, "RevMob"@)
            || classes::starts_with(name, "ALSdk"@) || classes::starts_with(name, "ALAd"@)
            || classes::starts_with(name, "ALEvent"@) || classes::starts_with(
            name,
            "ALIncentivized"@,
        ) || classes::starts_with(name, "ALTargeting"@) || classes::starts_with(name, "ALPrivacy"@)
            || name == classes::name_of("OFHighScoreService"@),
{
}

// Looking for a class by a method

/// A class counts only where it is a real one and has the method itself: not where it
/// inherits it, where its metaclass has it, or where it is a fake or a placeholder.
pub proof fn law_declares(o: ObjCState, sel: SEL, i: int)
    requires
        0 <= i < o.classes.len(),
    ensures
        o.class(o.classes[i].1) is None ==> !o.declares(sel, i),
        o.class(o.classes[i].1) matches Some(k) && k.is_metaclass ==> !o.declares(sel, i),
        o.class(o.classes[i].1) matches Some(k) && !k.is_metaclass ==> o.declares(sel, i)
            == o.class(o.classes[i].1).unwrap().methods.contains_key(sel),
{
}

/// Of two classes with a method, one whose name ends in that of an application delegate
/// or controller, in letters of either case, is preferred to one whose name does not and
/// has no delegate in it.
pub proof fn law_delegate_preferred(a: Seq<u8>, b: Seq<u8>)
    requires
        search::ends_in(search::lowercase(a), "appdelegate"@) || search::ends_in(
            search::lowercase(a),
            "appcontroller"@,
        ),
        !search::ends_in(search::lowercase(b), "appcontroller"@),
        !search::has_part(search::lowercase(b), "delegate"@),
    ensures
        search::preferred(a, b),
        !search::preferred(b, a),
{
    let l = search::lowercase(b);
    if search::ends_in(l, "appdelegate"@) {
        let long = classes::name_of("appdelegate"@);
        let short = classes::name_of("delegate"@);
        lemma_delegate_is_part();
        let k = l.len() - short.len();
        assert(l.subrange(l.len() - long.len(), l.len() as int) == long);
        assert forall|i: int| 0 <= i < short.len() implies l.subrange(k, k + short.len())[i]
            == short[i] by {
            assert(long.subrange(3, 11)[i] == short[i]);
            assert(l.subrange(l.len() - long.len(), l.len() as int)[i + 3] == long[i + 3]);
        }
        assert(l.subrange(k, k + short.len()) =~= short);
        assert(search::occurs_at(l, short, k));
    }
}

proof fn lemma_delegate_is_part()
    ensures
        classes::name_of("appdelegate"@).len() == 11,
        classes::name_of("delegate"@).len() == 8,
        classes::name_of("appdelegate"@).subrange(3, 11) == classes::name_of("delegate"@),
{
    reveal_strlit("appdelegate");
    reveal_strlit("delegate");
    vstd::utf8::is_ascii_chars_encode_utf8("appdelegate"@);
    vstd::utf8::is_ascii_chars_encode_utf8("delegate"@);
    assert(classes::name_of("appdelegate"@).subrange(3, 11) =~= classes::name_of("delegate"@));
}

/// Whether two names are the same but for the case of ASCII letters.
pub open spec fn same_but_case(a: Seq<u8>, b: Seq<u8>) -> bool {
    a.len() == b.len() && forall|i: int|
        0 <= i < a.len() ==> #[trigger] a[i] == b[i] || (0x41 <= a[i] <= 0x5A && b[i] == a[i] + 32)
            || (0x41 <= b[i] <= 0x5A && a[i] == b[i] + 32)
}

/// The case of letters does not matter for what a name looks like, and a name in lower
/// case is looked at as it is.
pub proof fn law_case_ignored(a: Seq<u8>, b: Seq<u8>)
    requires
        same_but_case(a, b),
    ensures
        search::delegate_rank(a) == search::delegate_rank(b),
        (forall|i: int| 0 <= i < a.len() ==> !(0x41 <= #[trigger] a[i] <= 0x5A))
            ==> search::lowercase(a) == a,
{
    assert(search::lowercase(a) =~= search::lowercase(b));
    if forall|i: int| 0 <= i < a.len() ==> !(0x41 <= #[trigger] a[i] <= 0x5A) {
        assert(search::lowercase(a) =~= a);
    }
}

/// Of two names that look alike in this respect, the one comes first that has the
/// smaller byte at the first place where they differ, or that the other only continues.
pub proof fn law_alphabet_preferred(a: Seq<u8>, b: Seq<u8>, k: int)
    requires
        search::delegate_rank(a) == search::delegate_rank(b),
        0 <= k < b.len(),
        k <= a.len(),
        forall|i: int| 0 <= i < k ==> a[i] == b[i],
        k == a.len() || a[k] < b[k],
    ensures
        search::preferred(a, b),
        !search::preferred(b, a),
{
    lemma_less(a, b, k, 0);
}

proof fn lemma_less(a: Seq<u8>, b: Seq<u8>, k: int, from: int)
    requires
        0 <= from <= k < b.len(),
        k <= a.len(),
        forall|i: int| 0 <= i < k ==> a[i] == b[i],
        k == a.len() || a[k] < b[k],
    ensures
        search::less_from(a, b, from),
        !search::less_from(b, a, from),
    decreases k - from,
{
    if from < k {
        lemma_less(a, b, k, from + 1);
    }
}

// Properties and lists

/// A property that a class declares is its property; one that it does not declare is
/// that of its superclass.
pub proof fn law_property_inherits(o: ObjCState, c: Class, name: Seq<u8>)
    requires
        c != nil,
    ensures
        o.class(c) matches Some(k) && names::find(k.properties, name) is Some ==> o.property(c, name)
            == names::find(o.class(c).unwrap().properties, name).unwrap(),
        o.class(c) is None || names::find(o.class(c).unwrap().properties, name) is None
            ==> o.property(c, name) == o.property(o.superclass(c), name),
{
    let d = o.superclass(c);
    assert(o.ancestor(c, 0) == c);
    assert(o.ancestor(c, 1) == d) by {
        reveal_with_fuel(ObjCState::ancestor, 2);
    }
    if o.own_property(c, name) is Some {
        assert(o.declares_nearest(c, name, 0));
        lemma_nearest(o, c, name, 0);
    } else if exists|k: nat| o.declares_nearest(d, name, k) {
        let k = choose|k: nat| o.declares_nearest(d, name, k);
        classes::lemma_ancestor_sum(o, c, 1, k);
        assert forall|j: nat| j < k + 1 implies o.own_property(
            #[trigger] o.ancestor(c, j),
            name,
        ) is None by {
            if j > 0 {
                classes::lemma_ancestor_sum(o, c, 1, (j - 1) as nat);
                assert(o.own_property(o.ancestor(d, (j - 1) as nat), name) is None);
            }
        }
        assert(o.declares_nearest(c, name, k + 1));
        lemma_nearest(o, c, name, k + 1);
        lemma_nearest(o, d, name, k);
    } else {
        assert forall|k: nat| !o.declares_nearest(c, name, k) by {
            if o.declares_nearest(c, name, k) && k > 0 {
                let i = (k - 1) as nat;
                classes::lemma_ancestor_sum(o, c, 1, i);
                assert forall|j: nat| j < i implies o.own_property(
                    #[trigger] o.ancestor(d, j),
                    name,
                ) is None by {
                    classes::lemma_ancestor_sum(o, c, 1, j);
                    assert(o.own_property(o.ancestor(c, j + 1), name) is None);
                }
                assert(o.declares_nearest(d, name, i));
            }
        }
    }
}

proof fn lemma_nearest(o: ObjCState, c: Class, name: Seq<u8>, k: nat)
    requires
        o.declares_nearest(c, name, k),
    ensures
        o.property(c, name) == o.own_property(o.ancestor(c, k), name).unwrap(),
{
    let j = choose|j: nat| o.declares_nearest(c, name, j);
    assert(o.declares_nearest(c, name, j));
    if j < k {
        assert(o.own_property(o.ancestor(c, j), name) is None);
    } else if k < j {
        assert(o.own_property(o.ancestor(c, k), name) is None);
    }
}

/// Above nil there are no properties.
pub proof fn law_no_property(o: ObjCState, name: Seq<u8>)
    ensures
        o.property(nil, name) == 0,
{
    assert forall|k: nat| !o.declares_nearest(nil, name, k) by {
        lemma_above_nil(o, k);
    }
}

proof fn lemma_above_nil(o: ObjCState, n: nat)
    ensures
        o.ancestor(nil, n) == nil,
    decreases n,
{
    if n > 0 {
        lemma_above_nil(o, (n - 1) as nat);
    }
}

/// The words that were stored are read back, one behind the other.
proof fn lemma_words_stored(m: MemState, a: u32, words: Seq<u32>, i: int)
    requires
        mem::NULL_PAGE_END <= a,
        a + 4 * words.len() <= 0x1_0000_0000,
        0 <= i < words.len(),
    ensures
        m.poke_words(a, words).peek_u32((a + 4 * i) as u32) == words[i],
    decreases words.len(),
{
    let l = words.len() - 1;
    let before = m.poke_words(a, words.drop_last());
    let at = (a + 4 * l) as u32;
    assert(mem::wrap(a + 4 * l) == at);
    if i == l {
        mem::lemma_peek_poke_u32(before, at, words[l]);
    } else {
        lemma_words_stored(m, a, words.drop_last(), i);
        mem::lemma_peek_poke_u32_apart(before, at, (a + 4 * i) as u32, words[l]);
    }
}

/// The list of the properties that a class declares holds each of them, in order, and a
/// NULL at the end.
pub proof fn law_property_list(env: EnvState, cls: Class, i: int)
    requires
        mem::NULL_PAGE_END <= env.mem.heap,
        env.objc.class(cls) is Some,
        env.list_ready(env.objc.class(cls).unwrap().properties.len()),
        0 <= i < env.objc.class(cls).unwrap().properties.len(),
    ensures
        ({
            let properties = env.objc.class(cls).unwrap().properties;
            let e = env.with_list(env.objc.declared_properties(cls));
            let list = env.mem.heap;
            &&& env.objc.declared_properties(cls).len() == properties.len()
            &&& e.mem.peek_u32((list + 4 * i) as u32) == properties[i].1
            &&& e.mem.peek_u32((list + 4 * properties.len()) as u32) == 0
            &&& e.mem.heap >= list + 4 * properties.len() + 4
        }),
{
    let properties = env.objc.class(cls).unwrap().properties;
    let words = env.objc.declared_properties(cls);
    let m = env.mem.grow((4 * words.len() + 4) as u32);
    lemma_words_stored(m, env.mem.heap, words.push(0), i);
    lemma_words_stored(m, env.mem.heap, words.push(0), words.len() as int);
    lemma_words_heap(m, env.mem.heap, words.push(0));
    assert(words[i] == properties[i].1);
}

proof fn lemma_words_heap(m: MemState, a: u32, words: Seq<u32>)
    ensures
        m.poke_words(a, words).heap == m.heap,
    decreases words.len(),
{
    if words.len() > 0 {
        lemma_words_heap(m, a, words.drop_last());
        mem::lemma_poke_u32_heap(
            m.poke_words(a, words.drop_last()),
            mem::wrap(a + 4 * (words.len() - 1)),
            words.last(),
        );
    }
}

/// The list of classes holds those that are known, in the order in which they came.
pub proof fn law_class_list(o: ObjCState, m: MemState, buffer: u32, n: int, i: int)
    requires
        mem::NULL_PAGE_END <= buffer,
        0 <= i < n <= o.classes.len(),
        buffer + 4 * n <= 0x1_0000_0000,
    ensures
        m.poke_words(buffer, runtime::values(o.classes).take(n)).peek_u32((buffer + 4 * i) as u32)
            == o.classes[i].1,
{
    lemma_words_stored(m, buffer, runtime::values(o.classes).take(n), i);
}

// Known classes

/// A class that is linked is known, and looking it up changes nothing. One that is not
/// linked is known exactly where it has a template, and looking it up links it.
pub proof fn law_known_class(o: ObjCState, m: MemState, name: Seq<u8>)
    ensures
        names::find(o.classes, name) is Some ==> o.known_class(m, name) == names::find(
            o.classes,
            name,
        ) && o.known(m, name) == (Runtime { objc: o, mem: m }),
        names::find(o.classes, name) is None && classes::template_of(o.templates, name) is None
            ==> o.known_class(m, name) is None && o.known(m, name) == (Runtime { objc: o, mem: m }),
        names::find(o.classes, name) is None && classes::template_of(o.templates, name) is Some
            ==> o.known(m, name) == o.linked(m, name) && o.known_class(m, name) == Some(
            match names::find(o.linked(m, name).objc.classes, name) {
                Some(class) => class,
                None => nil,
            },
        ),
{
}

/// The guest finds a class by the address of its name: the known class, or nil. Nothing
/// that is not text is a name.
pub proof fn law_class_named(env: EnvState, name: u32)
    ensures
        name == 0 || !vstd::utf8::valid_utf8(env.mem.cstr(name)) ==> env.class_named(name) == nil
            && env.with_class_named(name) == env,
        name != 0 && vstd::utf8::valid_utf8(env.mem.cstr(name)) ==> ({
            let known = env.objc.known_class(env.mem, env.mem.cstr(name));
            &&& known is Some ==> env.class_named(name) == known.unwrap()
            &&& known is None ==> env.class_named(name) == nil
            &&& env.with_class_named(name).objc == env.objc.known(
                env.mem,
                env.mem.cstr(name),
            ).objc
            &&& env.with_class_named(name).mem == env.objc.known(env.mem, env.mem.cstr(name)).mem
        }),
{
}

// Instance variables

/// The alignment by which instance variables move is the largest of those that have a
/// place, and at least one.
pub proof fn law_largest_alignment(ivars: Entries<Ivar>, i: int)
    requires
        0 <= i < ivars.len(),
    ensures
        ivars[i].1.offset != 0 ==> ivars[i].1.alignment <= binary::max_alignment(ivars),
        binary::max_alignment(ivars) >= 1,
        binary::max_alignment(ivars) == 1 || exists|k: int|
            0 <= k < ivars.len() && (#[trigger] ivars[k]).1.offset != 0 && ivars[k].1.alignment
                == binary::max_alignment(ivars),
    decreases ivars.len(),
{
    let rest = ivars.drop_last();
    let l = ivars.len() - 1;
    let last = ivars[l].1;
    assert(last == ivars.last().1);
    if l > 0 {
        law_largest_alignment(
            rest,
            if i < l {
                i
            } else {
                0
            },
        );
        if i < l {
            assert(rest[i] == ivars[i]);
        }
    } else {
        assert(binary::max_alignment(rest) == 1);
    }
    if last.offset != 0 && last.alignment > binary::max_alignment(rest) {
        assert(binary::max_alignment(ivars) == ivars[l].1.alignment);
    } else {
        assert(binary::max_alignment(ivars) == binary::max_alignment(rest));
        if binary::max_alignment(rest) != 1 {
            let k = choose|k: int|
                0 <= k < rest.len() && (#[trigger] rest[k]).1.offset != 0 && rest[k].1.alignment
                    == binary::max_alignment(rest);
            assert(ivars[k] == rest[k]);
        }
    }
}

/// A class whose superclass has grown into it moves as little as it can: by what is
/// missing, or by the next multiple of the largest alignment. Its instance variables
/// move along with it, but for those that have no place, and nothing else changes. It
/// must not be moved past the end of the address space.
pub proof fn law_fitted_exactly(class: ClassView, size: u32, i: int)
    requires
        class.instance_start < size,
        class.instance_start + binary::overlap(class, size) <= u32::MAX,
        class.instance_size + binary::overlap(class, size) <= u32::MAX,
        0 <= i < class.ivars.len(),
        class.ivars[i].1.offset + binary::overlap(class, size) <= u32::MAX,
    ensures
        ({
            let r = binary::fitted(class, size);
            let missing = size - class.instance_start;
            let moved = r.instance_start - class.instance_start;
            let a = binary::max_alignment(class.ivars) as int;
            &&& missing <= moved < missing + a
            &&& moved % a == 0
            &&& r.instance_size == class.instance_size + moved
            &&& r.ivars.len() == class.ivars.len()
            &&& r.ivars[i].0 == class.ivars[i].0
            &&& r.ivars[i].1 == (Ivar { offset: r.ivars[i].1.offset, ..class.ivars[i].1 })
            &&& class.ivars[i].1.offset == 0 ==> r.ivars[i].1.offset == 0
            &&& class.ivars[i].1.offset != 0 ==> r.ivars[i].1.offset == class.ivars[i].1.offset
                + moved
            &&& r == (ClassView {
                instance_start: r.instance_start,
                instance_size: r.instance_size,
                ivars: r.ivars,
                ..class
            })
        }),
{
    let diff = size - class.instance_start;
    let a = binary::max_alignment(class.ivars) as int;
    law_largest_alignment(class.ivars, i);
    assert(diff <= (diff + a - 1) / a * a < diff + a && ((diff + a - 1) / a * a) % a == 0)
        by (nonlinear_arith)
        requires
            a >= 1,
            diff >= 0,
    ;
    let by = binary::overlap(class, size);
    assert(mem::wrap(class.instance_start + by) == class.instance_start + by);
    assert(mem::wrap(class.instance_size + by) == class.instance_size + by);
    assert(mem::wrap(class.ivars[i].1.offset + by) == class.ivars[i].1.offset + by);
}

/// A class without instance variables moves by exactly what is missing.
pub proof fn law_fitted_empty(class: ClassView, size: u32)
    requires
        class.instance_start < size,
        class.ivars.len() == 0,
    ensures
        binary::fitted(class, size).instance_start == size,
{
    assert(mem::wrap(size as int) == size);
}

/// A superclass has grown into a class exactly where it ends behind the start of the
/// class, and by as much as that. What is no class, or has nothing above it, is not
/// concerned.
pub proof fn law_overgrown(o: ObjCState, c: Class)
    ensures
        ({
            let (b, by) = binary::overgrown(o, c);
            let class = o.class(c);
            let above = o.class(o.superclass(c));
            &&& class is None || above is None ==> !b && by == 0
            &&& class is Some && above is Some && class.unwrap().superclass == nil ==> !b && by == 0
            &&& class is Some && above is Some && class.unwrap().superclass != nil ==> {
                &&& b == (class.unwrap().instance_start < above.unwrap().instance_size)
                &&& b ==> class.unwrap().instance_start + by == above.unwrap().instance_size
                &&& !b ==> by == 0
            }
        }),
{
}

// The list of all classes

/// What the list of all classes says of a class: its name, the name of its superclass if
/// it has one, and what kind of class it is.
pub open spec fn entry(name: Seq<u8>, superclass: Option<Seq<u8>>, kind: Seq<char>) -> Seq<u8> {
    let above = match superclass {
        Some(superclass) => classes::name_of("\", \"super\": \""@) + superclass,
        None => seq![],
    };
    classes::name_of("        { \"name\": \""@) + name + above + classes::name_of(
        "\", \"class_type\": \""@,
    ) + classes::name_of(kind) + classes::name_of("\" }"@)
}

/// Each class is listed as what it is.
pub proof fn law_class_in_dump(o: ObjCState, c: Class)
    ensures
        ({
            let text = search::json_class(o, c);
            let unknown = classes::name_of("<unknown>"@);
            &&& !o.objects.contains_key(c) ==> text == entry(unknown, None, "unknown"@)
            &&& o.objects.contains_key(c) ==> match o.objects[c] {
                ObjectView::Class { class } => if class.superclass == nil {
                    text == entry(class.name, None, "normal"@)
                } else {
                    text == entry(
                        class.name,
                        Some(o.class_name_or_unknown(class.superclass)),
                        "normal"@,
                    )
                },
                ObjectView::Unimplemented { name, .. } => text == entry(
                    name,
                    None,
                    "unimplemented"@,
                ),
                ObjectView::Fake { name, .. } => text == entry(name, None, "fake"@),
                ObjectView::Other => text == entry(unknown, None, "unknown"@),
            }
        }),
{
    let text = search::json_class(o, c);
    if o.objects.contains_key(c) {
        match o.objects[c] {
            ObjectView::Class { class } => {
                if class.superclass == nil {
                    assert(text =~= entry(class.name, None, "normal"@));
                } else {
                    assert(text =~= entry(
                        class.name,
                        Some(o.class_name_or_unknown(class.superclass)),
                        "normal"@,
                    ));
                }
            },
            ObjectView::Unimplemented { name, .. } => {
                assert(text =~= entry(name, None, "unimplemented"@));
            },
            ObjectView::Fake { name, .. } => {
                assert(text =~= entry(name, None, "fake"@));
            },
            ObjectView::Other => {
                assert(text =~= entry(classes::name_of("<unknown>"@), None, "unknown"@));
            },
        }
    } else {
        assert(text =~= entry(classes::name_of("<unknown>"@), None, "unknown"@));
    }
}

/// The classes are listed in the order in which they came, each in a line, with a comma
/// behind all but the last.
pub proof fn law_dump_lines(o: ObjCState, n: nat)
    requires
        n < o.classes.len(),
    ensures
        search::json_classes(o, 0).len() == 0,
        n + 1 < o.classes.len() ==> search::json_classes(o, n + 1) == search::json_classes(o, n)
            + search::json_class(o, o.classes[n as int].1) + classes::name_of(",\n"@),
        n + 1 == o.classes.len() ==> search::json_classes(o, n + 1) == search::json_classes(o, n)
            + search::json_class(o, o.classes[n as int].1) + classes::name_of("\n"@),
{
}

/// The list of all classes is a JSON object with the lines of the classes in it.
pub proof fn law_dump_whole(o: ObjCState)
    ensures
        search::json_dump(o) == classes::name_of(
            "{\n    \"object\": \"classes\",\n    \"classes\": [\n"@,
        ) + search::json_classes(o, o.classes.len()) + classes::name_of("    ]\n}\n"@),
{
}

/// There is one best class at most among those with a method, and it is preferred to the
/// others.
pub proof fn law_one_best(o: ObjCState, sel: SEL, i: int, j: int)
    requires
        o.is_best(sel, i),
        0 <= j < o.classes.len(),
        j != i,
    ensures
        o.class(o.classes[j].1) matches Some(k) && !k.is_metaclass && k.methods.contains_key(sel)
            ==> search::preferred(o.classes[i].0, o.classes[j].0),
        !o.is_best(sel, j),
{
    if o.is_best(sel, j) {
        assert(o.declares(sel, i) && o.declares(sel, j));
        lemma_not_both(o.classes[i].0, o.classes[j].0, 0);
    }
    if o.declares(sel, j) {
        assert(search::preferred(o.classes[i].0, o.classes[j].0));
    }
}

proof fn lemma_not_both(a: Seq<u8>, b: Seq<u8>, k: int)
    requires
        0 <= k,
    ensures
        !(search::less_from(a, b, k) && search::less_from(b, a, k)),
    decreases b.len() - k,
{
    if k < a.len() && k < b.len() && a[k] == b[k] {
        lemma_not_both(a, b, k + 1);
    }
}

/// The class of an object is what its first word points to, and nil has none.
pub proof fn law_class_of(env: EnvState, obj: u32)
    ensures
        env.class_of(nil) == nil,
        obj != nil ==> env.class_of(obj) == env.mem.peek_u32(obj),
{
}

} // verus!
