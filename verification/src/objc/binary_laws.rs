//! What registering the classes of the app binary is for.
use crate::libc::stdio::numerals;
use crate::libc::stdio::text;
use crate::mem;
use crate::mem::MemState;
use crate::objc::binary;
use crate::objc::binary::Methods;
use crate::objc::classes;
use crate::objc::classes::{Class, ClassView, Ivar, ObjCState, ObjectView, IMP, SEL};
use crate::objc::names;
use crate::objc::names::Entries;
use vstd::prelude::*;
use vstd::utf8::*;

verus! {

/// The word `offset` bytes behind `a`.
pub open spec fn field(m: MemState, a: u32, offset: int) -> u32 {
    m.peek_u32(mem::wrap(a + offset))
}

/// The address of entry `k` of a list: behind the size of an entry and their number.
#[verifier::opaque]
pub open spec fn nth(m: MemState, list: u32, k: int) -> u32 {
    mem::wrap(list + 8 + m.peek_u32(list) * k)
}

/// The number of entries of a list; there are none where there is no list.
pub open spec fn count(m: MemState, list: u32) -> int {
    if list == 0 {
        0
    } else {
        field(m, list, 4) as int
    }
}

/// What `find` has found under a name is found under it in `later` too.
pub open spec fn keeps<V>(earlier: Entries<V>, later: Entries<V>) -> bool {
    forall|name: Seq<u8>|
        (#[trigger] names::find(earlier, name)) is Some ==> names::find(later, name)
            == names::find(earlier, name)
}

// Methods

/// The selector of the name of entry `k` of a list of methods.
#[verifier::opaque]
pub open spec fn selector(m: MemState, list: u32, selectors: Entries<SEL>, k: int) -> Option<SEL> {
    names::find(selectors, m.cstr(field(m, nth(m, list, k), 0)))
}

/// Whether these are the first `n` methods of a list: the names have selectors, each
/// of which has the function and the type encoding of the last entry for it, and
/// there are no others.
pub open spec fn are_methods(
    m: MemState,
    list: u32,
    n: int,
    selectors: Entries<SEL>,
    methods: Map<SEL, IMP>,
    signatures: Map<SEL, u32>,
) -> bool {
    &&& forall|k: int| 0 <= k < n ==> (#[trigger] selector(m, list, selectors, k)) is Some
    &&& forall|k: int|
        0 <= k < n && #[trigger] is_last(m, list, n, selectors, k) ==> has_method(
            m,
            nth(m, list, k),
            selector(m, list, selectors, k).unwrap(),
            methods,
            signatures,
        )
    &&& forall|sel: SEL|
        methods.contains_key(sel) || signatures.contains_key(sel) ==> #[trigger] is_selector(
            m,
            list,
            n,
            selectors,
            sel,
        )
}

/// Whether `sel` has the function and the type encoding of the entry at `e`.
pub open spec fn has_method(
    m: MemState,
    e: u32,
    sel: SEL,
    methods: Map<SEL, IMP>,
    signatures: Map<SEL, u32>,
) -> bool {
    &&& methods.contains_key(sel)
    &&& methods[sel] == IMP::Guest { addr: field(m, e, 8) }
    &&& signatures.contains_key(sel)
    &&& signatures[sel] == field(m, e, 4)
}

/// Whether `sel` is the selector of one of the first `n` entries.
pub open spec fn is_selector(
    m: MemState,
    list: u32,
    n: int,
    selectors: Entries<SEL>,
    sel: SEL,
) -> bool {
    exists|k: int| 0 <= k < n && #[trigger] selector(m, list, selectors, k) == Some(sel)
}

/// Whether no later entry has the selector of entry `k`.
pub open spec fn is_last(
    m: MemState,
    list: u32,
    n: int,
    selectors: Entries<SEL>,
    k: int,
) -> bool {
    forall|j: int|
        k < j < n ==> #[trigger] selector(m, list, selectors, j) != selector(
            m,
            list,
            selectors,
            k,
        )
}

/// Methods stay methods when more selectors become known.
proof fn lemma_methods_stay(
    m: MemState,
    list: u32,
    n: int,
    earlier: Entries<SEL>,
    later: Entries<SEL>,
    methods: Map<SEL, IMP>,
    signatures: Map<SEL, u32>,
)
    requires
        are_methods(m, list, n, earlier, methods, signatures),
        keeps(earlier, later),
    ensures
        are_methods(m, list, n, later, methods, signatures),
{
    assert forall|k: int| 0 <= k < n implies #[trigger] selector(m, list, later, k) == selector(
        m,
        list,
        earlier,
        k,
    ) by {
        assert(selector(m, list, earlier, k) is Some);
        reveal(selector);
    }
    assert forall|k: int| 0 <= k < n implies (#[trigger] selector(m, list, later, k)) is Some by {
        assert(selector(m, list, earlier, k) is Some);
    }
    assert forall|k: int| 0 <= k < n && #[trigger] is_last(m, list, n, later, k) implies has_method(
        m,
        nth(m, list, k),
        selector(m, list, later, k).unwrap(),
        methods,
        signatures,
    ) by {
        assert forall|j: int| k < j < n implies #[trigger] selector(m, list, earlier, j)
            != selector(m, list, earlier, k) by {
            assert(selector(m, list, later, j) != selector(m, list, later, k));
        }
        assert(is_last(m, list, n, earlier, k));
    }
    assert forall|sel: SEL|
        methods.contains_key(sel) || signatures.contains_key(sel) implies #[trigger] is_selector(
        m,
        list,
        n,
        later,
        sel,
    ) by {
        assert(is_selector(m, list, n, earlier, sel));
        let k = choose|k: int|
            0 <= k < n && #[trigger] selector(m, list, earlier, k) == Some(sel);
        assert(selector(m, list, later, k) == Some(sel));
    }
}

proof fn lemma_keeps_selector(m: MemState, selectors: Entries<SEL>, ptr: u32)
    ensures
        keeps(selectors, binary::with_selector(m, selectors, ptr)),
        names::find(binary::with_selector(m, selectors, ptr), m.cstr(ptr)) == Some(
            binary::selector_at(m, selectors, ptr),
        ),
{
    let later = binary::with_selector(m, selectors, ptr);
    assert forall|name: Seq<u8>| (#[trigger] names::find(selectors, name)) is Some implies
        names::find(later, name) == names::find(selectors, name) by {
        names::lemma_find_put(selectors, m.cstr(ptr), ptr, name);
    }
    names::lemma_find_put(selectors, m.cstr(ptr), ptr, m.cstr(ptr));
}

proof fn lemma_keeps_both<V>(a: Entries<V>, b: Entries<V>, c: Entries<V>)
    requires
        keeps(a, b),
        keeps(b, c),
    ensures
        keeps(a, c),
{
    assert forall|name: Seq<u8>| (#[trigger] names::find(a, name)) is Some implies names::find(
        c,
        name,
    ) == names::find(a, name) by {
        assert(names::find(b, name) is Some);
    }
}

proof fn lemma_one_more(
    m: MemState,
    list: u32,
    l: int,
    selectors: Entries<SEL>,
    methods: Map<SEL, IMP>,
    signatures: Map<SEL, u32>,
    sel: SEL,
)
    requires
        0 <= l,
        are_methods(m, list, l, selectors, methods, signatures),
        selector(m, list, selectors, l) == Some(sel),
    ensures
        are_methods(
            m,
            list,
            l + 1,
            selectors,
            methods.insert(sel, IMP::Guest { addr: field(m, nth(m, list, l), 8) }),
            signatures.insert(sel, field(m, nth(m, list, l), 4)),
        ),
{
    let n = l + 1;
    let ms = methods.insert(sel, IMP::Guest { addr: field(m, nth(m, list, l), 8) });
    let ss = signatures.insert(sel, field(m, nth(m, list, l), 4));
    assert forall|k: int| 0 <= k < n && #[trigger] is_last(
        m,
        list,
        n,
        selectors,
        k,
    ) implies has_method(m, nth(m, list, k), selector(m, list, selectors, k).unwrap(), ms, ss) by {
        if k < l {
            assert(selector(m, list, selectors, l) != selector(m, list, selectors, k));
            assert(is_last(m, list, l, selectors, k));
            assert(selector(m, list, selectors, k) is Some);
        }
    }
    assert forall|s: SEL| ms.contains_key(s) || ss.contains_key(s) implies #[trigger] is_selector(
        m,
        list,
        n,
        selectors,
        s,
    ) by {
        if s == sel {
            assert(selector(m, list, selectors, l) == Some(s));
        } else {
            assert(is_selector(m, list, l, selectors, s));
            let k = choose|k: int|
                0 <= k < l && #[trigger] selector(m, list, selectors, k) == Some(s);
            assert(selector(m, list, selectors, k) == Some(s));
        }
    }
}

/// Reading a list of methods gives each of its selectors the function of the last
/// entry for it, and leaves known selectors as they are.
pub proof fn law_methods_read(m: MemState, list: u32, n: nat, selectors: Entries<SEL>)
    ensures
        ({
            let none = Methods { methods: Map::empty(), signatures: Map::empty(), selectors };
            let r = binary::methods_from(m, list, n, none);
            &&& are_methods(m, list, n as int, r.selectors, r.methods, r.signatures)
            &&& keeps(selectors, r.selectors)
        }),
    decreases n,
{
    let none = Methods { methods: Map::empty(), signatures: Map::empty(), selectors };
    let r = binary::methods_from(m, list, n, none);
    if n > 0 {
        let l = n - 1;
        let b = binary::methods_from(m, list, (n - 1) as nat, none);
        law_methods_read(m, list, (n - 1) as nat, selectors);
        let e = nth(m, list, l);
        assert(mem::wrap(list + 0) == list);
        assert(e == binary::entry(m, list, l)) by {
            reveal(nth);
        }
        lemma_keeps_selector(m, b.selectors, field(m, e, 0));
        lemma_keeps_both(selectors, b.selectors, r.selectors);
        lemma_methods_stay(m, list, l, b.selectors, r.selectors, b.methods, b.signatures);
        let sel = binary::selector_at(m, b.selectors, field(m, e, 0));
        assert(selector(m, list, r.selectors, l) == Some(sel)) by {
            reveal(selector);
        }
        lemma_one_more(m, list, l, r.selectors, b.methods, b.signatures, sel);
    }
}

// Instance variables and properties

/// Reading a list of instance variables gives each name what the last entry of that
/// name says: the address of the offset, and the alignment, a power of two.
pub proof fn law_ivars_read(m: MemState, list: u32, n: nat, name: Seq<u8>)
    ensures
        ({
            let named = |k: int| m.cstr(field(m, nth(m, list, k), 4)) == name;
            match names::find(binary::ivars_from(m, list, n), name) {
                Some(ivar) => exists|k: int|
                    0 <= k < n && #[trigger] named(k) && (forall|j: int|
                        k < j < n ==> !#[trigger] named(j)) && ivar.offset == field(
                        m,
                        nth(m, list, k),
                        0,
                    ) && is_alignment(ivar.alignment, field(m, nth(m, list, k), 12)),
                None => forall|k: int| 0 <= k < n ==> !#[trigger] named(k),
            }
        }),
    decreases n,
{
    if n > 0 {
        let named = |k: int| m.cstr(field(m, nth(m, list, k), 4)) == name;
        let l = n - 1;
        let e = nth(m, list, l);
        assert(mem::wrap(list + 0) == list);
        assert(e == binary::entry(m, list, l)) by {
            reveal(nth);
        }
        law_ivars_read(m, list, (n - 1) as nat, name);
        names::lemma_find_put(
            binary::ivars_from(m, list, (n - 1) as nat),
            m.cstr(field(m, e, 4)),
            Ivar {
                offset: field(m, e, 0),
                alignment: binary::alignment_of(field(m, e, 12)),
            },
            name,
        );
        lemma_alignment(field(m, e, 12));
        assert(named(l) || !named(l));
        if !named(l) {
            if let Some(ivar) = names::find(binary::ivars_from(m, list, (n - 1) as nat), name) {
                let k = choose|k: int|
                    0 <= k < l && #[trigger] named(k) && (forall|j: int|
                        k < j < l ==> !#[trigger] named(j)) && ivar.offset == field(
                        m,
                        nth(m, list, k),
                        0,
                    ) && is_alignment(ivar.alignment, field(m, nth(m, list, k), 12));
                assert(named(k));
            }
        }
    }
}

/// Whether `a` is two to the power of `raw`; four where that does not fit a word.
pub open spec fn is_alignment(a: u32, raw: u32) -> bool {
    if raw < 32 {
        a as nat == vstd::arithmetic::power2::pow2(raw as nat)
    } else {
        a == 4
    }
}

proof fn lemma_alignment(raw: u32)
    ensures
        is_alignment(binary::alignment_of(raw), raw),
{
    if raw < 32 {
        vstd::arithmetic::power2::lemma2_to64();
        if raw < 31 {
            vstd::arithmetic::power2::lemma_pow2_strictly_increases(raw as nat, 31);
        }
    }
}

/// Reading a list of properties gives each name the address of the last entry of
/// that name.
pub proof fn law_properties_read(m: MemState, list: u32, n: nat, name: Seq<u8>)
    ensures
        ({
            let named = |k: int| m.cstr(field(m, nth(m, list, k), 0)) == name;
            match names::find(binary::properties_from(m, list, n), name) {
                Some(p) => exists|k: int|
                    0 <= k < n && #[trigger] named(k) && (forall|j: int|
                        k < j < n ==> !#[trigger] named(j)) && p == nth(m, list, k),
                None => forall|k: int| 0 <= k < n ==> !#[trigger] named(k),
            }
        }),
    decreases n,
{
    if n > 0 {
        let named = |k: int| m.cstr(field(m, nth(m, list, k), 0)) == name;
        let l = n - 1;
        let e = nth(m, list, l);
        assert(mem::wrap(list + 0) == list);
        assert(e == binary::entry(m, list, l)) by {
            reveal(nth);
        }
        law_properties_read(m, list, (n - 1) as nat, name);
        names::lemma_find_put(
            binary::properties_from(m, list, (n - 1) as nat),
            m.cstr(field(m, e, 0)),
            e,
            name,
        );
        assert(named(l) || !named(l));
        if !named(l) {
            if let Some(p) = names::find(binary::properties_from(m, list, (n - 1) as nat), name) {
                let k = choose|k: int|
                    0 <= k < l && #[trigger] named(k) && (forall|j: int|
                        k < j < l ==> !#[trigger] named(j)) && p == nth(m, list, k);
                assert(named(k));
            }
        }
    }
}

// Classes

/// Whether `c` is the class that stands at `a` in the binary: its superclass, the
/// methods, the properties and the number of bytes of its own that are there.
pub open spec fn is_read(m: MemState, a: Class, selectors: Entries<SEL>, c: ClassView) -> bool {
    let data = field(m, a, 16);
    let list = field(m, data, 20);
    &&& c.superclass == field(m, a, 4)
    &&& are_methods(m, list, count(m, list), selectors, c.methods, c.signatures)
    &&& forall|name: Seq<u8>| is_property(m, field(m, data, 36), name, #[trigger]
        names::find(c.properties, name))
}

/// Whether `found` is the address of the last property of this name in a list.
pub open spec fn is_property(m: MemState, list: u32, name: Seq<u8>, found: Option<u32>) -> bool {
    let n = count(m, list);
    match found {
        Some(p) => exists|k: int|
            0 <= k < n && p == #[trigger] nth(m, list, k) && m.cstr(field(m, p, 0)) == name && (
            forall|j: int|
                k < j < n ==> m.cstr(field(m, #[trigger] nth(m, list, j), 0)) != name),
        None => forall|k: int|
            0 <= k < n ==> m.cstr(field(m, #[trigger] nth(m, list, k), 0)) != name,
    }
}

/// Whether `found` is the last instance variable of this name in a list.
pub open spec fn is_ivar(m: MemState, list: u32, name: Seq<u8>, found: Option<Ivar>) -> bool {
    let n = count(m, list);
    match found {
        Some(v) => exists|k: int|
            0 <= k < n && v.offset == field(m, #[trigger] nth(m, list, k), 0) && is_alignment(
                v.alignment,
                field(m, nth(m, list, k), 12),
            ) && m.cstr(field(m, nth(m, list, k), 4)) == name && (forall|j: int|
                k < j < n ==> m.cstr(field(m, #[trigger] nth(m, list, j), 4)) != name),
        None => forall|k: int|
            0 <= k < n ==> m.cstr(field(m, #[trigger] nth(m, list, k), 4)) != name,
    }
}

proof fn lemma_property(m: MemState, list: u32, name: Seq<u8>)
    ensures
        is_property(
            m,
            list,
            name,
            names::find(
                if list == 0 {
                    seq![]
                } else {
                    binary::properties_from(m, list, binary::entry_count(m, list))
                },
                name,
            ),
        ),
{
    if list != 0 {
        let n = count(m, list);
        assert(n == binary::entry_count(m, list));
        law_properties_read(m, list, n as nat, name);
        let named = |k: int| m.cstr(field(m, nth(m, list, k), 0)) == name;
        match names::find(binary::properties_from(m, list, n as nat), name) {
            Some(p) => {
                let k = choose|k: int|
                    0 <= k < n && #[trigger] named(k) && (forall|j: int|
                        k < j < n ==> !#[trigger] named(j)) && p == nth(m, list, k);
                assert(p == nth(m, list, k));
                assert forall|j: int| k < j < n implies m.cstr(
                    field(m, #[trigger] nth(m, list, j), 0),
                ) != name by {
                    assert(!named(j));
                }
            },
            None => {
                assert forall|k: int| 0 <= k < n implies m.cstr(
                    field(m, #[trigger] nth(m, list, k), 0),
                ) != name by {
                    assert(!named(k));
                }
            },
        }
    }
}

proof fn lemma_ivar(m: MemState, list: u32, name: Seq<u8>)
    ensures
        is_ivar(
            m,
            list,
            name,
            names::find(
                if list == 0 {
                    seq![]
                } else {
                    binary::ivars_from(m, list, binary::entry_count(m, list))
                },
                name,
            ),
        ),
{
    if list != 0 {
        let n = count(m, list);
        assert(n == binary::entry_count(m, list));
        law_ivars_read(m, list, n as nat, name);
        let named = |k: int| m.cstr(field(m, nth(m, list, k), 4)) == name;
        match names::find(binary::ivars_from(m, list, n as nat), name) {
            Some(v) => {
                let k = choose|k: int|
                    0 <= k < n && #[trigger] named(k) && (forall|j: int|
                        k < j < n ==> !#[trigger] named(j)) && v.offset == field(
                        m,
                        nth(m, list, k),
                        0,
                    ) && is_alignment(v.alignment, field(m, nth(m, list, k), 12));
                assert(v.offset == field(m, nth(m, list, k), 0));
                assert forall|j: int| k < j < n implies m.cstr(
                    field(m, #[trigger] nth(m, list, j), 4),
                ) != name by {
                    assert(!named(j));
                }
            },
            None => {
                assert forall|k: int| 0 <= k < n implies m.cstr(
                    field(m, #[trigger] nth(m, list, k), 4),
                ) != name by {
                    assert(!named(k));
                }
            },
        }
    }
}

/// A class is read as it stands in the binary: with its superclass, its methods, its
/// properties, and with the size and the instance variables that it has there. Its
/// name is the string there, if that is text.
pub proof fn law_class_read(
    m: MemState,
    a: Class,
    is_metaclass: bool,
    selectors: Entries<SEL>,
    name: Seq<u8>,
)
    ensures
        ({
            let c = binary::bin_class(m, a, is_metaclass, selectors);
            let later = binary::bin_methods(m, a, selectors).selectors;
            let data = field(m, a, 16);
            &&& is_read(m, a, later, c)
            &&& keeps(selectors, later)
            &&& c.is_metaclass == is_metaclass
            &&& c.instance_start == field(m, data, 4)
            &&& c.instance_size == field(m, data, 8)
            &&& is_ivar(m, field(m, data, 28), name, names::find(c.ivars, name))
            &&& valid_utf8(m.cstr(field(m, data, 16))) ==> c.name == m.cstr(field(m, data, 16))
        }),
{
    let c = binary::bin_class(m, a, is_metaclass, selectors);
    let data = field(m, a, 16);
    let list = field(m, data, 20);
    if list != 0 {
        law_methods_read(m, list, field(m, list, 4) as nat, selectors);
    }
    lemma_ivar(m, field(m, data, 28), name);
    assert forall|other: Seq<u8>| is_property(
        m,
        field(m, data, 36),
        other,
        #[trigger] names::find(c.properties, other),
    ) by {
        lemma_property(m, field(m, data, 36), other);
    }
}

/// Registering a class that is not replaced by a fake registers the class and its
/// metaclass as they stand in the binary, the metaclass with its own methods but the
/// name of the class, and the class is known by that name.
#[verifier::spinoff_prover]
#[verifier::rlimit(60)]
pub proof fn law_class_registered(o: ObjCState, m: MemState, bundle: Seq<u8>, class: Class)
    requires
        binary::substitution(bundle, m, class, field(m, class, 0)) is None,
        field(m, class, 0) != class,
    ensures
        ({
            let r = binary::with_bin_class(o, m, bundle, class);
            let metaclass = field(m, class, 0);
            let c = r.class(class).unwrap();
            let mc = r.class(metaclass).unwrap();
            &&& r.class(class) is Some && r.class(metaclass) is Some
            &&& is_read(m, class, r.selectors, c)
            &&& is_read(m, metaclass, r.selectors, mc)
            &&& !c.is_metaclass && mc.is_metaclass
            &&& mc.name == c.name
            &&& names::find(r.classes, c.name) == Some(class)
            &&& c.instance_start == field(m, field(m, class, 16), 4)
            &&& c.instance_size == field(m, field(m, class, 16), 8)
            &&& mc.instance_start == field(m, field(m, metaclass, 16), 4)
            &&& mc.instance_size == field(m, field(m, metaclass, 16), 8)
            &&& keeps(o.selectors, r.selectors)
        }),
{
    let metaclass = field(m, class, 0);
    assert(mem::wrap(class + 0) == class);
    let s1 = binary::bin_methods(m, class, o.selectors).selectors;
    let r = binary::with_bin_class(o, m, bundle, class);
    law_class_read(m, class, false, o.selectors, seq![]);
    law_class_read(m, metaclass, true, s1, seq![]);
    lemma_keeps_both(o.selectors, s1, r.selectors);
    let c = binary::bin_class(m, class, false, o.selectors);
    let list = field(m, field(m, class, 16), 20);
    lemma_methods_stay(m, list, count(m, list), s1, r.selectors, c.methods, c.signatures);
    names::lemma_find_put(o.classes, c.name, class, c.name);
}

/// The name of a fake is the name in the binary.
proof fn lemma_substituted_name(m: MemState, bundle: Seq<u8>, class: Class, metaclass: Class)
    ensures
        binary::substitution(bundle, m, class, metaclass) matches Some(name) ==> name == m.cstr(
            field(m, field(m, class, 16), 16),
        ),
{
}

spec fn faked(o: ObjCState, class: Class, metaclass: Class, name: Seq<u8>) -> ObjCState {
    let o1 = o.with_object(class, ObjectView::Fake { name, is_metaclass: false });
    let o2 = o1.with_object(metaclass, ObjectView::Fake { name, is_metaclass: true });
    ObjCState { classes: names::put(o2.classes, name, class), ..o2 }
}

proof fn lemma_faked(o: ObjCState, class: Class, metaclass: Class, name: Seq<u8>)
    ensures
        ({
            let r = faked(o, class, metaclass, name);
            &&& r.objects.contains_key(class) && r.objects[class] is Fake
            &&& r.objects.contains_key(metaclass) && r.objects[metaclass] is Fake
            &&& r.class_name(class) == Some(name) && r.class_name(metaclass) == Some(name)
            &&& names::find(r.classes, name) == Some(class)
            &&& r.selectors == o.selectors
        }),
{
    names::lemma_find_put(o.classes, name, class, name);
}

/// A class that is replaced by a fake is a fake of its own name, and so is its
/// metaclass; nothing of the binary is read for it.
#[verifier::spinoff_prover]
#[verifier::rlimit(60)]
pub proof fn law_class_faked(o: ObjCState, m: MemState, bundle: Seq<u8>, class: Class)
    ensures
        binary::substitution(bundle, m, class, field(m, class, 0)) is Some ==> {
            let r = binary::with_bin_class(o, m, bundle, class);
            let metaclass = field(m, class, 0);
            let name = m.cstr(field(m, field(m, class, 16), 16));
            &&& r.objects.contains_key(class) && r.objects[class] is Fake
            &&& r.objects.contains_key(metaclass) && r.objects[metaclass] is Fake
            &&& r.class_name(class) == Some(name) && r.class_name(metaclass) == Some(name)
            &&& names::find(r.classes, name) == Some(class)
            &&& r.selectors == o.selectors
        },
{
    assert(mem::wrap(class + 0) == class);
    let metaclass = field(m, class, 0);
    let name = m.cstr(field(m, field(m, class, 16), 16));
    lemma_substituted_name(m, bundle, class, metaclass);
    lemma_faked(o, class, metaclass, name);
    let found = binary::substitution(bundle, m, class, metaclass);
    if found is Some {
        assert(found == Some(name));
        assert(binary::with_bin_class(o, m, bundle, class) == faked(o, class, metaclass, name));
    }
}

/// The class at index `i` of a section.
pub open spec fn listed(m: MemState, base: u32, i: int) -> Class {
    field(m, base, 4 * i)
}

/// Whether entry `j` of a section is about other classes than entry `i`.
pub open spec fn differs(m: MemState, base: u32, i: int, j: int) -> bool {
    let a = listed(m, base, i);
    let b = listed(m, base, j);
    &&& a != b && a != field(m, b, 0)
    &&& field(m, a, 0) != b && field(m, a, 0) != field(m, b, 0)
}

/// Registering a class changes nothing about the others, but adds selectors.
#[verifier::spinoff_prover]
#[verifier::rlimit(80)]
proof fn lemma_others_stay(o: ObjCState, m: MemState, bundle: Seq<u8>, class: Class, other: Class)
    requires
        other != class,
        other != field(m, class, 0),
    ensures
        ({
            let r = binary::with_bin_class(o, m, bundle, class);
            &&& r.class(other) == o.class(other)
            &&& r.objects.contains_key(other) == o.objects.contains_key(other)
            &&& o.objects.contains_key(other) ==> r.objects[other] == o.objects[other]
            &&& keeps(o.selectors, r.selectors)
        }),
{
    assert(mem::wrap(class + 0) == class);
    let metaclass = field(m, class, 0);
    let s1 = binary::bin_methods(m, class, o.selectors).selectors;
    law_class_read(m, class, false, o.selectors, seq![]);
    law_class_read(m, metaclass, true, s1, seq![]);
    let s2 = binary::bin_methods(m, metaclass, s1).selectors;
    lemma_keeps_both(o.selectors, s1, s2);
}

proof fn lemma_registered(
    o: ObjCState,
    m: MemState,
    bundle: Seq<u8>,
    base: u32,
    n: nat,
    i: int,
)
    requires
        0 <= i < n,
        binary::substitution(bundle, m, listed(m, base, i), field(m, listed(m, base, i), 0)) is None,
        field(m, listed(m, base, i), 0) != listed(m, base, i),
        forall|j: int| i < j < n ==> #[trigger] differs(m, base, i, j),
    ensures
        ({
            let r = binary::with_bin_classes(o, m, bundle, base, n);
            let class = listed(m, base, i);
            let metaclass = field(m, class, 0);
            let c = r.class(class).unwrap();
            let mc = r.class(metaclass).unwrap();
            &&& r.class(class) is Some && r.class(metaclass) is Some
            &&& is_read(m, class, r.selectors, c)
            &&& is_read(m, metaclass, r.selectors, mc)
            &&& !c.is_metaclass && mc.is_metaclass
            &&& mc.name == c.name
            &&& valid_utf8(m.cstr(field(m, field(m, class, 16), 16))) ==> c.name == m.cstr(
                field(m, field(m, class, 16), 16),
            )
        }),
    decreases n,
{
    let b = binary::with_bin_classes(o, m, bundle, base, (n - 1) as nat);
    let last = listed(m, base, n - 1);
    let class = listed(m, base, i);
    let metaclass = field(m, class, 0);
    if i == n - 1 {
        law_class_registered(b, m, bundle, class);
        law_class_read(m, class, false, b.selectors, seq![]);
    } else {
        lemma_registered(o, m, bundle, base, (n - 1) as nat, i);
        assert(differs(m, base, i, n - 1));
        lemma_others_stay(b, m, bundle, last, class);
        lemma_others_stay(b, m, bundle, last, metaclass);
        let r = binary::with_bin_classes(o, m, bundle, base, n);
        let c = b.class(class).unwrap();
        let mc = b.class(metaclass).unwrap();
        let l1 = field(m, field(m, class, 16), 20);
        let l2 = field(m, field(m, metaclass, 16), 20);
        lemma_methods_stay(m, l1, count(m, l1), b.selectors, r.selectors, c.methods, c.signatures);
        lemma_methods_stay(
            m,
            l2,
            count(m, l2),
            b.selectors,
            r.selectors,
            mc.methods,
            mc.signatures,
        );
    }
}

/// Reconciliation changes where the instances of a class start and end and where its
/// instance variables are, and nothing else.
pub proof fn law_reconciled_keeps(o: ObjCState, c: Class)
    ensures
        ({
            let r = o.reconciled();
            &&& r.class(c) is Some <==> o.class(c) is Some
            &&& o.class(c) matches Some(before) ==> {
                let after = r.class(c).unwrap();
                after == (ClassView {
                    instance_start: after.instance_start,
                    instance_size: after.instance_size,
                    ivars: after.ivars,
                    ..before
                })
            }
            &&& r.selectors == o.selectors
            &&& r.classes == o.classes
        }),
{
    if o.objects.contains_key(c) {
        if exists|n: nat| o.rooted(c, n) {
            let n = choose|n: nat| o.rooted(c, n);
            assert(o.reconciled().class(c) == Some(o.layout(c, n)));
        }
    }
}

/// After the classes of a binary were registered, each class of the section that is
/// not replaced by a fake, and its metaclass, have the superclass that stands in the
/// binary, and exactly the methods that do: each selector of the list has the
/// function of the last entry for it, for classes and metaclasses alike.
pub proof fn law_classes_registered(
    o: ObjCState,
    m: MemState,
    bundle: Seq<u8>,
    base: u32,
    n: nat,
    i: int,
)
    requires
        0 <= i < n,
        binary::substitution(bundle, m, listed(m, base, i), field(m, listed(m, base, i), 0)) is None,
        field(m, listed(m, base, i), 0) != listed(m, base, i),
        forall|j: int| i < j < n ==> #[trigger] differs(m, base, i, j),
    ensures
        ({
            let r = binary::with_bin_classes(o, m, bundle, base, n).reconciled();
            let class = listed(m, base, i);
            let metaclass = field(m, class, 0);
            let c = r.class(class).unwrap();
            let mc = r.class(metaclass).unwrap();
            &&& r.class(class) is Some && r.class(metaclass) is Some
            &&& is_read(m, class, r.selectors, c)
            &&& is_read(m, metaclass, r.selectors, mc)
            &&& !c.is_metaclass && mc.is_metaclass
            &&& mc.name == c.name
            &&& valid_utf8(m.cstr(field(m, field(m, class, 16), 16))) ==> c.name == m.cstr(
                field(m, field(m, class, 16), 16),
            )
        }),
{
    lemma_registered(o, m, bundle, base, n, i);
    let b = binary::with_bin_classes(o, m, bundle, base, n);
    law_reconciled_keeps(b, listed(m, base, i));
    law_reconciled_keeps(b, field(m, listed(m, base, i), 0));
}

// Categories

/// Whether a class got the methods of a list: each selector in it has the function and
/// the type encoding of the last entry for it, all others have what they had, and
/// nothing else of the class changed.
pub open spec fn are_added(
    m: MemState,
    list: u32,
    selectors: Entries<SEL>,
    before: ClassView,
    after: ClassView,
) -> bool {
    let n = count(m, list);
    &&& forall|k: int| 0 <= k < n ==> (#[trigger] selector(m, list, selectors, k)) is Some
    &&& forall|k: int|
        0 <= k < n && #[trigger] is_last(m, list, n, selectors, k) ==> has_method(
            m,
            nth(m, list, k),
            selector(m, list, selectors, k).unwrap(),
            after.methods,
            after.signatures,
        )
    &&& forall|sel: SEL|
        !(#[trigger] is_selector(m, list, n, selectors, sel)) ==> same_method(before, after, sel)
    &&& after == (ClassView {
        methods: after.methods,
        signatures: after.signatures,
        ..before
    })
}

/// Whether a class has the same under this selector as before.
pub open spec fn same_method(before: ClassView, after: ClassView, sel: SEL) -> bool {
    &&& after.methods.contains_key(sel) == before.methods.contains_key(sel)
    &&& after.methods.contains_key(sel) ==> after.methods[sel] == before.methods[sel]
    &&& after.signatures.contains_key(sel) == before.signatures.contains_key(sel)
    &&& after.signatures.contains_key(sel) ==> after.signatures[sel] == before.signatures[sel]
}

proof fn lemma_added_to(m: MemState, list: u32, n: nat, start: Methods)
    ensures
        ({
            let none = Methods {
                methods: Map::empty(),
                signatures: Map::empty(),
                selectors: start.selectors,
            };
            let own = binary::methods_from(m, list, n, none);
            let all = binary::methods_from(m, list, n, start);
            &&& all.selectors == own.selectors
            &&& all.methods == start.methods.union_prefer_right(own.methods)
            &&& all.signatures == start.signatures.union_prefer_right(own.signatures)
        }),
    decreases n,
{
    let none = Methods {
        methods: Map::empty(),
        signatures: Map::empty(),
        selectors: start.selectors,
    };
    let own = binary::methods_from(m, list, n, none);
    let all = binary::methods_from(m, list, n, start);
    if n > 0 {
        lemma_added_to(m, list, (n - 1) as nat, start);
    }
    assert(all.methods =~= start.methods.union_prefer_right(own.methods));
    assert(all.signatures =~= start.signatures.union_prefer_right(own.signatures));
}

proof fn lemma_list_added(o: ObjCState, m: MemState, class: Class, list: u32, later: Entries<SEL>)
    requires
        o.class(class) is Some,
        keeps(binary::with_category_methods(o, m, class, list).selectors, later),
    ensures
        ({
            let r = binary::with_category_methods(o, m, class, list);
            &&& r.class(class) is Some
            &&& are_added(m, list, later, o.class(class).unwrap(), r.class(class).unwrap())
            &&& keeps(o.selectors, r.selectors)
            &&& r == (ObjCState { selectors: r.selectors, objects: r.objects, ..o })
            &&& r.objects.remove(class) == o.objects.remove(class)
            &&& forall|other: Class| other != class ==> #[trigger] r.class(other) == o.class(other)
        }),
{
    let r = binary::with_category_methods(o, m, class, list);
    let before = o.class(class).unwrap();
    let after = r.class(class).unwrap();
    assert(r.objects.remove(class) =~= o.objects.remove(class));
    if list != 0 {
        let n = binary::entry_count(m, list);
        let start = Methods {
            methods: before.methods,
            signatures: before.signatures,
            selectors: o.selectors,
        };
        let none = Methods {
            methods: Map::empty(),
            signatures: Map::empty(),
            selectors: o.selectors,
        };
        let own = binary::methods_from(m, list, n, none);
        lemma_added_to(m, list, n, start);
        law_methods_read(m, list, n, o.selectors);
        lemma_methods_stay(
            m,
            list,
            n as int,
            own.selectors,
            later,
            own.methods,
            own.signatures,
        );
        assert(n == count(m, list));
        assert forall|k: int| 0 <= k < n && #[trigger] is_last(
            m,
            list,
            n as int,
            later,
            k,
        ) implies has_method(
            m,
            nth(m, list, k),
            selector(m, list, later, k).unwrap(),
            after.methods,
            after.signatures,
        ) by {
            assert(has_method(
                m,
                nth(m, list, k),
                selector(m, list, later, k).unwrap(),
                own.methods,
                own.signatures,
            ));
        }
        assert forall|sel: SEL|
            !(#[trigger] is_selector(m, list, n as int, later, sel)) implies same_method(
            before,
            after,
            sel,
        ) by {
            assert(!own.methods.contains_key(sel));
            assert(!own.signatures.contains_key(sel));
        }
    }
}

proof fn lemma_list_ignored(o: ObjCState, m: MemState, class: Class, list: u32)
    requires
        o.class(class) is None,
    ensures
        binary::with_category_methods(o, m, class, list) == o,
{
}

/// A category adds the methods of its first list to its class and those of its second
/// list to the metaclass, in front of what they had under the same selectors. Nothing
/// else of the two changes, no other object does, and classes keep their names. A class
/// that is its own metaclass is left out.
pub proof fn law_category_added(o: ObjCState, m: MemState, cat: u32)
    requires
        valid_utf8(m.cstr(field(m, cat, 0))),
        o.class(field(m, cat, 4)) is Some,
        o.class(field(m, field(m, cat, 4), 0)) is Some,
        field(m, cat, 4) != field(m, field(m, cat, 4), 0),
    ensures
        ({
            let class = field(m, cat, 4);
            let metaclass = field(m, class, 0);
            let r = binary::with_category(o, m, cat);
            &&& r.class(class) is Some && r.class(metaclass) is Some
            &&& are_added(
                m,
                field(m, cat, 8),
                r.selectors,
                o.class(class).unwrap(),
                r.class(class).unwrap(),
            )
            &&& are_added(
                m,
                field(m, cat, 12),
                r.selectors,
                o.class(metaclass).unwrap(),
                r.class(metaclass).unwrap(),
            )
            &&& keeps(o.selectors, r.selectors)
            &&& r.classes == o.classes
            &&& r.objects.remove(class).remove(metaclass) == o.objects.remove(class).remove(
                metaclass,
            )
        }),
{
    let class = field(m, cat, 4);
    let metaclass = field(m, class, 0);
    let r = binary::with_category(o, m, cat);
    assert(mem::wrap(class + 0) == class);
    let s = binary::with_category_methods(o, m, class, field(m, cat, 8));
    assert(r == binary::with_category_methods(s, m, metaclass, field(m, cat, 12)));
    lemma_list_added(o, m, class, field(m, cat, 8), s.selectors);
    assert(s.class(metaclass) == o.class(metaclass));
    lemma_list_added(s, m, metaclass, field(m, cat, 12), r.selectors);
    lemma_list_added(o, m, class, field(m, cat, 8), r.selectors);
    lemma_keeps_both(o.selectors, s.selectors, r.selectors);
    assert(r.class(class) == s.class(class));
    assert(s.objects.remove(class).remove(metaclass) =~= o.objects.remove(class).remove(metaclass));
    assert(r.objects.remove(class).remove(metaclass) =~= s.objects.remove(metaclass).remove(class));
    assert(s.objects.remove(metaclass).remove(class) =~= s.objects.remove(class).remove(metaclass));
}

/// A category of what is no class, and one whose name is not text, changes nothing.
pub proof fn law_category_ignored(o: ObjCState, m: MemState, cat: u32)
    requires
        !valid_utf8(m.cstr(field(m, cat, 0))) || (o.class(field(m, cat, 4)) is None && o.class(
            field(m, field(m, cat, 4), 0),
        ) is None),
    ensures
        binary::with_category(o, m, cat) == o,
{
    let class = field(m, cat, 4);
    assert(mem::wrap(class + 0) == class);
    if valid_utf8(m.cstr(field(m, cat, 0))) {
        lemma_list_ignored(o, m, class, field(m, cat, 8));
        lemma_list_ignored(o, m, field(m, class, 0), field(m, cat, 12));
    }
}

/// The categories of a section are registered in order, each on top of those before it:
/// what the first of them did is there before the others are looked at.
pub proof fn law_categories_in_order(o: ObjCState, m: MemState, base: u32, n: nat)
    ensures
        binary::with_categories(o, m, base, 0) == o,
        binary::with_categories(o, m, base, n + 1) == binary::with_category(
            binary::with_categories(o, m, base, n),
            m,
            listed(m, base, n as int),
        ),
{
}

// Names that are not text

/// A class whose name is not text is named by its address, in lower case hexadecimal
/// with eight digits or more, so that no two of them have the same name.
pub proof fn law_unreadable_name(m: MemState, a: Class, b: Class)
    requires
        !valid_utf8(m.cstr(field(m, field(m, a, 16), 16))),
        !valid_utf8(m.cstr(field(m, field(m, b, 16), 16))),
    ensures
        ({
            let start = classes::name_of("_touchHLE_UnreadableClass_"@);
            let name = binary::bin_name(m, a);
            &&& name.len() >= start.len()
            &&& name.take(start.len() as int) == start
            &&& numerals::is_number(name.skip(start.len() as int), a as nat, 16, false, 8)
            &&& a != b ==> binary::bin_name(m, b) != name
        }),
{
    let start = classes::name_of("_touchHLE_UnreadableClass_"@);
    let n = start.len() as int;
    let name = binary::bin_name(m, a);
    let other = binary::bin_name(m, b);
    numerals::lemma_filled(a as nat, 16, false, 8);
    numerals::lemma_filled(b as nat, 16, false, 8);
    assert(name.take(n) =~= start);
    assert(name.skip(n) =~= text::pad_start(text::digits(a as nat, 16, false), 8, 48));
    assert(other.skip(n) =~= text::pad_start(text::digits(b as nat, 16, false), 8, 48));
}

} // verus!
