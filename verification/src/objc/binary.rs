//! Classes and categories of the app binary.
use crate::libc::stdio::text;
use crate::mem;
use crate::mem::{Mem, MemState};
use crate::objc::classes;
use crate::objc::classes::{
    id, nil, Class, ClassHostObject, ClassView, HostObject, Ivar, ObjC, ObjCState, ObjectView, IMP, SEL,
};
use crate::objc::names;
use crate::objc::names::{Entries, Name, NameMap};
use std::collections::{HashMap, HashSet};
use vstd::prelude::*;
use vstd::utf8::*;

verus! {

broadcast use vstd::std_specs::hash::group_hash_axioms;

/// The word at `offset` bytes into a structure.
pub open spec fn word(m: MemState, base: u32, offset: int) -> u32 {
    m.peek_u32(mem::wrap(base + offset))
}

/// The address of entry `i` of a list. A list starts with the size of its
/// entries and their number.
pub open spec fn entry(m: MemState, list: u32, i: int) -> u32 {
    mem::wrap(list + 8 + word(m, list, 0) * i)
}

/// The number of entries of a list.
pub open spec fn entry_count(m: MemState, list: u32) -> nat {
    word(m, list, 4) as nat
}

/// Methods that were read from the binary, and the selectors that are known
/// then.
#[verifier::ext_equal]
pub struct Methods {
    pub methods: Map<SEL, IMP>,
    pub signatures: Map<SEL, u32>,
    pub selectors: Entries<SEL>,
}

/// The selector of the name at `ptr`: a known one of that name, or else the
/// name's address.
pub open spec fn selector_at(m: MemState, selectors: Entries<SEL>, ptr: u32) -> SEL {
    match names::find(selectors, m.cstr(ptr)) {
        Some(sel) => sel,
        None => ptr,
    }
}

/// The known selectors with the one of the name at `ptr`.
pub open spec fn with_selector(m: MemState, selectors: Entries<SEL>, ptr: u32) -> Entries<SEL> {
    match names::find(selectors, m.cstr(ptr)) {
        Some(_) => selectors,
        None => names::put(selectors, m.cstr(ptr), ptr),
    }
}

/// The methods with the first `n` methods of a list. A `method_t` holds the
/// addresses of the selector's name, the type encoding and the function.
pub open spec fn methods_from(m: MemState, list: u32, n: nat, start: Methods) -> Methods
    decreases n,
{
    if n == 0 {
        start
    } else {
        let before = methods_from(m, list, (n - 1) as nat, start);
        let e = entry(m, list, n - 1);
        let sel = selector_at(m, before.selectors, word(m, e, 0));
        Methods {
            methods: before.methods.insert(sel, IMP::Guest { addr: word(m, e, 8) }),
            signatures: before.signatures.insert(sel, word(m, e, 4)),
            selectors: with_selector(m, before.selectors, word(m, e, 0)),
        }
    }
}

/// The alignment in bytes, which the binary gives as a power of two; where
/// that makes no sense, it is that of a word.
pub open spec fn alignment_of(raw: u32) -> u32 {
    if raw < 32 {
        vstd::arithmetic::power2::pow2(raw as nat) as u32
    } else {
        4
    }
}

/// The first `n` instance variables of a list. An `ivar_t` holds the address
/// of the offset, the addresses of the name and the type, the alignment and
/// the size.
pub open spec fn ivars_from(m: MemState, list: u32, n: nat) -> Entries<Ivar>
    decreases n,
{
    if n == 0 {
        seq![]
    } else {
        let e = entry(m, list, n - 1);
        names::put(
            ivars_from(m, list, (n - 1) as nat),
            m.cstr(word(m, e, 4)),
            Ivar { offset: word(m, e, 0), alignment: alignment_of(word(m, e, 12)) },
        )
    }
}

/// The first `n` properties of a list: the addresses of the `property_t`
/// entries, which start with the address of the name.
pub open spec fn properties_from(m: MemState, list: u32, n: nat) -> Entries<u32>
    decreases n,
{
    if n == 0 {
        seq![]
    } else {
        let e = entry(m, list, n - 1);
        names::put(properties_from(m, list, (n - 1) as nat), m.cstr(word(m, e, 0)), e)
    }
}

/// The address of the data of a class in the binary.
pub open spec fn class_data(m: MemState, class: Class) -> u32 {
    word(m, class, 16)
}

/// The name of a class in the binary, which may not be text.
pub open spec fn raw_name(m: MemState, class: Class) -> Seq<u8> {
    m.cstr(word(m, class_data(m, class), 16))
}

/// The name of a class in the binary. A name that is not text, e.g. because
/// it is still encrypted, is replaced by one made of the class's address.
pub open spec fn bin_name(m: MemState, class: Class) -> Seq<u8> {
    if valid_utf8(raw_name(m, class)) {
        raw_name(m, class)
    } else {
        classes::name_of("_touchHLE_UnreadableClass_"@) + text::pad_start(
            text::digits(class as nat, 16, false),
            8,
            '0' as u8,
        )
    }
}

/// The methods of a class in the binary.
pub open spec fn bin_methods(m: MemState, class: Class, selectors: Entries<SEL>) -> Methods {
    let list = word(m, class_data(m, class), 20);
    let none = Methods { methods: Map::empty(), signatures: Map::empty(), selectors };
    if list == 0 {
        none
    } else {
        methods_from(m, list, entry_count(m, list), none)
    }
}

/// A class in the binary.
pub open spec fn bin_class(
    m: MemState,
    class: Class,
    is_metaclass: bool,
    selectors: Entries<SEL>,
) -> ClassView {
    let data = class_data(m, class);
    let ivars = word(m, data, 28);
    let properties = word(m, data, 36);
    ClassView {
        name: bin_name(m, class),
        is_metaclass,
        superclass: word(m, class, 4),
        methods: bin_methods(m, class, selectors).methods,
        signatures: bin_methods(m, class, selectors).signatures,
        ivars: if ivars == 0 {
            seq![]
        } else {
            ivars_from(m, ivars, entry_count(m, ivars))
        },
        properties: if properties == 0 {
            seq![]
        } else {
            properties_from(m, properties, entry_count(m, properties))
        },
        instance_start: word(m, data, 4),
        instance_size: word(m, data, 8),
    }
}

/// Whether a class of this name in the binary is replaced by a fake one.
pub open spec fn is_substituted(bundle_identifier: Seq<u8>, name: Seq<u8>) -> bool {
    // Part of a social SDK: its splash screen never finishes without servers
    // that are long gone.
    ||| name == classes::name_of("CCModalViewController"@)
    ||| classes::starts_with(name, "AdMob"@)
    ||| classes::starts_with(name, "AltAds"@)
    ||| classes::starts_with(name, "Mobclix"@)
    ||| classes::starts_with(name, "FB"@)
    ||| classes::starts_with(name, "Flurry"@)
    ||| classes::starts_with(name, "OpenFeint"@)
    ||| classes::starts_with(name, "Tapjoy"@)
    ||| classes::starts_with(name, "UA"@)
    ||| classes::starts_with(name, "GAD"@)
    ||| classes::starts_with(name, "RevMob"@)
    ||| classes::starts_with(name, "iSimulate"@)
    ||| classes::starts_with(name, "ALSdk"@)
    ||| classes::starts_with(name, "ALAd"@)
    ||| classes::starts_with(name, "ALEvent"@)
    ||| classes::starts_with(name, "ALIncentivized"@)
    ||| classes::starts_with(name, "ALTargeting"@)
    ||| classes::starts_with(name, "ALPrivacy"@)
    ||| bundle_identifier == classes::name_of("com.chillingo.defenderchronicles"@) && name
        == classes::name_of("OFHighScoreService"@)
}

/// The name of the fakes that replace a class and its metaclass, if they are
/// replaced. Names that are not text, or differ, are left alone.
pub open spec fn substitution(
    bundle_identifier: Seq<u8>,
    m: MemState,
    class: Class,
    metaclass: Class,
) -> Option<Seq<u8>> {
    let name = raw_name(m, class);
    if valid_utf8(name) && is_substituted(bundle_identifier, name) && raw_name(m, metaclass)
        == name {
        Some(name)
    } else {
        None
    }
}

/// The tables after the class at `class` was registered. The metaclass always
/// has the name of the class.
pub open spec fn with_bin_class(
    o: ObjCState,
    m: MemState,
    bundle_identifier: Seq<u8>,
    class: Class,
) -> ObjCState {
    let metaclass = m.peek_u32(class);
    match substitution(bundle_identifier, m, class, metaclass) {
        Some(name) => {
            let o = o.with_object(class, ObjectView::Fake { name, is_metaclass: false });
            let o = o.with_object(metaclass, ObjectView::Fake { name, is_metaclass: true });
            ObjCState { classes: names::put(o.classes, name, class), ..o }
        },
        None => {
            let name = bin_name(m, class);
            let s1 = bin_methods(m, class, o.selectors).selectors;
            let s2 = bin_methods(m, metaclass, s1).selectors;
            let o1 = o.with_object(
                class,
                ObjectView::Class { class: bin_class(m, class, false, o.selectors) },
            );
            let o2 = o1.with_object(
                metaclass,
                ObjectView::Class {
                    class: ClassView { name, ..bin_class(m, metaclass, true, s1) },
                },
            );
            ObjCState { classes: names::put(o.classes, name, class), selectors: s2, ..o2 }
        },
    }
}

/// The tables after the first `n` classes of a section were registered.
pub open spec fn with_bin_classes(
    o: ObjCState,
    m: MemState,
    bundle_identifier: Seq<u8>,
    base: u32,
    n: nat,
) -> ObjCState
    decreases n,
{
    if n == 0 {
        o
    } else {
        with_bin_class(
            with_bin_classes(o, m, bundle_identifier, base, (n - 1) as nat),
            m,
            bundle_identifier,
            word(m, base, 4 * (n - 1)),
        )
    }
}

/// The word at `at` bytes into a structure.
fn read_word(mem: &Mem, base: u32, at: u32) -> (v: u32)
    ensures
        v == word(mem@, base, at as int),
{
    mem.read_u32(mem::offset(base, at))
}

/// The address of the entry behind the one at `e`.
fn next_entry(mem: &Mem, list: u32, e: u32, Ghost(i): Ghost<int>) -> (r: u32)
    requires
        e == entry(mem@, list, i),
    ensures
        r == entry(mem@, list, i + 1),
{
    let size: u32 = read_word(mem, list, 0);
    proof {
        assert(size * (i + 1) == size * i + size) by (nonlinear_arith);
        mem::lemma_wrap(list + 8 + size * i, size as int);
    }
    mem::offset(e, size)
}

/// The address of the first entry of a list.
fn first_entry(mem: &Mem, list: u32) -> (r: u32)
    ensures
        r == entry(mem@, list, 0),
{
    proof {
        assert(word(mem@, list, 0) * 0 == 0) by (nonlinear_arith);
    }
    mem::offset(list, 8)
}

/// The alignment in bytes.
fn alignment(raw: u32) -> (a: u32)
    ensures
        a == alignment_of(raw),
{
    if raw >= 32 {
        return 4;
    }
    let mut a: u64 = 1;
    let mut i: u32 = 0;
    proof {
        vstd::arithmetic::power2::lemma2_to64();
    }
    while i < raw
        invariant
            i <= raw < 32,
            a == vstd::arithmetic::power2::pow2(i as nat),
            a <= 0x8000_0000,
        decreases raw - i,
    {
        proof {
            vstd::arithmetic::power2::lemma_pow2_unfold((i + 1) as nat);
            vstd::arithmetic::power2::lemma2_to64();
            if i + 1 < 31 {
                vstd::arithmetic::power2::lemma_pow2_strictly_increases((i + 1) as nat, 31);
            }
        }
        a = a * 2;
        i += 1;
    }
    a as u32
}

impl ObjC {
    /// The selector of the name at `ptr`, which becomes known.
    fn register_bin_selector(&mut self, ptr: u32, mem: &Mem) -> (sel: SEL)
        ensures
            sel == selector_at(mem@, old(self)@.selectors, ptr),
            final(self)@ == (ObjCState {
                selectors: with_selector(mem@, old(self)@.selectors, ptr),
                ..old(self)@
            }),
    {
        let name: Name = mem.cstr_at(ptr);
        match self.lookup_selector(name.as_slice()) {
            Some(sel) => sel,
            None => {
                self.add_selector(name, ptr);
                ptr
            },
        }
    }
}

impl ClassHostObject {
    /// Adds the methods of a list.
    fn add_methods_from_bin(&mut self, list: u32, mem: &Mem, objc: &mut ObjC)
        ensures
            ({
                let r = methods_from(
                    mem@,
                    list,
                    entry_count(mem@, list),
                    Methods {
                        methods: old(self)@.methods,
                        signatures: old(self)@.signatures,
                        selectors: old(objc)@.selectors,
                    },
                );
                &&& final(self)@ == (ClassView {
                    methods: r.methods,
                    signatures: r.signatures,
                    ..old(self)@
                })
                &&& final(objc)@ == (ObjCState { selectors: r.selectors, ..old(objc)@ })
            }),
    {
        let count: u32 = read_word(mem, list, 4);
        let mut e: u32 = first_entry(mem, list);
        let mut i: u32 = 0;
        let ghost start = Methods {
            methods: self@.methods,
            signatures: self@.signatures,
            selectors: objc@.selectors,
        };
        while i < count
            invariant
                i <= count,
                e == entry(mem@, list, i as int),
                ({
                    let r = methods_from(mem@, list, i as nat, start);
                    &&& self@ == (ClassView {
                        methods: r.methods,
                        signatures: r.signatures,
                        ..old(self)@
                    })
                    &&& objc@ == (ObjCState { selectors: r.selectors, ..old(objc)@ })
                }),
            decreases count - i,
        {
            let name: u32 = read_word(mem, e, 0);
            let types: u32 = read_word(mem, e, 4);
            let imp: u32 = read_word(mem, e, 8);
            let sel: SEL = objc.register_bin_selector(name, mem);
            self.methods.insert(sel, IMP::Guest { addr: imp });
            self.guest_method_signatures.insert(sel, types);
            e = next_entry(mem, list, e, Ghost(i as int));
            i += 1;
        }
    }

    /// Adds the instance variables of a list to a class that has none.
    fn add_ivars_from_bin(&mut self, list: u32, mem: &Mem)
        requires
            old(self)@.ivars.len() == 0,
        ensures
            final(self)@ == (ClassView {
                ivars: ivars_from(mem@, list, entry_count(mem@, list)),
                ..old(self)@
            }),
    {
        let count: u32 = read_word(mem, list, 4);
        let mut e: u32 = first_entry(mem, list);
        let mut i: u32 = 0;
        proof {
            assert(self@.ivars =~= ivars_from(mem@, list, 0));
        }
        while i < count
            invariant
                i <= count,
                e == entry(mem@, list, i as int),
                self@ == (ClassView { ivars: ivars_from(mem@, list, i as nat), ..old(self)@ }),
            decreases count - i,
        {
            let name: Name = mem.cstr_at(read_word(mem, e, 4));
            let ivar: Ivar = Ivar {
                offset: read_word(mem, e, 0),
                alignment: alignment(read_word(mem, e, 12)),
            };
            self.ivars.insert(name, ivar);
            e = next_entry(mem, list, e, Ghost(i as int));
            i += 1;
        }
    }

    /// Adds the properties of a list to a class that has none.
    fn add_properties_from_bin(&mut self, list: u32, mem: &Mem)
        requires
            old(self)@.properties.len() == 0,
        ensures
            final(self)@ == (ClassView {
                properties: properties_from(mem@, list, entry_count(mem@, list)),
                ..old(self)@
            }),
    {
        let count: u32 = read_word(mem, list, 4);
        let mut e: u32 = first_entry(mem, list);
        let mut i: u32 = 0;
        proof {
            assert(self@.properties =~= properties_from(mem@, list, 0));
        }
        while i < count
            invariant
                i <= count,
                e == entry(mem@, list, i as int),
                self@ == (ClassView {
                    properties: properties_from(mem@, list, i as nat),
                    ..old(self)@
                }),
            decreases count - i,
        {
            let name: Name = mem.cstr_at(read_word(mem, e, 0));
            self.properties.insert(name, e);
            e = next_entry(mem, list, e, Ghost(i as int));
            i += 1;
        }
    }

    /// Reads a class of the binary.
    fn from_bin(class: Class, is_metaclass: bool, mem: &Mem, objc: &mut ObjC) -> (r: ClassHostObject)
        ensures
            r@ == bin_class(mem@, class, is_metaclass, old(objc)@.selectors),
            final(objc)@ == (ObjCState {
                selectors: bin_methods(mem@, class, old(objc)@.selectors).selectors,
                ..old(objc)@
            }),
    {
        let superclass: Class = read_word(mem, class, 4);
        let data: u32 = read_word(mem, class, 16);
        let mut r: ClassHostObject = ClassHostObject {
            name: class_name(mem, class),
            is_metaclass,
            superclass,
            methods: HashMap::new(),
            guest_method_signatures: HashMap::new(),
            ivars: NameMap::new(),
            properties: NameMap::new(),
            instance_start: read_word(mem, data, 4),
            instance_size: read_word(mem, data, 8),
        };
        let base_methods: u32 = read_word(mem, data, 20);
        let ivars: u32 = read_word(mem, data, 28);
        let properties: u32 = read_word(mem, data, 36);
        if base_methods != 0 {
            r.add_methods_from_bin(base_methods, mem, objc);
        }
        if ivars != 0 {
            r.add_ivars_from_bin(ivars, mem);
        }
        if properties != 0 {
            r.add_properties_from_bin(properties, mem);
        }
        proof {
            assert(r@ =~= bin_class(mem@, class, is_metaclass, old(objc)@.selectors));
        }
        r
    }
}

/// The name of a class in the binary.
fn class_name(mem: &Mem, class: Class) -> (name: Name)
    ensures
        name@ == bin_name(mem@, class),
{
    let data: u32 = read_word(mem, class, 16);
    let name: Name = mem.cstr_at(read_word(mem, data, 16));
    if text::char_count(&name).is_some() {
        return name;
    }
    let mut name: Name = classes::copy_name("_touchHLE_UnreadableClass_".as_bytes());
    text::push_pad_start(&mut name, &text::number_text(class as u64, 16, false), 8, '0' as u8);
    name
}

/// Whether a class of this name is replaced by a fake one.
fn substituted(bundle_identifier: &[u8], name: &[u8]) -> (b: bool)
    ensures
        b == is_substituted(bundle_identifier@, name@),
{
    classes::name_is(name, "CCModalViewController") || classes::has_prefix(name, "AdMob")
        || classes::has_prefix(name, "AltAds") || classes::has_prefix(name, "Mobclix")
        || classes::has_prefix(name, "FB") || classes::has_prefix(name, "Flurry")
        || classes::has_prefix(name, "OpenFeint") || classes::has_prefix(name, "Tapjoy")
        || classes::has_prefix(name, "UA") || classes::has_prefix(name, "GAD")
        || classes::has_prefix(name, "RevMob") || classes::has_prefix(name, "iSimulate")
        || classes::has_prefix(name, "ALSdk") || classes::has_prefix(name, "ALAd")
        || classes::has_prefix(name, "ALEvent") || classes::has_prefix(name, "ALIncentivized")
        || classes::has_prefix(name, "ALTargeting") || classes::has_prefix(name, "ALPrivacy") || (
    classes::name_is(bundle_identifier, "com.chillingo.defenderchronicles") && classes::name_is(
        name,
        "OFHighScoreService",
    ))
}

/// Decides whether a certain class/metaclass pair from the guest app should use
/// fake class host objects and returns their name if so.
pub fn substitute_classes(
    bundle_identifier: &[u8],
    mem: &Mem,
    class: Class,
    metaclass: Class,
) -> (r: Option<Name>)
    ensures
        r.is_some() == substitution(bundle_identifier@, mem@, class, metaclass).is_some(),
        r.is_some() ==> r.unwrap()@ == substitution(
            bundle_identifier@,
            mem@,
            class,
            metaclass,
        ).unwrap(),
{
    let name: Name = mem.cstr_at(read_word(mem, read_word(mem, class, 16), 16));
    if text::char_count(&name).is_none() {
        return None;
    }
    if !substituted(bundle_identifier, name.as_slice()) {
        return None;
    }
    let metaclass_name: Name = mem.cstr_at(
        read_word(mem, read_word(mem, metaclass, 16), 16),
    );
    if !names::same(name.as_slice(), metaclass_name.as_slice()) {
        return None;
    }
    Some(name)
}

/// A section of the binary.
#[derive(Clone, Copy, PartialEq, Eq, Structural, Debug)]
pub struct Section {
    pub addr: u32,
    pub size: u32,
}

impl ObjC {
    /// Registers the class at `class`.
    fn register_bin_class(&mut self, bundle_identifier: &[u8], class: Class, mem: &Mem)
        ensures
            final(self)@ == with_bin_class(old(self)@, mem@, bundle_identifier@, class),
    {
        let metaclass: Class = mem.read_u32(class);
        match substitute_classes(bundle_identifier, mem, class, metaclass) {
            Some(name) => {
                self.register_static_object(
                    class,
                    HostObject::Fake {
                        name: classes::copy_name(name.as_slice()),
                        is_metaclass: false,
                    },
                );
                self.register_static_object(
                    metaclass,
                    HostObject::Fake {
                        name: classes::copy_name(name.as_slice()),
                        is_metaclass: true,
                    },
                );
                self.add_class(name, class);
            },
            None => {
                let c: ClassHostObject = ClassHostObject::from_bin(class, false, mem, self);
                let mut m: ClassHostObject = ClassHostObject::from_bin(metaclass, true, mem, self);
                // A class and its metaclass always share the same name. The
                // class side is canonical.
                m.name = classes::copy_name(c.name.as_slice());
                let name: Name = classes::copy_name(c.name.as_slice());
                self.register_static_object(class, HostObject::Class { class: c });
                self.register_static_object(metaclass, HostObject::Class { class: m });
                self.add_class(name, class);
            },
        }
    }

    /// Registers the classes of a section.
    fn register_class_list(&mut self, bundle_identifier: &[u8], list: Section, mem: &Mem)
        ensures
            final(self)@ == with_bin_classes(
                old(self)@,
                mem@,
                bundle_identifier@,
                list.addr,
                (list.size / 4) as nat,
            ),
    {
        let n: u32 = list.size / 4;
        let mut i: u32 = 0;
        while i < n
            invariant
                i <= n,
                n == list.size / 4,
                self@ == with_bin_classes(
                    old(self)@,
                    mem@,
                    bundle_identifier@,
                    list.addr,
                    i as nat,
                ),
            decreases n - i,
        {
            let class: Class = read_word(mem, list.addr, 4 * i);
            self.register_bin_class(bundle_identifier, class, mem);
            i += 1;
        }
    }
}

// Ivar reconciliation: no superclass may have "grown into" any of its
// subclasses. (https://alwaysprocessing.blog/2023/03/12/objc-ivar-abi)

/// The largest alignment of these instance variables.
pub open spec fn max_alignment(ivars: Entries<Ivar>) -> u32
    decreases ivars.len(),
{
    if ivars.len() == 0 {
        1
    } else {
        let rest = max_alignment(ivars.drop_last());
        let last = ivars.last().1;
        if last.offset != 0 && last.alignment > rest {
            last.alignment
        } else {
            rest
        }
    }
}

/// The smallest multiple of `a` that is not less than `d`.
pub open spec fn round_up(d: int, a: int) -> int {
    (d + a - 1) / a * a
}

/// The instance variables after they have moved by `diff`.
pub open spec fn moved_ivars(ivars: Entries<Ivar>, diff: int) -> Entries<Ivar> {
    Seq::new(ivars.len(), |i: int| (ivars[i].0, moved_ivar(ivars[i].1, diff)))
}

pub open spec fn moved_ivar(ivar: Ivar, diff: int) -> Ivar {
    if ivar.offset == 0 {
        ivar
    } else {
        Ivar { offset: mem::wrap(ivar.offset + diff), ..ivar }
    }
}

/// How far the instance variables of a class have to move to start behind
/// `size` bytes, if they do not. They keep their alignment.
pub open spec fn overlap(class: ClassView, size: u32) -> int {
    let diff = size - class.instance_start;
    if class.ivars.len() == 0 {
        diff
    } else {
        round_up(diff, max_alignment(class.ivars) as int)
    }
}

/// The class with its instance variables behind those of a superclass whose
/// instances have `size` bytes.
pub open spec fn fitted(class: ClassView, size: u32) -> ClassView {
    let diff = overlap(class, size);
    if class.instance_start >= size {
        class
    } else {
        ClassView {
            instance_start: mem::wrap(class.instance_start + diff),
            instance_size: mem::wrap(class.instance_size + diff),
            ivars: moved_ivars(class.ivars, diff),
            ..class
        }
    }
}

impl ObjCState {
    /// Whether some name stands for this class.
    pub open spec fn is_named(self, c: Class) -> bool {
        exists|i: int| 0 <= i < self.classes.len() && (#[trigger] self.classes[i]).1 == c
    }

    /// Whether `c` is a named class whose superclasses are named classes too,
    /// the last of which, `n` steps up, has none.
    pub open spec fn rooted(self, c: Class, n: nat) -> bool
        decreases n,
    {
        &&& self.is_named(c)
        &&& self.class(c) is Some
        &&& if self.superclass(c) == nil {
            n == 0
        } else {
            n > 0 && self.rooted(self.superclass(c), (n - 1) as nat)
        }
    }

    /// The class `c`, which is rooted, after reconciliation with its
    /// superclasses.
    pub open spec fn layout(self, c: Class, n: nat) -> ClassView
        decreases n,
    {
        let class = self.class(c).unwrap();
        if n == 0 {
            class
        } else {
            fitted(class, self.layout(class.superclass, (n - 1) as nat).instance_size)
        }
    }

    /// The object at `c` after reconciliation.
    pub open spec fn reconciled_object(self, c: Class) -> ObjectView {
        if exists|n: nat| self.rooted(c, n) {
            ObjectView::Class { class: self.layout(c, choose|n: nat| self.rooted(c, n)) }
        } else {
            self.objects[c]
        }
    }

    /// The tables after reconciliation.
    pub open spec fn reconciled(self) -> ObjCState {
        ObjCState {
            objects: Map::new(
                |c: id| self.objects.contains_key(c),
                |c: id| self.reconciled_object(c),
            ),
            ..self
        }
    }
}

/// A class has one depth.
pub proof fn lemma_rooted_once(o: ObjCState, c: Class, n: nat, k: nat)
    requires
        o.rooted(c, n),
        o.rooted(c, k),
    ensures
        n == k,
    decreases n,
{
    if n > 0 {
        lemma_rooted_once(o, o.superclass(c), (n - 1) as nat, (k - 1) as nat);
    }
}

/// The largest alignment of these instance variables.
fn largest_alignment(ivars: &NameMap<Ivar>) -> (a: u32)
    ensures
        a == max_alignment(ivars@),
        a >= 1,
{
    let n: usize = ivars.len();
    let mut a: u32 = 1;
    let mut i: usize = 0;
    proof {
        assert(ivars@.take(0) =~= seq![]);
    }
    while i < n
        invariant
            i <= n,
            n == ivars@.len(),
            a >= 1,
            a == max_alignment(ivars@.take(i as int)),
        decreases n - i,
    {
        let ivar: Ivar = ivars.value(i);
        if ivar.offset != 0 && ivar.alignment > a {
            a = ivar.alignment;
        }
        i += 1;
        proof {
            assert(ivars@.take(i as int).drop_last() =~= ivars@.take(i - 1));
        }
    }
    proof {
        assert(ivars@.take(n as int) =~= ivars@);
    }
    a
}

impl ClassHostObject {
    /// Moves the instance variables.
    fn move_ivars(&mut self, diff: u32)
        ensures
            final(self)@ == (ClassView {
                ivars: moved_ivars(old(self)@.ivars, diff as int),
                ..old(self)@
            }),
    {
        let n: usize = self.ivars.len();
        let mut i: usize = 0;
        let ghost before = self@.ivars;
        let ghost after = moved_ivars(before, diff as int);
        while i < n
            invariant
                i <= n,
                n == before.len(),
                before == old(self)@.ivars,
                after == moved_ivars(before, diff as int),
                self@.ivars == after.take(i as int) + before.skip(i as int),
                self@ == (ClassView { ivars: self@.ivars, ..old(self)@ }),
            decreases n - i,
        {
            let ivar: Ivar = self.ivars.value(i);
            let ghost at = self@.ivars;
            let moved: Ivar = if ivar.offset == 0 {
                ivar
            } else {
                Ivar { offset: mem::offset(ivar.offset, diff), alignment: ivar.alignment }
            };
            self.ivars.set_value(i, moved);
            i += 1;
            proof {
                assert(self@.ivars =~= after.take(i as int) + before.skip(i as int));
            }
        }
        proof {
            assert(self@.ivars =~= after);
        }
    }

    /// Moves the instance variables behind those of the superclass, which has
    /// grown by `by` bytes into them.
    fn fit(&mut self, by: u32)
        requires
            by > 0,
            old(self)@.instance_start + by <= u32::MAX,
        ensures
            final(self)@ == fitted(old(self)@, (old(self)@.instance_start + by) as u32),
    {
        let mut diff: u32 = by;
        let ghost want = overlap(self@, (self.instance_start + by) as u32);
        if self.ivars.len() > 0 {
            let a: u64 = largest_alignment(&self.ivars) as u64;
            let d: u64 = (diff as u64 + (a - 1)) / a;
            proof {
                assert(d * a <= diff + (a - 1)) by (nonlinear_arith)
                    requires
                        a >= 1,
                        d == (diff as u64 + (a - 1)) / (a as int),
                ;
            }
            let up: u64 = d * a;
            proof {
                assert(up == want);
                mem::lemma_wrap(up as int, self.instance_start as int);
                mem::lemma_wrap(up as int, self.instance_size as int);
                lemma_moved_ivars_wrap(self@.ivars, up as int);
            }
            diff = (up % 0x1_0000_0000) as u32;
        } else {
            proof {
                lemma_moved_ivars_wrap(self@.ivars, want);
            }
        }
        self.move_ivars(diff);
        self.instance_start = mem::offset(self.instance_start, diff);
        self.instance_size = mem::offset(self.instance_size, diff);
    }
}

/// It makes no difference to addresses whether the distance wraps around.
proof fn lemma_moved_ivars_wrap(ivars: Entries<Ivar>, diff: int)
    ensures
        moved_ivars(ivars, mem::wrap(diff) as int) == moved_ivars(ivars, diff),
{
    assert forall|i: int| 0 <= i < ivars.len() implies moved_ivars(
        ivars,
        mem::wrap(diff) as int,
    )[i] == #[trigger] moved_ivars(ivars, diff)[i] by {
        mem::lemma_wrap(diff, ivars[i].1.offset as int);
    }
    assert(moved_ivars(ivars, mem::wrap(diff) as int) =~= moved_ivars(ivars, diff));
}

/// The number of entries whose classes are not in `done`.
spec fn undone(e: Entries<Class>, done: Set<Class>) -> nat
    decreases e.len(),
{
    if e.len() == 0 {
        0
    } else {
        undone(e.drop_last(), done) + (if done.contains(e.last().1) {
            0nat
        } else {
            1nat
        })
    }
}

proof fn lemma_undone(e: Entries<Class>, done: Set<Class>, c: Class)
    ensures
        undone(e, done.insert(c)) <= undone(e, done),
        !done.contains(c) && (exists|i: int| 0 <= i < e.len() && (#[trigger] e[i]).1 == c)
            ==> undone(e, done.insert(c)) < undone(e, done),
    decreases e.len(),
{
    if e.len() > 0 {
        lemma_undone(e.drop_last(), done, c);
        if !done.contains(c) && (exists|i: int| 0 <= i < e.len() && (#[trigger] e[i]).1 == c) {
            let i = choose|i: int| 0 <= i < e.len() && (#[trigger] e[i]).1 == c;
            if i < e.len() - 1 {
                assert(e.drop_last()[i].1 == c);
            }
        }
    }
}

/// What is known while classes are reconciled: those in `done` are, and the
/// others are as they were.
spec fn partly_reconciled(o: ObjCState, at: ObjCState, done: Set<Class>) -> bool {
    &&& at == (ObjCState { objects: at.objects, ..o })
    &&& at.objects.dom() == o.objects.dom()
    &&& forall|c: id| #[trigger]
        done.contains(c) ==> (exists|n: nat|
            o.rooted(c, n) && at.objects[c] == (ObjectView::Class { class: o.layout(c, n) }))
    &&& forall|c: id|
        o.objects.contains_key(c) && !done.contains(c) ==> #[trigger] at.objects[c] == o.objects[c]
}

/// Whether the class of an entry can be reconciled next.
spec fn is_ready(o: ObjCState, done: Set<Class>, i: int) -> bool {
    let c = o.classes[i].1;
    !done.contains(c) && o.class(c) is Some && (o.superclass(c) == nil || done.contains(
        o.superclass(c),
    ))
}

/// If no class is ready, all rooted ones are done.
proof fn lemma_all_done(o: ObjCState, done: Set<Class>, c: Class, n: nat)
    requires
        forall|i: int| 0 <= i < o.classes.len() ==> !#[trigger] is_ready(o, done, i),
        o.rooted(c, n),
    ensures
        done.contains(c),
    decreases n,
{
    let i = choose|i: int| 0 <= i < o.classes.len() && (#[trigger] o.classes[i]).1 == c;
    assert(!is_ready(o, done, i));
    if n > 0 {
        lemma_all_done(o, done, o.superclass(c), (n - 1) as nat);
    }
}

/// Whether the superclass of `c` has grown into the instance variables of `c`,
/// and by how many bytes.
pub open spec fn overgrown(o: ObjCState, c: Class) -> (bool, u32) {
    match (o.class(c), o.class(o.superclass(c))) {
        (Some(class), Some(above)) => if class.superclass != nil && class.instance_start
            < above.instance_size {
            (true, (above.instance_size - class.instance_start) as u32)
        } else {
            (false, 0)
        },
        _ => (false, 0),
    }
}

impl ObjC {
    /// Whether the superclass of `c` has grown into the instance variables of
    /// `c`, and by how many bytes. Classes that only stand in for missing ones
    /// have no instance variables.
    pub fn need_ivar_reconciliation(&self, c: Class) -> (r: (bool, u32))
        ensures
            r == overgrown(self@, c),
    {
        let superclass: Class = self.get_superclass(c);
        match (self.class(c), self.class(superclass)) {
            (Some(class), Some(above)) => if superclass != nil && class.instance_start
                < above.instance_size {
                (true, above.instance_size - class.instance_start)
            } else {
                (false, 0)
            },
            _ => (false, 0),
        }
    }

    /// Reconciles one class, whose superclass has been reconciled.
    fn reconcile_class(&mut self, c: Class, done: &mut HashSet<Class>, Ghost(o): Ghost<ObjCState>)
        requires
            partly_reconciled(o, old(self)@, old(done)@),
            o.is_named(c),
            o.class(c) is Some,
            !old(done)@.contains(c),
            o.superclass(c) == nil || old(done)@.contains(o.superclass(c)),
        ensures
            partly_reconciled(o, final(self)@, final(done)@),
            final(done)@ == old(done)@.insert(c),
    {
        proof {
            assert(self@.objects[c] == o.objects[c]);
            assert(self@.objects.dom().contains(c));
        }
        let superclass: Class = self.get_superclass(c);
        if superclass == nil {
            done.insert(c);
            proof {
                assert(o.rooted(c, 0));
                assert(o.layout(c, 0) == o.class(c).unwrap());
            }
            return;
        }
        let ghost above = choose|n: nat|
            o.rooted(superclass, n) && self@.objects[superclass] == (ObjectView::Class {
                class: o.layout(superclass, n),
            });
        proof {
            assert(done@.contains(superclass));
            assert(o.objects.dom().contains(superclass));
            assert(self@.objects.dom().contains(superclass));
        }
        let (need, diff): (bool, u32) = self.need_ivar_reconciliation(c);
        let ghost before = self@;
        if need {
            match self.take_class(c) {
                Some(class) => {
                    let mut class: ClassHostObject = class;
                    class.fit(diff);
                    self.register_static_object(c, HostObject::Class { class });
                    proof {
                        assert(self@.objects =~= before.objects.insert(
                            c,
                            ObjectView::Class { class: class@ },
                        ));
                    }
                },
                None => {},
            }
        }
        done.insert(c);
        proof {
            let n = (above + 1) as nat;
            assert(o.rooted(c, n));
            assert(self@.objects[c] == (ObjectView::Class { class: o.layout(c, n) }));
            assert(self@.objects.dom() =~= o.objects.dom());
            assert forall|d: id| #[trigger] done@.contains(d) implies (exists|k: nat|
                o.rooted(d, k) && self@.objects[d] == (ObjectView::Class {
                    class: o.layout(d, k),
                })) by {
                if d != c {
                    assert(old(done)@.contains(d));
                    let k = choose|k: nat|
                        o.rooted(d, k) && before.objects[d] == (ObjectView::Class {
                            class: o.layout(d, k),
                        });
                    assert(o.rooted(d, k) && self@.objects[d] == (ObjectView::Class {
                        class: o.layout(d, k),
                    }));
                }
            }
        }
    }

    /// Ensures that no superclass has "grown into" any of its subclasses.
    ///
    /// A superclass comes before its subclasses, as one overgrown class
    /// potentially implies reconciliation for all of them.
    fn reconcile_ivars(&mut self)
        ensures
            final(self)@ == old(self)@.reconciled(),
    {
        let ghost o = self@;
        let mut done: HashSet<Class> = HashSet::new();
        let n: usize = self.all_classes().len();
        let mut progress: bool = true;
        proof {
            assert(partly_reconciled(o, self@, done@));
        }
        while progress
            invariant
                n == o.classes.len(),
                partly_reconciled(o, self@, done@),
                !progress ==> forall|i: int|
                    0 <= i < n ==> !#[trigger] is_ready(o, done@, i),
            decreases
                undone(o.classes, done@),
                (if progress {
                    1nat
                } else {
                    0nat
                }),
        {
            progress = false;
            let mut i: usize = 0;
            let ghost before = done@;
            while i < n
                invariant
                    i <= n,
                    n == o.classes.len(),
                    partly_reconciled(o, self@, done@),
                    !progress ==> done@ == before,
                    progress ==> undone(o.classes, done@) < undone(o.classes, before),
                    !progress ==> forall|j: int|
                        0 <= j < i ==> !#[trigger] is_ready(o, done@, j),
                decreases n - i,
            {
                let c: Class = self.all_classes().value(i);
                proof {
                    assert(c == o.classes[i as int].1);
                    assert(o.is_named(c));
                    assert(!done@.contains(c) && o.objects.contains_key(c) ==> self@.objects[c]
                        == o.objects[c]);
                    assert(self@.objects.dom().contains(c) == o.objects.dom().contains(c));
                }
                if !done.contains(&c) && self.class(c).is_some() {
                    let superclass: Class = self.get_superclass(c);
                    if superclass == nil || done.contains(&superclass) {
                        proof {
                            lemma_undone(o.classes, done@, c);
                        }
                        self.reconcile_class(c, &mut done, Ghost(o));
                        progress = true;
                    }
                }
                i += 1;
            }
        }
        proof {
            assert forall|c: id| o.objects.contains_key(c) implies #[trigger] self@.objects[c]
                == o.reconciled_object(c) by {
                if exists|k: nat| o.rooted(c, k) {
                    let k = choose|k: nat| o.rooted(c, k);
                    lemma_all_done(o, done@, c, k);
                    let j = choose|j: nat|
                        o.rooted(c, j) && self@.objects[c] == (ObjectView::Class {
                            class: o.layout(c, j),
                        });
                    lemma_rooted_once(o, c, j, k);
                } else {
                    assert(!done@.contains(c));
                }
            }
            assert(self@.objects =~= o.reconciled().objects);
        }
    }

    /// For use by the dynamic linker: register all the classes from the
    /// application binary. `list` is the section `__objc_classlist`, if the
    /// binary has one.
    pub fn register_bin_classes(
        &mut self,
        bundle_identifier: &[u8],
        list: Option<Section>,
        mem: &Mem,
    )
        ensures
            final(self)@ == (match list {
                Some(list) => with_bin_classes(
                    old(self)@,
                    mem@,
                    bundle_identifier@,
                    list.addr,
                    (list.size / 4) as nat,
                ).reconciled(),
                None => old(self)@,
            }),
    {
        if let Some(list) = list {
            self.register_class_list(bundle_identifier, list, mem);
            self.reconcile_ivars();
        }
    }
}

/// The tables after the methods of a list were added to a class. Nothing
/// happens to what is no real class.
pub open spec fn with_category_methods(o: ObjCState, m: MemState, class: Class, list: u32) -> ObjCState {
    match o.class(class) {
        Some(c) => if list == 0 {
            o
        } else {
            let r = methods_from(
                m,
                list,
                entry_count(m, list),
                Methods {
                    methods: c.methods,
                    signatures: c.signatures,
                    selectors: o.selectors,
                },
            );
            ObjCState {
                selectors: r.selectors,
                ..o.with_object(
                    class,
                    ObjectView::Class {
                        class: ClassView { methods: r.methods, signatures: r.signatures, ..c },
                    },
                )
            }
        },
        None => o,
    }
}

/// The tables after the category at `cat` was registered. A `category_t` holds
/// the address of its name, the class, and the addresses of the lists of
/// instance methods and class methods. One whose name is not text is skipped.
pub open spec fn with_category(o: ObjCState, m: MemState, cat: u32) -> ObjCState {
    let class = word(m, cat, 4);
    if valid_utf8(m.cstr(word(m, cat, 0))) {
        with_category_methods(
            with_category_methods(o, m, class, word(m, cat, 8)),
            m,
            m.peek_u32(class),
            word(m, cat, 12),
        )
    } else {
        o
    }
}

/// The tables after the first `n` categories of a section were registered.
pub open spec fn with_categories(o: ObjCState, m: MemState, base: u32, n: nat) -> ObjCState
    decreases n,
{
    if n == 0 {
        o
    } else {
        with_category(
            with_categories(o, m, base, (n - 1) as nat),
            m,
            word(m, base, 4 * (n - 1)),
        )
    }
}

impl ObjC {
    /// Adds the methods of a list to a class.
    fn add_category_methods(&mut self, class: Class, list: u32, mem: &Mem)
        ensures
            final(self)@ == with_category_methods(old(self)@, mem@, class, list),
    {
        if list == 0 {
            return;
        }
        if let Some(c) = self.take_class(class) {
            let mut c: ClassHostObject = c;
            c.add_methods_from_bin(list, mem, self);
            self.register_static_object(class, HostObject::Class { class: c });
            proof {
                assert(self@ =~= with_category_methods(old(self)@, mem@, class, list));
            }
        }
    }

    /// For use by the dynamic linker: register all the categories from the
    /// application binary. `list` is the section `__objc_catlist`, if the
    /// binary has one.
    pub fn register_bin_categories(&mut self, list: Option<Section>, mem: &Mem)
        ensures
            final(self)@ == (match list {
                Some(list) => with_categories(
                    old(self)@,
                    mem@,
                    list.addr,
                    (list.size / 4) as nat,
                ),
                None => old(self)@,
            }),
    {
        if let Some(list) = list {
            let n: u32 = list.size / 4;
            let mut i: u32 = 0;
            while i < n
                invariant
                    i <= n,
                    n == list.size / 4,
                    self@ == with_categories(old(self)@, mem@, list.addr, i as nat),
                decreases n - i,
            {
                let cat: u32 = read_word(mem, list.addr, 4 * i);
                let name: Name = mem.cstr_at(read_word(mem, cat, 0));
                if text::char_count(&name).is_some() {
                    let class: Class = read_word(mem, cat, 4);
                    let metaclass: Class = mem.read_u32(class);
                    let instance_methods: u32 = read_word(mem, cat, 8);
                    let class_methods: u32 = read_word(mem, cat, 12);
                    self.add_category_methods(class, instance_methods, mem);
                    self.add_category_methods(metaclass, class_methods, mem);
                }
                i += 1;
            }
        }
    }
}

} // verus!
