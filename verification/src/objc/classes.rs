//! Handling of Objective-C classes and metaclasses.
//!
//! Note that metaclasses are just a special case of classes.
//!
//! Resources:
//! - [[objc explain]: Classes and metaclasses](http://www.sealiesoftware.com/blog/archive/2009/04/14/objc_explain_Classes_and_metaclasses.html), especially [the PDF diagram](http://www.sealiesoftware.com/blog/class%20diagram.pdf)
use crate::mem;
use crate::mem::{Mem, MemState};
use crate::objc::methods;
use crate::objc::names;
use crate::objc::names::{Entries, Name, NameMap};
use std::collections::HashMap;
use vstd::prelude::*;
use vstd::utf8::*;

verus! {

broadcast use vstd::std_specs::hash::group_hash_axioms;

/// Generic pointer to an Objective-C object.
pub type id = u32;

/// Generic pointer to an Objective-C class or metaclass.
pub type Class = id;

/// A selector: the address of its name, the same one for the same name.
pub type SEL = u32;

/// The null pointer to an object.
pub const nil: id = 0;

/// The implementation of a method.
#[derive(Clone, Copy, PartialEq, Eq, Structural, Debug)]
pub enum IMP {
    /// A function of the emulator, by its number.
    Host { index: u32 },
    /// A function of the guest, by its address.
    Guest { addr: u32 },
}

/// An instance variable: the address of its offset, and its alignment, which
/// is used during ivar reconciliation.
#[derive(Clone, Copy, PartialEq, Eq, Structural, Debug)]
pub struct Ivar {
    pub offset: u32,
    pub alignment: u32,
}

/// Our internal representation of a class, e.g. this is where `objc_msgSend`
/// will look up method implementations.
///
/// Note: `superclass` can be `nil`!
pub struct ClassHostObject {
    pub name: Name,
    pub is_metaclass: bool,
    pub superclass: Class,
    pub methods: HashMap<SEL, IMP>,
    /// The addresses of type-encoding strings.
    pub guest_method_signatures: HashMap<SEL, u32>,
    pub ivars: NameMap<Ivar>,
    /// Maps declared `@property` names to the addresses of their `property_t`
    /// entries.
    pub properties: NameMap<u32>,
    /// Offset into the allocated memory for the object where the ivars of
    /// instances of this class or metaclass (respectively: normal objects or
    /// classes) should live.
    pub instance_start: u32,
    /// Size of the allocated memory for instances of this class or metaclass.
    pub instance_size: u32,
}

/// The model of a [ClassHostObject].
#[verifier::ext_equal]
pub struct ClassView {
    pub name: Seq<u8>,
    pub is_metaclass: bool,
    pub superclass: Class,
    pub methods: Map<SEL, IMP>,
    pub signatures: Map<SEL, u32>,
    pub ivars: Entries<Ivar>,
    pub properties: Entries<u32>,
    pub instance_start: u32,
    pub instance_size: u32,
}

impl View for ClassHostObject {
    type V = ClassView;

    open spec fn view(&self) -> ClassView {
        ClassView {
            name: self.name@,
            is_metaclass: self.is_metaclass,
            superclass: self.superclass,
            methods: self.methods@,
            signatures: self.guest_method_signatures@,
            ivars: self.ivars@,
            properties: self.properties@,
            instance_start: self.instance_start,
            instance_size: self.instance_size,
        }
    }
}

/// What the emulator keeps about an object.
pub enum HostObject {
    Class { class: ClassHostObject },
    /// Placeholder object for classes and metaclasses referenced by the app
    /// that we don't have an implementation for.
    ///
    /// This lets us delay errors about missing implementations until the first
    /// time the app actually uses them (e.g. when a message is sent).
    Unimplemented { name: Name, is_metaclass: bool },
    /// Substitute object for classes and metaclasses from the guest app that
    /// we do not want to support (see [substitute_classes]).
    ///
    /// Messages sent to this class will behave as if messaging [nil].
    Fake { name: Name, is_metaclass: bool },
    /// An object that is no class.
    Other,
}

/// The model of a [HostObject].
pub enum ObjectView {
    Class { class: ClassView },
    Unimplemented { name: Seq<u8>, is_metaclass: bool },
    Fake { name: Seq<u8>, is_metaclass: bool },
    Other,
}

impl View for HostObject {
    type V = ObjectView;

    open spec fn view(&self) -> ObjectView {
        match *self {
            HostObject::Class { class } => ObjectView::Class { class: class@ },
            HostObject::Unimplemented { name, is_metaclass } => ObjectView::Unimplemented {
                name: name@,
                is_metaclass,
            },
            HostObject::Fake { name, is_metaclass } => ObjectView::Fake {
                name: name@,
                is_metaclass,
            },
            HostObject::Other => ObjectView::Other,
        }
    }
}

/// A method of a template: the name of its selector, and the number of the
/// function that implements it.
pub struct MethodTemplate {
    pub name: Name,
    pub imp: u32,
}

/// A template for a class that the emulator implements.
///
/// Host implementations of libraries can use these to expose classes to the
/// application. The runtime will create the actual class ([ClassHostObject]
/// etc) from the template on-demand.
pub struct ClassTemplate {
    pub name: Name,
    pub superclass: Option<Name>,
    pub class_methods: Vec<MethodTemplate>,
    pub instance_methods: Vec<MethodTemplate>,
}

/// The model of a [ClassTemplate].
pub struct TemplateView {
    pub name: Seq<u8>,
    pub superclass: Option<Seq<u8>>,
    pub class_methods: Seq<(Seq<u8>, u32)>,
    pub instance_methods: Seq<(Seq<u8>, u32)>,
}

/// The model of the methods of a template.
pub open spec fn method_views(methods: Seq<MethodTemplate>) -> Seq<(Seq<u8>, u32)> {
    methods.map_values(|m: MethodTemplate| (m.name@, m.imp))
}

impl View for ClassTemplate {
    type V = TemplateView;

    open spec fn view(&self) -> TemplateView {
        TemplateView {
            name: self.name@,
            superclass: match self.superclass {
                Some(name) => Some(name@),
                None => None,
            },
            class_methods: method_views(self.class_methods@),
            instance_methods: method_views(self.instance_methods@),
        }
    }
}

/// An opaque `Method` that was handed to the guest: the class and the
/// selector that it stands for, and its address.
#[derive(Clone, Copy, PartialEq, Eq, Structural, Debug)]
pub struct MethodHandle {
    pub class: Class,
    pub sel: SEL,
    pub ptr: u32,
}

/// The tables of the Objective-C runtime.
pub struct ObjC {
    pub(crate) objects: HashMap<id, HostObject>,
    pub(crate) classes: NameMap<Class>,
    pub(crate) selectors: NameMap<SEL>,
    pub(crate) templates: Vec<ClassTemplate>,
    pub(crate) method_handles: Vec<MethodHandle>,
    /// The addresses that stand for host implementations, by [pair].
    pub(crate) host_imp_tokens: HashMap<u64, u32>,
    /// What those addresses stand for.
    pub(crate) imp_tokens: HashMap<u32, IMP>,
    /// Where the names of classes were stored for the guest.
    pub(crate) class_names: HashMap<Class, u32>,
}

/// The model of an [ObjC].
#[verifier::ext_equal]
pub struct ObjCState {
    pub objects: Map<id, ObjectView>,
    pub classes: Entries<Class>,
    pub selectors: Entries<SEL>,
    pub templates: Seq<TemplateView>,
    pub method_handles: Seq<MethodHandle>,
    pub host_imp_tokens: Map<u64, u32>,
    pub imp_tokens: Map<u32, IMP>,
    pub class_names: Map<Class, u32>,
}

impl View for ObjC {
    type V = ObjCState;

    closed spec fn view(&self) -> ObjCState {
        ObjCState {
            objects: self.objects@.map_values(|o: HostObject| o@),
            classes: self.classes@,
            selectors: self.selectors@,
            templates: self.templates@.map_values(|t: ClassTemplate| t@),
            method_handles: self.method_handles@,
            host_imp_tokens: self.host_imp_tokens@,
            imp_tokens: self.imp_tokens@,
            class_names: self.class_names@,
        }
    }
}

impl ObjCState {
    /// The class `c`, unless that is something else.
    pub open spec fn class(self, c: Class) -> Option<ClassView> {
        if self.objects.contains_key(c) {
            match self.objects[c] {
                ObjectView::Class { class } => Some(class),
                _ => None,
            }
        } else {
            None
        }
    }

    /// The superclass of `c`; nil if `c` is no class.
    pub open spec fn superclass(self, c: Class) -> Class {
        match self.class(c) {
            Some(class) => class.superclass,
            None => nil,
        }
    }

    /// The tables with another object at `c`.
    pub open spec fn with_object(self, c: id, object: ObjectView) -> ObjCState {
        ObjCState { objects: self.objects.insert(c, object), ..self }
    }

    /// The tables with the class `c` replaced, if `c` is a class.
    pub open spec fn with_class(self, c: Class, class: ClassView) -> ObjCState {
        if self.class(c) is Some {
            self.with_object(c, ObjectView::Class { class })
        } else {
            self
        }
    }

    /// The class above `c`; there is none above nil.
    pub open spec fn above(self, c: Class) -> Class {
        if c == nil {
            nil
        } else {
            self.superclass(c)
        }
    }

    /// The superclass that is `k` steps up from `c`.
    pub open spec fn ancestor(self, c: Class, k: nat) -> Class
        decreases k,
    {
        if k == 0 {
            c
        } else {
            self.above(self.ancestor(c, (k - 1) as nat))
        }
    }

}

impl ObjC {
    /// Tables in which there are only templates. The selectors of their
    /// methods have yet to be registered.
    pub fn new(templates: Vec<ClassTemplate>) -> (objc: ObjC)
        ensures
            objc@ == (ObjCState {
                objects: Map::empty(),
                classes: seq![],
                selectors: seq![],
                templates: templates@.map_values(|t: ClassTemplate| t@),
                method_handles: seq![],
                host_imp_tokens: Map::empty(),
                imp_tokens: Map::empty(),
                class_names: Map::empty(),
            }),
    {
        let objc = ObjC {
            objects: HashMap::new(),
            classes: NameMap::new(),
            selectors: NameMap::new(),
            templates,
            method_handles: Vec::new(),
            host_imp_tokens: HashMap::new(),
            imp_tokens: HashMap::new(),
            class_names: HashMap::new(),
        };
        proof {
            assert(objc@.objects =~= Map::empty());
        }
        objc
    }

    /// Looks up an object.
    pub(crate) fn get_host_object(&self, c: id) -> (r: Option<&HostObject>)
        ensures
            match r {
                Some(o) => self@.objects.contains_key(c) && self@.objects[c] == o@,
                None => !self@.objects.contains_key(c),
            },
    {
        self.objects.get(&c)
    }

    /// Looks up a class.
    pub fn class(&self, c: Class) -> (r: Option<&ClassHostObject>)
        ensures
            match r {
                Some(class) => self@.class(c) == Some(class@),
                None => self@.class(c) is None,
            },
    {
        match self.objects.get(&c) {
            Some(HostObject::Class { class }) => Some(class),
            _ => None,
        }
    }

    /// Stores an object.
    pub(crate) fn register_static_object(&mut self, c: id, object: HostObject)
        ensures
            final(self)@ == old(self)@.with_object(c, object@),
    {
        self.objects.insert(c, object);
        proof {
            assert(self@ =~= old(self)@.with_object(c, object@));
        }
    }

    /// Takes a class out, to be changed and put back.
    pub(crate) fn take_class(&mut self, c: Class) -> (r: Option<ClassHostObject>)
        ensures
            match r {
                Some(class) => old(self)@.class(c) == Some(class@) && final(self)@ == (ObjCState {
                    objects: old(self)@.objects.remove(c),
                    ..old(self)@
                }),
                None => old(self)@.class(c) is None && final(self)@ == old(self)@,
            },
    {
        let is_class: bool = self.class(c).is_some();
        if !is_class {
            return None;
        }
        let object: Option<HostObject> = self.objects.remove(&c);
        proof {
            assert(self@ =~= (ObjCState {
                objects: old(self)@.objects.remove(c),
                ..old(self)@
            }));
        }
        match object {
            Some(HostObject::Class { class }) => Some(class),
            _ => None,
        }
    }

    /// The selector of this name.
    pub fn lookup_selector(&self, name: &[u8]) -> (sel: Option<SEL>)
        ensures
            sel == names::find(self@.selectors, name@),
    {
        self.selectors.get(name)
    }

    /// Makes a selector known.
    pub(crate) fn add_selector(&mut self, name: Name, sel: SEL)
        ensures
            final(self)@ == (ObjCState {
                selectors: names::put(old(self)@.selectors, name@, sel),
                ..old(self)@
            }),
    {
        self.selectors.insert(name, sel);
    }

    /// Makes a class known by its name.
    pub(crate) fn add_class(&mut self, name: Name, class: Class)
        ensures
            final(self)@ == (ObjCState {
                classes: names::put(old(self)@.classes, name@, class),
                ..old(self)@
            }),
    {
        self.classes.insert(name, class);
    }

    /// The `Method` for this class and selector.
    pub(crate) fn find_handle(&self, c: Class, sel: SEL) -> (r: Option<u32>)
        ensures
            r == self@.handle(c, sel),
    {
        let mut i: usize = self.method_handles.len();
        let ghost all = self.method_handles@;
        proof {
            assert(all.take(i as int) =~= all);
        }
        while i > 0
            invariant
                i <= all.len(),
                all == self.method_handles@,
                methods::find_handle(all.take(i as int), c, sel) == methods::find_handle(
                    all,
                    c,
                    sel,
                ),
            decreases i,
        {
            let h: MethodHandle = self.method_handles[i - 1];
            if h.class == c && h.sel == sel {
                return Some(h.ptr);
            }
            proof {
                assert(all.take(i as int).drop_last() =~= all.take(i - 1));
            }
            i -= 1;
        }
        None
    }

    /// Keeps a `Method`.
    pub(crate) fn add_handle(&mut self, handle: MethodHandle)
        ensures
            final(self)@ == (ObjCState {
                method_handles: old(self)@.method_handles.push(handle),
                ..old(self)@
            }),
    {
        self.method_handles.push(handle);
    }

    /// Whether `m` is a `Method`.
    pub(crate) fn known_handle(&self, m: u32) -> (b: bool)
        ensures
            b == self@.is_handle(m),
    {
        if m == 0 {
            return false;
        }
        let n: usize = self.method_handles.len();
        let mut i: usize = 0;
        while i < n
            invariant
                i <= n,
                m != 0,
                n == self@.method_handles.len(),
                forall|j: int| 0 <= j < i ==> (#[trigger] self@.method_handles[j]).ptr != m,
            decreases n - i,
        {
            if self.method_handles[i].ptr == m {
                proof {
                    assert(self@.method_handles[i as int].ptr == m);
                }
                return true;
            }
            i += 1;
        }
        false
    }

    /// The address that stands for the host implementation of a method.
    pub(crate) fn imp_token(&self, c: Class, sel: SEL) -> (r: Option<u32>)
        ensures
            r == (if self@.host_imp_tokens.contains_key(methods::pair(c, sel)) {
                Some(self@.host_imp_tokens[methods::pair(c, sel)])
            } else {
                None
            }),
    {
        match self.host_imp_tokens.get(&methods::pair_of(c, sel)) {
            Some(token) => Some(*token),
            None => None,
        }
    }

    /// Makes an address stand for the host implementation of a method.
    pub(crate) fn add_imp_token(&mut self, c: Class, sel: SEL, token: u32, imp: IMP)
        ensures
            final(self)@ == (ObjCState {
                host_imp_tokens: old(self)@.host_imp_tokens.insert(methods::pair(c, sel), token),
                imp_tokens: old(self)@.imp_tokens.insert(token, imp),
                ..old(self)@
            }),
    {
        self.host_imp_tokens.insert(methods::pair_of(c, sel), token);
        self.imp_tokens.insert(token, imp);
    }

    /// The host implementation that an address stands for.
    pub(crate) fn token_imp(&self, token: u32) -> (r: Option<IMP>)
        ensures
            r == (if self@.imp_tokens.contains_key(token) {
                Some(self@.imp_tokens[token])
            } else {
                None
            }),
    {
        match self.imp_tokens.get(&token) {
            Some(imp) => Some(*imp),
            None => None,
        }
    }

    /// Where the name of a class was stored for the guest.
    pub(crate) fn stored_name(&self, c: Class) -> (r: Option<u32>)
        ensures
            r == (if self@.class_names.contains_key(c) {
                Some(self@.class_names[c])
            } else {
                None
            }),
    {
        match self.class_names.get(&c) {
            Some(ptr) => Some(*ptr),
            None => None,
        }
    }

    /// Remembers where the name of a class was stored for the guest.
    pub(crate) fn add_stored_name(&mut self, c: Class, ptr: u32)
        ensures
            final(self)@ == (ObjCState {
                class_names: old(self)@.class_names.insert(c, ptr),
                ..old(self)@
            }),
    {
        self.class_names.insert(c, ptr);
    }

    /// All known classes and their names.
    pub fn all_classes(&self) -> (classes: &NameMap<Class>)
        ensures
            classes@ == self@.classes,
    {
        &self.classes
    }

    /// The superclass of a class.
    pub fn get_superclass(&self, class: Class) -> (superclass: Class)
        ensures
            superclass == self@.superclass(class),
    {
        match self.class(class) {
            Some(class) => class.superclass,
            None => nil,
        }
    }
}

/// The bytes of a name that is written as text.
pub open spec fn name_of(s: Seq<char>) -> Seq<u8> {
    encode_utf8(s)
}

/// The name of the root class.
pub open spec fn root_name() -> Seq<u8> {
    name_of("NSObject"@)
}

/// Whether `name` starts with `prefix`.
pub open spec fn starts_with(name: Seq<u8>, prefix: Seq<char>) -> bool {
    name_of(prefix).is_prefix_of(name)
}

/// Whether a class can have this name: it is not empty and has no control
/// characters and nothing but ASCII.
///
/// The real Objective-C runtime has no classes of other names. They show up
/// when a guest reads a class name (or a `Class` pointer) from
/// uninitialised/corrupt memory.
pub open spec fn is_plausible_name(name: Seq<u8>) -> bool {
    name.len() > 0 && forall|i: int| 0 <= i < name.len() ==> 0x20 <= #[trigger] name[i] < 0x7F
}

/// Whether a class of this name that the app only refers to is replaced by a
/// fake one: those of advertising and social network SDKs, and private ones
/// that apps probe for.
pub open spec fn is_fake_name(name: Seq<u8>) -> bool {
    ||| starts_with(name, "AdMob"@)
    ||| starts_with(name, "AltAds"@)
    ||| starts_with(name, "Mobclix"@)
    ||| starts_with(name, "FB"@)
    ||| starts_with(name, "Flurry"@)
    ||| starts_with(name, "OpenFeint"@)
    ||| starts_with(name, "Tapjoy"@)
    ||| starts_with(name, "UA"@)
    ||| starts_with(name, "GAD"@)
    ||| starts_with(name, "iSimulate"@)
    ||| starts_with(name, "SBScene"@)
    ||| starts_with(name, "SBSystem"@)
}

/// The first template of this name.
pub open spec fn template_of(t: Seq<TemplateView>, name: Seq<u8>) -> Option<TemplateView>
    decreases t.len(),
{
    if t.len() == 0 {
        None
    } else if t[0].name == name {
        Some(t[0])
    } else {
        template_of(t.drop_first(), name)
    }
}

/// Whether the superclasses of templates, from this one on, come to an end
/// after at most `n` steps.
pub open spec fn template_chain_ends(t: Seq<TemplateView>, name: Seq<u8>, n: nat) -> bool
    decreases n,
{
    match template_of(t, name) {
        Some(template) => match template.superclass {
            Some(superclass) => n > 0 && template_chain_ends(t, superclass, (n - 1) as nat),
            None => true,
        },
        None => true,
    }
}

/// Whether the selectors of these methods are registered.
pub open spec fn registered(selectors: Entries<SEL>, methods: Seq<(Seq<u8>, u32)>) -> bool {
    forall|i: int|
        0 <= i < methods.len() ==> names::find(selectors, (#[trigger] methods[i]).0) is Some
}

/// The method table that these methods make up.
pub open spec fn method_table(selectors: Entries<SEL>, methods: Seq<(Seq<u8>, u32)>) -> Map<
    SEL,
    IMP,
>
    decreases methods.len(),
{
    if methods.len() == 0 {
        Map::empty()
    } else {
        method_table(selectors, methods.drop_last()).insert(
            names::find(selectors, methods.last().0).unwrap(),
            IMP::Host { index: methods.last().1 },
        )
    }
}

/// The class that a template describes. Its instances have nothing but the
/// `isa` pointer in guest memory.
pub open spec fn template_class(
    t: TemplateView,
    is_metaclass: bool,
    superclass: Class,
    selectors: Entries<SEL>,
) -> ClassView {
    ClassView {
        name: t.name,
        is_metaclass,
        superclass,
        methods: method_table(
            selectors,
            if is_metaclass {
                t.class_methods
            } else {
                t.instance_methods
            },
        ),
        signatures: Map::empty(),
        ivars: seq![],
        properties: seq![],
        instance_start: 4,
        instance_size: 4,
    }
}

/// The object for the class or metaclass of this name: what its template
/// describes, or else a fake or a placeholder.
pub open spec fn linked_object(
    o: ObjCState,
    name: Seq<u8>,
    is_metaclass: bool,
    superclass: Class,
) -> ObjectView {
    match template_of(o.templates, name) {
        Some(t) => ObjectView::Class {
            class: template_class(t, is_metaclass, superclass, o.selectors),
        },
        None => if is_fake_name(name) {
            ObjectView::Fake { name, is_metaclass }
        } else {
            ObjectView::Unimplemented { name, is_metaclass }
        },
    }
}

/// The class of this name, or its metaclass, which is the class's `isa`.
pub open spec fn lookup(o: ObjCState, m: MemState, name: Seq<u8>, is_metaclass: bool) -> Option<
    Class,
> {
    match names::find(o.classes, name) {
        Some(class) => Some(
            if is_metaclass {
                m.peek_u32(class)
            } else {
                class
            },
        ),
        None => None,
    }
}

/// The class of this name, or its metaclass; nil if there is none.
pub open spec fn lookup_or_nil(
    o: ObjCState,
    m: MemState,
    name: Seq<u8>,
    is_metaclass: bool,
) -> Class {
    match lookup(o, m, name, is_metaclass) {
        Some(class) => class,
        None => nil,
    }
}

/// The tables and the memory of the runtime.
#[verifier::ext_equal]
pub struct Runtime {
    pub objc: ObjCState,
    pub mem: MemState,
}

impl Runtime {
    /// The runtime after an object with this `isa` was made. It is where the
    /// heap's unallocated part started.
    pub open spec fn with_new_object(self, isa: Class, object: ObjectView) -> Runtime {
        Runtime {
            objc: self.objc.with_object(self.mem.heap, object),
            mem: self.mem.grow(4).poke_u32(self.mem.heap, isa),
        }
    }

    /// The runtime with a class and its metaclass made, and the class known
    /// by its name.
    pub open spec fn with_new_class(
        self,
        name: Seq<u8>,
        isa: Class,
        class: ObjectView,
        metaclass: ObjectView,
    ) -> Runtime {
        let r1 = self.with_new_object(isa, metaclass);
        let r2 = r1.with_new_object(self.mem.heap, class);
        Runtime {
            objc: ObjCState {
                classes: names::put(r2.objc.classes, name, r1.mem.heap),
                ..r2.objc
            },
            ..r2
        }
    }

    /// The runtime with the root class linked.
    ///
    /// NSObject's metaclass is special: it is its own metaclass, and it has
    /// its class as the superclass.
    pub open spec fn with_root(self) -> Runtime {
        let class = self.mem.grow(4).heap;
        if names::find(self.objc.classes, root_name()) is Some {
            self
        } else {
            self.with_new_class(
                root_name(),
                self.mem.heap,
                linked_object(self.objc, root_name(), false, nil),
                linked_object(self.objc, root_name(), true, class),
            )
        }
    }

    /// The runtime with the class of this name linked, where the superclasses
    /// of templates end after `n` steps. Superclasses come first. Every
    /// metaclass has the root's metaclass as its own.
    pub open spec fn with_class(self, name: Seq<u8>, n: nat) -> Runtime
        decreases n,
    {
        if names::find(self.objc.classes, name) is Some {
            self
        } else if name == root_name() {
            self.with_root()
        } else if !is_plausible_name(name) {
            self
        } else {
            let superclass = match template_of(self.objc.templates, name) {
                Some(t) => t.superclass,
                None => None,
            };
            let r1 = if superclass is Some && n > 0 {
                self.with_class(superclass.unwrap(), (n - 1) as nat)
            } else {
                self
            };
            let r2 = r1.with_root();
            let above = |is_metaclass: bool|
                if superclass is Some {
                    lookup_or_nil(r1.objc, r1.mem, superclass.unwrap(), is_metaclass)
                } else {
                    nil
                };
            r2.with_new_class(
                name,
                lookup_or_nil(r2.objc, r2.mem, root_name(), true),
                linked_object(r2.objc, name, false, above(false)),
                linked_object(r2.objc, name, true, above(true)),
            )
        }
    }
}

impl ObjCState {
    /// Whether classes can be linked: the templates' superclasses come to an
    /// end, the root has none, and the selectors of their methods are
    /// registered.
    pub open spec fn linkable(self) -> bool {
        let t = self.templates;
        &&& forall|name: Seq<u8>| #[trigger] template_chain_ends(t, name, t.len())
        &&& template_of(t, root_name()) matches Some(root) ==> root.superclass is None
        &&& forall|i: int|
            0 <= i < t.len() ==> registered(self.selectors, (#[trigger] t[i]).class_methods)
                && registered(self.selectors, t[i].instance_methods)
    }

    /// How much heap space linking a class takes at most.
    pub open spec fn link_cost(self) -> nat {
        64 * (self.templates.len() + 1)
    }

    /// Whether a class can be linked.
    pub open spec fn can_link(self, m: MemState) -> bool {
        self.linkable() && m.room() >= self.link_cost()
    }

    /// Whether the class of this name can be linked. Nothing is needed for one
    /// that is linked already, or for a name that no class can have.
    pub open spec fn link_ready(self, m: MemState, name: Seq<u8>) -> bool {
        ||| names::find(self.classes, name) is Some
        ||| name != root_name() && !is_plausible_name(name)
        ||| self.can_link(m)
    }

    /// Whether the class of this name can be linked, if it has a template.
    pub open spec fn known_ready(self, m: MemState, name: Seq<u8>) -> bool {
        template_of(self.templates, name) is None || self.link_ready(m, name)
    }

    /// Whether there is an implementation of the class of this name: it is linked,
    /// or it has a template. For a name that no class can have, none is needed.
    pub open spec fn is_implemented(self, name: Seq<u8>) -> bool {
        ||| names::find(self.classes, name) is Some
        ||| template_of(self.templates, name) is Some
        ||| name != root_name() && !is_plausible_name(name)
    }

    /// The runtime after the class of this name was linked.
    pub open spec fn linked(self, m: MemState, name: Seq<u8>) -> Runtime {
        Runtime { objc: self, mem: m }.with_class(name, self.templates.len())
    }
}

/// Whether `name` starts with `prefix`.
pub(crate) fn has_prefix(name: &[u8], prefix: &str) -> (b: bool)
    ensures
        b == starts_with(name@, prefix@),
{
    let p: &[u8] = prefix.as_bytes();
    if p.len() > name.len() {
        return false;
    }
    let head: &[u8] = vstd::slice::slice_subrange(name, 0, p.len());
    names::same(p, head)
}

/// Whether `name` is the name that is written as `text`.
pub(crate) fn name_is(name: &[u8], text: &str) -> (b: bool)
    ensures
        b == (name@ == name_of(text@)),
{
    names::same(name, text.as_bytes())
}

/// Whether a class can have this name.
fn plausible_name(name: &[u8]) -> (b: bool)
    ensures
        b == is_plausible_name(name@),
{
    let n: usize = name.len();
    let mut i: usize = 0;
    while i < n
        invariant
            i <= n,
            n == name@.len(),
            forall|j: int| 0 <= j < i ==> 0x20 <= #[trigger] name@[j] < 0x7F,
        decreases n - i,
    {
        if name[i] < 0x20 || name[i] >= 0x7F {
            proof {
                assert(!(0x20 <= name@[i as int] < 0x7F));
            }
            return false;
        }
        i += 1;
    }
    n > 0
}

/// Whether a class of this name is replaced by a fake one.
fn fake_name(name: &[u8]) -> (b: bool)
    ensures
        b == is_fake_name(name@),
{
    has_prefix(name, "AdMob") || has_prefix(name, "AltAds") || has_prefix(name, "Mobclix")
        || has_prefix(name, "FB") || has_prefix(name, "Flurry") || has_prefix(name, "OpenFeint")
        || has_prefix(name, "Tapjoy") || has_prefix(name, "UA") || has_prefix(name, "GAD")
        || has_prefix(name, "iSimulate") || has_prefix(name, "SBScene") || has_prefix(
        name,
        "SBSystem",
    )
}

/// A copy of a name.
pub(crate) fn copy_name(name: &[u8]) -> (r: Name)
    ensures
        r@ == name@,
{
    vstd::slice::slice_to_vec(name)
}

impl ClassHostObject {
    /// The class that a template describes.
    fn from_template(
        template: &ClassTemplate,
        is_metaclass: bool,
        superclass: Class,
        selectors: &NameMap<SEL>,
    ) -> (r: ClassHostObject)
        requires
            registered(selectors@, template@.class_methods),
            registered(selectors@, template@.instance_methods),
        ensures
            r@ == template_class(template@, is_metaclass, superclass, selectors@),
    {
        let list: &Vec<MethodTemplate> = if is_metaclass {
            &template.class_methods
        } else {
            &template.instance_methods
        };
        let ghost views = method_views(list@);
        let mut methods: HashMap<SEL, IMP> = HashMap::new();
        let n: usize = list.len();
        let mut i: usize = 0;
        proof {
            assert(views.take(0) =~= seq![]);
        }
        while i < n
            invariant
                i <= n,
                n == list@.len(),
                views == method_views(list@),
                registered(selectors@, views),
                methods@ == method_table(selectors@, views.take(i as int)),
            decreases n - i,
        {
            proof {
                assert(views[i as int].0 == list@[i as int].name@);
                assert(views.take(i + 1).drop_last() =~= views.take(i as int));
            }
            let sel: SEL = selectors.get(list[i].name.as_slice()).unwrap();
            methods.insert(sel, IMP::Host { index: list[i].imp });
            i += 1;
        }
        proof {
            assert(views.take(n as int) =~= views);
        }
        let r = ClassHostObject {
            name: copy_name(template.name.as_slice()),
            is_metaclass,
            superclass,
            methods,
            guest_method_signatures: HashMap::new(),
            ivars: NameMap::new(),
            properties: NameMap::new(),
            instance_start: 4,
            instance_size: 4,
        };
        proof {
            assert(r@ =~= template_class(template@, is_metaclass, superclass, selectors@));
        }
        r
    }
}

proof fn lemma_template_index(t: Seq<TemplateView>, name: Seq<u8>, i: int)
    requires
        0 <= i <= t.len(),
        forall|j: int| 0 <= j < i ==> (#[trigger] t[j]).name != name,
        i < t.len() ==> t[i].name == name,
    ensures
        template_of(t, name) == (if i < t.len() {
            Some(t[i])
        } else {
            None
        }),
    decreases t.len(),
{
    if t.len() > 0 && i > 0 {
        assert(t[0].name != name);
        assert forall|j: int| 0 <= j < i - 1 implies (#[trigger] t.drop_first()[j]).name
            != name by {
            assert(t[j + 1].name != name);
        }
        lemma_template_index(t.drop_first(), name, i - 1);
    }
}

/// The template of a name has that name.
pub proof fn lemma_template_named(t: Seq<TemplateView>, name: Seq<u8>)
    ensures
        template_of(t, name) matches Some(template) ==> exists|i: int|
            0 <= i < t.len() && #[trigger] t[i] == template && template.name == name,
    decreases t.len(),
{
    if t.len() > 0 {
        if t[0].name != name && template_of(t, name) is Some {
            lemma_template_named(t.drop_first(), name);
            let template = template_of(t, name).unwrap();
            let i = choose|i: int|
                0 <= i < t.drop_first().len() && #[trigger] t.drop_first()[i] == template
                    && template.name == name;
            assert(t[i + 1] == template);
        }
    }
}

impl ObjC {
    /// The number of the template of this name.
    pub(crate) fn find_template(&self, name: &[u8]) -> (r: Option<usize>)
        ensures
            match r {
                Some(i) => i < self@.templates.len() && template_of(self@.templates, name@) == Some(
                    self@.templates[i as int],
                ),
                None => template_of(self@.templates, name@) is None,
            },
    {
        let n: usize = self.templates.len();
        let mut i: usize = 0;
        while i < n
            invariant
                i <= n,
                n == self@.templates.len(),
                n == self.templates@.len(),
                forall|j: int| 0 <= j < i ==> (#[trigger] self@.templates[j]).name != name@,
            decreases n - i,
        {
            proof {
                assert(self@.templates[i as int] == self.templates@[i as int]@);
            }
            if names::same(self.templates[i].name.as_slice(), name) {
                proof {
                    lemma_template_index(self@.templates, name@, i as int);
                }
                return Some(i);
            }
            i += 1;
        }
        proof {
            lemma_template_index(self@.templates, name@, n as int);
        }
        None
    }

    /// Whether the superclasses of templates, from this one on, come to an end
    /// after at most `n` steps.
    fn chain_ends(&self, name: &[u8], n: usize) -> (b: bool)
        ensures
            b == template_chain_ends(self@.templates, name@, n as nat),
        decreases n,
    {
        match self.find_template(name) {
            Some(i) => {
                proof {
                    assert(self@.templates[i as int] == self.templates@[i as int]@);
                }
                match &self.templates[i].superclass {
                    Some(superclass) => n > 0 && self.chain_ends(superclass.as_slice(), n - 1),
                    None => true,
                }
            },
            None => true,
        }
    }

    /// Whether the selectors of these methods are registered.
    fn are_registered(&self, methods: &Vec<MethodTemplate>) -> (b: bool)
        ensures
            b == registered(self@.selectors, method_views(methods@)),
    {
        let ghost views = method_views(methods@);
        let n: usize = methods.len();
        let mut i: usize = 0;
        while i < n
            invariant
                i <= n,
                n == methods@.len(),
                views == method_views(methods@),
                forall|j: int|
                    0 <= j < i ==> names::find(self@.selectors, (#[trigger] views[j]).0) is Some,
            decreases n - i,
        {
            proof {
                assert(views[i as int].0 == methods@[i as int].name@);
            }
            if self.selectors.get(methods[i].name.as_slice()).is_none() {
                return false;
            }
            i += 1;
        }
        true
    }

    /// Whether a class can be linked.
    pub fn can_link(&self, mem: &Mem) -> (b: bool)
        ensures
            b == self@.can_link(mem@),
    {
        let ghost t = self@.templates;
        let n: usize = self.templates.len();
        if n >= 0x3FF_FFFF || !mem.has_room((64 * (n + 1)) as u32) {
            return false;
        }
        if let Some(i) = self.find_template("NSObject".as_bytes()) {
            proof {
                assert(t[i as int] == self.templates@[i as int]@);
            }
            if self.templates[i].superclass.is_some() {
                return false;
            }
        }
        let mut i: usize = 0;
        while i < n
            invariant
                i <= n,
                n == self.templates@.len(),
                n == t.len(),
                t == self@.templates,
                forall|j: int|
                    0 <= j < i ==> template_chain_ends(t, (#[trigger] t[j]).name, n as nat)
                        && registered(self@.selectors, t[j].class_methods) && registered(
                        self@.selectors,
                        t[j].instance_methods,
                    ),
            decreases n - i,
        {
            proof {
                assert(t[i as int] == self.templates@[i as int]@);
            }
            let template: &ClassTemplate = &self.templates[i];
            if !self.chain_ends(template.name.as_slice(), n) || !self.are_registered(
                &template.class_methods,
            ) || !self.are_registered(&template.instance_methods) {
                return false;
            }
            i += 1;
        }
        proof {
            assert forall|name: Seq<u8>| #[trigger] template_chain_ends(t, name, t.len()) by {
                lemma_template_named(t, name);
            }
        }
        true
    }

    /// The class of this name, or its metaclass.
    pub(crate) fn get_class(&self, name: &[u8], is_metaclass: bool, mem: &Mem) -> (r: Option<Class>)
        ensures
            r == lookup(self@, mem@, name@, is_metaclass),
    {
        match self.classes.get(name) {
            Some(class) => Some(
                if is_metaclass {
                    mem.read_u32(class)
                } else {
                    class
                },
            ),
            None => None,
        }
    }

    /// The object for the class or metaclass of this name.
    fn linked_object(&self, name: &[u8], is_metaclass: bool, superclass: Class) -> (r: HostObject)
        requires
            self@.linkable(),
        ensures
            r@ == linked_object(self@, name@, is_metaclass, superclass),
    {
        match self.find_template(name) {
            Some(i) => {
                proof {
                    assert(self@.templates[i as int] == self.templates@[i as int]@);
                }
                let class: ClassHostObject = ClassHostObject::from_template(
                    &self.templates[i],
                    is_metaclass,
                    superclass,
                    &self.selectors,
                );
                HostObject::Class { class }
            },
            None => if fake_name(name) {
                HostObject::Fake { name: copy_name(name), is_metaclass }
            } else {
                HostObject::Unimplemented { name: copy_name(name), is_metaclass }
            },
        }
    }

    /// Makes an object.
    fn alloc_static_object(&mut self, isa: Class, object: HostObject, mem: &mut Mem) -> (p: id)
        requires
            old(mem)@.room() >= 16,
        ensures
            p == old(mem)@.heap,
            (Runtime { objc: final(self)@, mem: final(mem)@ }) == (Runtime {
                objc: old(self)@,
                mem: old(mem)@,
            }).with_new_object(isa, object@),
            final(mem)@.heap == old(mem)@.heap + 16,
    {
        let p: u32 = mem.alloc_and_write_u32(isa);
        proof {
            mem::lemma_poke_u32_heap(old(mem)@.grow(4), p, isa);
        }
        self.register_static_object(p, object);
        p
    }

    /// Makes a class and its metaclass.
    fn alloc_class(
        &mut self,
        name: &[u8],
        isa: Class,
        class: HostObject,
        metaclass: HostObject,
        mem: &mut Mem,
    )
        requires
            old(mem)@.room() >= 32,
        ensures
            (Runtime { objc: final(self)@, mem: final(mem)@ }) == (Runtime {
                objc: old(self)@,
                mem: old(mem)@,
            }).with_new_class(name@, isa, class@, metaclass@),
            final(mem)@.heap == old(mem)@.heap + 32,
    {
        let m: id = self.alloc_static_object(isa, metaclass, mem);
        let c: id = self.alloc_static_object(m, class, mem);
        self.classes.insert(copy_name(name), c);
    }

    /// Links the root class.
    fn link_root(&mut self, mem: &mut Mem)
        requires
            old(self)@.linkable(),
            old(mem)@.room() >= 32,
        ensures
            (Runtime { objc: final(self)@, mem: final(mem)@ }) == (Runtime {
                objc: old(self)@,
                mem: old(mem)@,
            }).with_root(),
            final(mem)@.heap <= old(mem)@.heap + 32,
            final(self)@.templates == old(self)@.templates,
            final(self)@.selectors == old(self)@.selectors,
    {
        let name: &[u8] = "NSObject".as_bytes();
        if self.classes.get(name).is_some() {
            return;
        }
        let metaclass: u32 = mem.next_block();
        let c: HostObject = self.linked_object(name, false, nil);
        let m: HostObject = self.linked_object(name, true, metaclass + 16);
        self.alloc_class(name, metaclass, c, m, mem);
    }

    /// Links a class.
    fn link_inner(&mut self, name: &[u8], mem: &mut Mem, Ghost(n): Ghost<nat>)
        requires
            old(self)@.linkable(),
            template_chain_ends(old(self)@.templates, name@, n),
            old(mem)@.room() >= 64 * (n + 1),
        ensures
            (Runtime { objc: final(self)@, mem: final(mem)@ }) == (Runtime {
                objc: old(self)@,
                mem: old(mem)@,
            }).with_class(name@, n),
            final(mem)@.heap <= old(mem)@.heap + 64 * (n + 1),
            final(self)@.templates == old(self)@.templates,
            final(self)@.selectors == old(self)@.selectors,
        decreases n,
    {
        if self.classes.get(name).is_some() {
            return;
        }
        if name_is(name, "NSObject") {
            self.link_root(mem);
            return;
        }
        if !plausible_name(name) {
            return;
        }
        let mut super_class: Class = nil;
        let mut super_metaclass: Class = nil;
        if let Some(i) = self.find_template(name) {
            proof {
                assert(self@.templates[i as int] == self.templates@[i as int]@);
            }
            let above: Option<Name> = match &self.templates[i].superclass {
                Some(above) => Some(copy_name(above.as_slice())),
                None => None,
            };
            if let Some(above) = above {
                self.link_inner(above.as_slice(), mem, Ghost((n - 1) as nat));
                super_class = match self.get_class(above.as_slice(), false, mem) {
                    Some(class) => class,
                    None => nil,
                };
                super_metaclass = match self.get_class(above.as_slice(), true, mem) {
                    Some(class) => class,
                    None => nil,
                };
            }
        }
        self.link_root(mem);
        let isa: Class = match self.get_class("NSObject".as_bytes(), true, mem) {
            Some(class) => class,
            None => nil,
        };
        let c: HostObject = self.linked_object(name, false, super_class);
        let m: HostObject = self.linked_object(name, true, super_metaclass);
        self.alloc_class(name, isa, c, m, mem);
    }

    /// Gets a class or metaclass, linking it if it is not there yet. The class
    /// and metaclass are created together and tracked together, whichever is
    /// requested first.
    pub(crate) fn link_class_inner(&mut self, name: &[u8], is_metaclass: bool, mem: &mut Mem) -> (
    class: Class)
        requires
            old(self)@.link_ready(old(mem)@, name@),
        ensures
            ({
                let r = old(self)@.linked(old(mem)@, name@);
                &&& final(self)@ == r.objc
                &&& final(mem)@ == r.mem
                &&& class == lookup_or_nil(r.objc, r.mem, name@, is_metaclass)
                &&& old(self)@.linkable() ==> final(self)@.linkable()
                &&& final(self)@.templates == old(self)@.templates
                &&& final(mem)@.room() >= old(mem)@.room() - old(self)@.link_cost()
            }),
    {
        if self.classes.get(name).is_none() {
            if !name_is(name, "NSObject") && !plausible_name(name) {
                return nil;
            }
            self.link_inner(name, mem, Ghost(self@.templates.len()));
        }
        match self.get_class(name, is_metaclass, mem) {
            Some(class) => class,
            None => nil,
        }
    }

    /// For use by the dynamic linker: get the class or metaclass referenced by
    /// an external relocation in the app binary. If we don't have an
    /// implementation of the class, a placeholder is used.
    pub fn link_class(&mut self, name: &str, is_metaclass: bool, mem: &mut Mem) -> (class: Class)
        requires
            old(self)@.link_ready(old(mem)@, name_of(name@)),
        ensures
            ({
                let r = old(self)@.linked(old(mem)@, name_of(name@));
                &&& final(self)@ == r.objc
                &&& final(mem)@ == r.mem
                &&& class == lookup_or_nil(r.objc, r.mem, name_of(name@), is_metaclass)
                &&& old(self)@.linkable() ==> final(self)@.linkable()
                &&& final(self)@.templates == old(self)@.templates
                &&& final(mem)@.room() >= old(mem)@.room() - old(self)@.link_cost()
            }),
    {
        self.link_class_inner(name.as_bytes(), is_metaclass, mem)
    }

    /// For use by host functions: get a particular class. There has to be an
    /// implementation of the class; where that is not certain, there is
    /// [ObjC::try_get_known_class].
    pub fn get_known_class(&mut self, name: &str, mem: &mut Mem) -> (class: Class)
        requires
            old(self)@.is_implemented(name_of(name@)),
            old(self)@.link_ready(old(mem)@, name_of(name@)),
        ensures
            ({
                let r = old(self)@.linked(old(mem)@, name_of(name@));
                &&& final(self)@ == r.objc
                &&& final(mem)@ == r.mem
                &&& class == lookup_or_nil(r.objc, r.mem, name_of(name@), false)
                &&& old(self)@.linkable() ==> final(self)@.linkable()
                &&& final(self)@.templates == old(self)@.templates
                &&& final(mem)@.room() >= old(mem)@.room() - old(self)@.link_cost()
            }),
    {
        self.link_class_inner(name.as_bytes(), false, mem)
    }

    /// For use by host functions when the caller wants to handle the
    /// "class does not exist" case gracefully (e.g. falling back to the
    /// original class when the app-defined custom class is missing). Returns
    /// `Some(class)` if the class is already registered or a host-side
    /// template exists for it; otherwise returns `None` instead of installing
    /// a placeholder.
    pub fn try_get_known_class(&mut self, name: &str, mem: &mut Mem) -> (class: Option<Class>)
        requires
            old(self)@.known_ready(old(mem)@, name_of(name@)),
        ensures
            ({
                let r = old(self)@.known(old(mem)@, name_of(name@));
                &&& final(self)@ == r.objc
                &&& final(mem)@ == r.mem
                &&& class == old(self)@.known_class(old(mem)@, name_of(name@))
                &&& old(self)@.linkable() ==> final(self)@.linkable()
                &&& final(self)@.templates == old(self)@.templates
                &&& final(mem)@.room() >= old(mem)@.room() - old(self)@.link_cost()
            }),
    {
        self.try_known(name.as_bytes(), mem)
    }

    /// As [ObjC::try_get_known_class], for a name that is given by its bytes.
    pub(crate) fn try_known(&mut self, name: &[u8], mem: &mut Mem) -> (class: Option<Class>)
        requires
            old(self)@.known_ready(old(mem)@, name@),
        ensures
            ({
                let r = old(self)@.known(old(mem)@, name@);
                &&& final(self)@ == r.objc
                &&& final(mem)@ == r.mem
                &&& class == old(self)@.known_class(old(mem)@, name@)
                &&& old(self)@.linkable() ==> final(self)@.linkable()
                &&& final(self)@.templates == old(self)@.templates
                &&& final(mem)@.room() >= old(mem)@.room() - old(self)@.link_cost()
            }),
    {
        if let Some(class) = self.get_class(name, false, mem) {
            return Some(class);
        }
        if self.find_template(name).is_some() {
            let class: Class = self.link_class_inner(name, false, mem);
            return Some(class);
        }
        None
    }
}

impl ObjCState {
    /// The runtime after a class was looked up that is linked only if it has a
    /// template.
    pub open spec fn known(self, m: MemState, name: Seq<u8>) -> Runtime {
        if template_of(self.templates, name) is Some {
            self.linked(m, name)
        } else {
            Runtime { objc: self, mem: m }
        }
    }

    /// The class of this name, if it is linked or has a template.
    pub open spec fn known_class(self, m: MemState, name: Seq<u8>) -> Option<Class> {
        let r = self.known(m, name);
        if lookup(self, m, name, false) is Some || template_of(self.templates, name) is Some {
            Some(lookup_or_nil(r.objc, r.mem, name, false))
        } else {
            None
        }
    }
}

impl ObjCState {
    /// Whether `class` is `superclass`, or that is above it.
    pub open spec fn is_subclass(self, class: Class, superclass: Class) -> bool {
        class == superclass || (superclass != nil && exists|k: nat|
            #[trigger] self.ancestor(class, k) == superclass)
    }

    /// Whether going up from `class` comes to nil or to `superclass`.
    pub open spec fn search_ends(self, class: Class, superclass: Class) -> bool {
        exists|k: nat|
            k > 0 && (#[trigger] self.ancestor(class, k) == nil || self.ancestor(class, k)
                == superclass)
    }

    /// Whether going up from `class` comes to nil or to `superclass` after at most
    /// `n` steps.
    pub open spec fn search_ends_within(self, class: Class, superclass: Class, n: nat) -> bool {
        exists|k: nat|
            0 < k <= n && (#[trigger] self.ancestor(class, k) == nil || self.ancestor(class, k)
                == superclass)
    }

    /// The name of a class, a placeholder or a fake.
    pub open spec fn class_name(self, class: Class) -> Option<Seq<u8>> {
        if self.objects.contains_key(class) {
            match self.objects[class] {
                ObjectView::Class { class } => Some(class.name),
                ObjectView::Unimplemented { name, .. } => Some(name),
                ObjectView::Fake { name, .. } => Some(name),
                ObjectView::Other => None,
            }
        } else {
            None
        }
    }

    /// The name of a class, or what stands for one that is unknown.
    pub open spec fn class_name_or_unknown(self, class: Class) -> Seq<u8> {
        match self.class_name(class) {
            Some(name) => name,
            None => name_of("<unknown>"@),
        }
    }

    /// Whether `class` is a placeholder.
    pub open spec fn is_unimplemented(self, class: Class) -> bool {
        class != nil && self.objects.contains_key(class) && self.objects[class] is Unimplemented
    }

    /// Whether `class` is a fake.
    pub open spec fn is_fake(self, class: Class) -> bool {
        class != nil && self.objects.contains_key(class) && self.objects[class] is Fake
    }
}

/// Going up in two parts is going up once.
pub proof fn lemma_ancestor_sum(o: ObjCState, c: Class, j: nat, k: nat)
    ensures
        o.ancestor(o.ancestor(c, j), k) == o.ancestor(c, j + k),
    decreases k,
{
    if k > 0 {
        lemma_ancestor_sum(o, c, j, (k - 1) as nat);
    }
}

impl ObjC {
    /// Whether going up from `class` comes to nil or to `superclass` after at most
    /// `n` steps. Then [ObjC::class_is_subclass_of] has an answer.
    pub fn search_ends_within(&self, class: Class, superclass: Class, n: u32) -> (b: bool)
        ensures
            b == self@.search_ends_within(class, superclass, n as nat),
            b ==> self@.search_ends(class, superclass),
    {
        let ghost o = self@;
        let mut at: Class = class;
        let mut k: u32 = 0;
        while k < n
            invariant
                o == self@,
                k <= n,
                at == o.ancestor(class, k as nat),
                forall|j: nat| 0 < j <= k ==> #[trigger] o.ancestor(class, j) != nil && o.ancestor(
                    class,
                    j,
                ) != superclass,
            decreases n - k,
        {
            at = if at == nil {
                nil
            } else {
                self.get_superclass(at)
            };
            k += 1;
            proof {
                assert(at == o.ancestor(class, k as nat));
            }
            if at == nil || at == superclass {
                return true;
            }
        }
        false
    }

    /// Whether `class` is `superclass` or a subclass of it.
    pub fn class_is_subclass_of(&self, class: Class, superclass: Class) -> (b: bool)
        requires
            class == superclass || self@.search_ends(class, superclass),
        ensures
            b == self@.is_subclass(class, superclass),
    {
        if class == superclass {
            return true;
        }
        let ghost o = self@;
        if class == nil {
            proof {
                assert forall|j: nat| #[trigger] o.ancestor(class, j) == nil by {
                    lemma_ancestor_nil(o, class, 0, j);
                }
            }
            return false;
        }
        let ghost end = choose|k: nat|
            k > 0 && (#[trigger] o.ancestor(class, k) == nil || o.ancestor(class, k) == superclass);
        let mut at: Class = class;
        let ghost mut k: nat = 0;
        loop
            invariant
                o == self@,
                at != nil,
                class != superclass,
                k < end,
                o.ancestor(class, end) == nil || o.ancestor(class, end) == superclass,
                at == o.ancestor(class, k),
                forall|j: nat| 0 < j <= k ==> #[trigger] o.ancestor(class, j) != nil && o.ancestor(
                    class,
                    j,
                ) != superclass,
            decreases end - k,
        {
            let next: Class = self.get_superclass(at);
            proof {
                assert(next == o.ancestor(class, k + 1));
            }
            if next == nil {
                proof {
                    assert forall|j: nat| superclass != nil implies #[trigger] o.ancestor(class, j)
                        != superclass by {
                        if j > k {
                            lemma_ancestor_nil(o, class, k + 1, (j - (k + 1)) as nat);
                        }
                    }
                }
                return false;
            }
            if next == superclass {
                return true;
            }
            at = next;
            proof {
                k = k + 1;
            }
        }
    }

    /// Check whether `class` is a placeholder for a class that is not
    /// implemented.
    pub fn is_unimplemented_class(&self, class: Class) -> (b: bool)
        ensures
            b == self@.is_unimplemented(class),
    {
        if class == nil {
            return false;
        }
        match self.get_host_object(class) {
            Some(HostObject::Unimplemented { .. }) => true,
            _ => false,
        }
    }

    /// Check whether `class` is a "fake" class, i.e. one we tolerate the
    /// existence of without truly implementing.
    pub fn is_fake_class(&self, class: Class) -> (b: bool)
        ensures
            b == self@.is_fake(class),
    {
        if class == nil {
            return false;
        }
        match self.get_host_object(class) {
            Some(HostObject::Fake { .. }) => true,
            _ => false,
        }
    }

    /// The name of a class, or a placeholder name.
    pub fn get_class_name(&self, class: Class) -> (name: Name)
        ensures
            name@ == self@.class_name_or_unknown(class),
    {
        match self.try_get_class_name(class) {
            Some(name) => name,
            None => copy_name("<unknown>".as_bytes()),
        }
    }

    /// The name of a class.
    pub fn try_get_class_name(&self, class: Class) -> (name: Option<Name>)
        ensures
            name.is_some() == self@.class_name(class).is_some(),
            name.is_some() ==> name.unwrap()@ == self@.class_name(class).unwrap(),
    {
        match self.get_host_object(class) {
            Some(HostObject::Class { class }) => Some(copy_name(class.name.as_slice())),
            Some(HostObject::Unimplemented { name, .. }) => Some(copy_name(name.as_slice())),
            Some(HostObject::Fake { name, .. }) => Some(copy_name(name.as_slice())),
            _ => None,
        }
    }
}

/// Above nil there is only nil.
pub proof fn lemma_ancestor_nil(o: ObjCState, c: Class, k: nat, more: nat)
    requires
        o.ancestor(c, k) == nil,
    ensures
        o.ancestor(c, k + more) == nil,
    decreases more,
{
    if more > 0 {
        lemma_ancestor_nil(o, c, k, (more - 1) as nat);
    }
}

} // verus!
