//! The functions of `<objc/runtime.h>` and of the runtime support library that
//! the guest calls.
use crate::environment::{EnvState, Environment};
use crate::libc::stdio::text;
use crate::mem;
use crate::objc::classes;
use crate::objc::classes::{
    id, nil, Class, ClassHostObject, ClassView, HostObject, ObjC, ObjCState, Runtime, SEL,
};
use crate::objc::methods;
use crate::objc::names;
use crate::objc::names::{Name, NameMap};
use vstd::prelude::*;
use vstd::utf8::*;

verus! {

broadcast use vstd::std_specs::hash::group_hash_axioms;

/// A message that the host has to send.
#[derive(Clone, Copy, PartialEq, Eq, Structural, Debug)]
pub enum Message {
    Retain { object: id },
    Release { object: id },
    Autorelease { object: id },
    /// `[class alloc]`
    Alloc { class: Class },
    /// `[class allocWithZone:zone]`
    AllocWithZone { class: Class, zone: u32 },
    /// `[class initialize]`, without initializing the class for it.
    Initialize { class: Class, sel: SEL },
}

/// What a function returns once the host has sent these messages, in order.
pub struct Call {
    pub messages: Vec<Message>,
    pub value: id,
}

impl EnvState {
    /// The environment with these tables and this memory.
    pub open spec fn with_runtime(self, r: Runtime) -> EnvState {
        EnvState { objc: r.objc, mem: r.mem, ..self }
    }

    /// Whether the class can be looked up whose name is at `name`.
    pub open spec fn lookup_ready(self, name: u32) -> bool {
        let text = self.mem.cstr(name);
        name != 0 && valid_utf8(text) ==> self.objc.known_ready(self.mem, text)
    }

    /// The environment after the class was looked up whose name is at `name`.
    pub open spec fn with_class_named(self, name: u32) -> EnvState {
        let text = self.mem.cstr(name);
        if name != 0 && valid_utf8(text) {
            self.with_runtime(self.objc.known(self.mem, text))
        } else {
            self
        }
    }

    /// The class whose name is at `name`, if it is linked or has a template;
    /// otherwise nil.
    pub open spec fn class_named(self, name: u32) -> Class {
        let text = self.mem.cstr(name);
        if name != 0 && valid_utf8(text) {
            match self.objc.known_class(self.mem, text) {
                Some(class) => class,
                None => nil,
            }
        } else {
            nil
        }
    }

    /// The class of an object: what its `isa` points to.
    pub open spec fn class_of(self, obj: id) -> Class {
        if obj == nil {
            nil
        } else {
            self.mem.peek_u32(obj)
        }
    }
}

/// `Class objc_getClass(const char *name)`: returns the class of this name, or
/// nil if there is no such class.
pub fn objc_getClass(env: &mut Environment, name: u32) -> (class: Class)
    requires
        old(env)@.lookup_ready(name),
    ensures
        class == old(env)@.class_named(name),
        final(env)@ == old(env)@.with_class_named(name),
{
    if name == 0 {
        return nil;
    }
    let text: Name = env.mem.cstr_at(name);
    if text::char_count(&text).is_none() {
        return nil;
    }
    match env.objc.try_known(text.as_slice(), &mut env.mem) {
        Some(class) => class,
        None => nil,
    }
}

/// Returns the class whose name is at `name`, or nil.
pub fn objc_begin_catch(env: &mut Environment, name: u32) -> (class: Class)
    requires
        old(env)@.lookup_ready(name),
    ensures
        class == old(env)@.class_named(name),
        final(env)@ == old(env)@.with_class_named(name),
{
    objc_getClass(env, name)
}

/// Returns the class whose name is at `name`, or nil.
pub fn objc_end_catch(env: &mut Environment, name: u32) -> (class: Class)
    requires
        old(env)@.lookup_ready(name),
    ensures
        class == old(env)@.class_named(name),
        final(env)@ == old(env)@.with_class_named(name),
{
    objc_getClass(env, name)
}

/// Returns the class whose name is at `name`, or nil.
pub fn objc_exception_throw(env: &mut Environment, name: u32) -> (class: Class)
    requires
        old(env)@.lookup_ready(name),
    ensures
        class == old(env)@.class_named(name),
        final(env)@ == old(env)@.with_class_named(name),
{
    objc_getClass(env, name)
}

/// Returns the class whose name is at `name`, or nil.
pub fn objc_retainAutoreleasedReturnValue(env: &mut Environment, name: u32) -> (class: Class)
    requires
        old(env)@.lookup_ready(name),
    ensures
        class == old(env)@.class_named(name),
        final(env)@ == old(env)@.with_class_named(name),
{
    objc_getClass(env, name)
}

/// Returns the class whose name is at `name`, or nil.
pub fn objc_autoreleaseReturnValue(env: &mut Environment, name: u32) -> (class: Class)
    requires
        old(env)@.lookup_ready(name),
    ensures
        class == old(env)@.class_named(name),
        final(env)@ == old(env)@.with_class_named(name),
{
    objc_getClass(env, name)
}

/// Returns the class whose name is at `name`, or nil.
pub fn objc_retainAutoreleaseReturnValue(env: &mut Environment, name: u32) -> (class: Class)
    requires
        old(env)@.lookup_ready(name),
    ensures
        class == old(env)@.class_named(name),
        final(env)@ == old(env)@.with_class_named(name),
{
    objc_getClass(env, name)
}

/// Autorelease pools are managed through `NSAutoreleasePool` objects, so nothing is
/// pushed here, and nil is returned.
pub fn objc_autoreleasePoolPush(env: &mut Environment, _name: u32) -> (class: Class)
    ensures
        class == nil,
        final(env)@ == old(env)@,
{
    nil
}

/// `Class objc_lookUpClass(const char *name)` — the behaviour is identical to
/// [objc_getClass].
pub fn objc_lookUpClass(env: &mut Environment, name: u32) -> (class: Class)
    requires
        old(env)@.lookup_ready(name),
    ensures
        class == old(env)@.class_named(name),
        final(env)@ == old(env)@.with_class_named(name),
{
    objc_getClass(env, name)
}

/// `Class objc_getRequiredClass(const char *name)` — same as [objc_getClass].
/// Returning nil for a missing class keeps the guest alive.
pub fn objc_getRequiredClass(env: &mut Environment, name: u32) -> (class: Class)
    requires
        old(env)@.lookup_ready(name),
    ensures
        class == old(env)@.class_named(name),
        final(env)@ == old(env)@.with_class_named(name),
{
    objc_getClass(env, name)
}

/// The class of an object, whose name is not looked up.
pub fn object_getClassName(env: &Environment, obj: id) -> (class: Class)
    ensures
        class == env@.class_of(obj),
{
    object_getClass(env, obj)
}

/// The class of an object.
pub fn object_getClass(env: &Environment, obj: id) -> (class: Class)
    ensures
        class == env@.class_of(obj),
{
    if obj == nil {
        return nil;
    }
    env.mem.read_u32(obj)
}

/// Autorelease pools are managed through `NSAutoreleasePool` objects, so there
/// is nothing to drain here.
pub fn objc_autoreleasePoolPop(env: &mut Environment, _context: u32)
    ensures
        final(env)@ == old(env)@,
{
}

/// The superclass of a class.
pub fn class_getSuperclass(env: &Environment, cls: Class) -> (superclass: Class)
    ensures
        superclass == env@.objc.above(cls),
{
    if cls == nil {
        return nil;
    }
    env.objc.get_superclass(cls)
}

/// A message to `obj`, unless that is nil.
fn message_to(obj: id, message: Message) -> (call: Call)
    ensures
        call.value == obj,
        call.messages@ == (if obj == nil {
            seq![]
        } else {
            seq![message]
        }),
{
    let mut messages: Vec<Message> = Vec::new();
    if obj != nil {
        messages.push(message);
    }
    proof {
        assert(messages@ =~= (if obj == nil {
            seq![]
        } else {
            seq![message]
        }));
    }
    Call { messages, value: obj }
}

/// Retains an object and returns it.
pub fn objc_retain(_env: &Environment, obj: id) -> (call: Call)
    ensures
        call.value == obj,
        call.messages@ == (if obj == nil {
            seq![]
        } else {
            seq![Message::Retain { object: obj }]
        }),
{
    message_to(obj, Message::Retain { object: obj })
}

/// Releases an object and returns it.
pub fn objc_release(_env: &Environment, obj: id) -> (call: Call)
    ensures
        call.value == obj,
        call.messages@ == (if obj == nil {
            seq![]
        } else {
            seq![Message::Release { object: obj }]
        }),
{
    message_to(obj, Message::Release { object: obj })
}

/// `void _objc_deallocOnMainThreadHelper(void *context)` — releases the object
/// `context`. The guest's execution is serialised, so "release on the main
/// thread" reduces to "release now".
pub fn __objc_deallocOnMainThreadHelper(_env: &Environment, context: u32) -> (call: Call)
    ensures
        call.value == context,
        call.messages@ == (if context == nil {
            seq![]
        } else {
            seq![Message::Release { object: context }]
        }),
{
    message_to(context, Message::Release { object: context })
}

/// Exception handling is not implemented: returns
/// `_URC_FATAL_PHASE1_ERROR`.
pub fn ___objc_personality_v0(
    _env: &Environment,
    _version: i32,
    _actions: i32,
    _exception_class: u64,
    _exception_object: u32,
    _context: u32,
) -> (code: i32)
    ensures
        code == 3,
{
    3
}

/// `_objc_msgForward` — the runtime's message forwarding trampoline, which is
/// not implemented. Returning nil matches the behaviour of sending a message
/// to nil.
pub fn objc_msgForward(_env: &Environment, _receiver: id, _sel: SEL) -> (r: id)
    ensures
        r == nil,
{
    nil
}

/// `_objc_msgForward_stret` — struct-return variant of `_objc_msgForward`. It
/// returns without writing to the stret buffer.
pub fn objc_msgForward_stret(env: &mut Environment, _stret: u32, _receiver: id, _sel: SEL)
    ensures
        final(env)@ == old(env)@,
{
}

/// A store to a strong reference that has begun: the object that is there is
/// to be released, and the new one is to be retained first.
#[derive(Clone, Copy, PartialEq, Eq, Structural, Debug)]
pub struct StrongStore {
    pub location: u32,
    pub obj: id,
    pub prev: id,
}

/// `void objc_storeStrong(id *location, id obj)` — ARC's strong-store runtime
/// helper:
///
/// ```text
/// id prev = *location;
/// if (prev == obj) return;
/// objc_retain(obj);
/// *location = obj;
/// objc_release(prev);
/// ```
///
/// Returns the store that is to be done, if there is one.
pub fn objc_storeStrong(env: &Environment, location: u32, obj: id) -> (r: Option<StrongStore>)
    ensures
        r == (if location == 0 || env@.mem.peek_u32(location) == obj {
            None
        } else {
            Some(StrongStore { location, obj, prev: env@.mem.peek_u32(location) })
        }),
{
    if location == 0 {
        return None;
    }
    let prev: id = env.mem.read_u32(location);
    if prev == obj {
        return None;
    }
    Some(StrongStore { location, obj, prev })
}

impl StrongStore {
    /// The message to send before the store.
    pub fn before(&self) -> (message: Option<Message>)
        ensures
            message == (if self.obj == nil {
                None
            } else {
                Some(Message::Retain { object: self.obj })
            }),
    {
        if self.obj == nil {
            None
        } else {
            Some(Message::Retain { object: self.obj })
        }
    }

    /// Stores the object. Returns the message to send after that.
    pub fn commit(&self, env: &mut Environment) -> (message: Option<Message>)
        ensures
            final(env)@ == (EnvState {
                mem: old(env)@.mem.poke_u32(self.location, self.obj),
                ..old(env)@
            }),
            message == (if self.prev == nil {
                None
            } else {
                Some(Message::Release { object: self.prev })
            }),
    {
        env.mem.write_u32(self.location, self.obj);
        if self.prev == nil {
            None
        } else {
            Some(Message::Release { object: self.prev })
        }
    }
}

/// Retains and autoreleases an object and returns it.
pub fn objc_retainAutorelease(_env: &Environment, obj: id) -> (call: Call)
    ensures
        call.value == obj,
        call.messages@ == (if obj == nil {
            seq![]
        } else {
            seq![Message::Retain { object: obj }, Message::Autorelease { object: obj }]
        }),
{
    let mut call: Call = message_to(obj, Message::Retain { object: obj });
    if obj != nil {
        call.messages.push(Message::Autorelease { object: obj });
    }
    proof {
        assert(call.messages@ =~= (if obj == nil {
            seq![]
        } else {
            seq![Message::Retain { object: obj }, Message::Autorelease { object: obj }]
        }));
    }
    call
}

/// `id objc_alloc(Class cls)` — ARC/libobjc fast-path allocator, equivalent to
/// `[cls alloc]`. Returns the message whose result it returns; without one it
/// returns nil.
pub fn objc_alloc(_env: &Environment, cls: Class) -> (message: Option<Message>)
    ensures
        message == (if cls == nil {
            None
        } else {
            Some(Message::Alloc { class: cls })
        }),
{
    if cls == nil {
        return None;
    }
    Some(Message::Alloc { class: cls })
}

/// `id objc_autorelease(id obj)` — ARC/libobjc fast-path autorelease: the
/// object is added to the current autorelease pool and returned unchanged.
pub fn objc_autorelease(_env: &Environment, obj: id) -> (call: Call)
    ensures
        call.value == obj,
        call.messages@ == (if obj == nil {
            seq![]
        } else {
            seq![Message::Autorelease { object: obj }]
        }),
{
    message_to(obj, Message::Autorelease { object: obj })
}

/// `id objc_retainBlock(id block)` — blocks are not physically duplicated, so
/// it returns the same pointer.
pub fn objc_retainBlock(_env: &Environment, block: id) -> (r: id)
    ensures
        r == block,
{
    block
}

/// `id objc_unsafeClaimAutoreleasedReturnValue(id obj)` — there is no
/// retain/autorelease elision to undo, so the object is returned unchanged.
pub fn objc_unsafeClaimAutoreleasedReturnValue(_env: &Environment, obj: id) -> (r: id)
    ensures
        r == obj,
{
    obj
}

impl EnvState {
    /// The address of the name of a class. A new one comes from the heap.
    pub open spec fn class_name_ptr(self, cls: Class) -> u32 {
        if self.objc.class_names.contains_key(cls) {
            self.objc.class_names[cls]
        } else {
            self.mem.heap
        }
    }

    /// Whether the name of a class is stored, or memory for it is left. Nil has no
    /// name.
    pub open spec fn class_name_ready(self, cls: Class) -> bool {
        cls == nil || self.objc.class_names.contains_key(cls) || self.mem.room()
            >= self.objc.class_name_or_unknown(cls).len() + 32
    }

    /// The environment in which the name of a class is stored for the guest.
    pub open spec fn with_class_name(self, cls: Class) -> EnvState {
        let name = self.objc.class_name_or_unknown(cls);
        if self.objc.class_names.contains_key(cls) {
            self
        } else {
            EnvState {
                mem: self.mem.grow((name.len() + 1) as u32).poke_cstr(self.mem.heap, name),
                objc: ObjCState {
                    class_names: self.objc.class_names.insert(cls, self.mem.heap),
                    ..self.objc
                },
                ..self
            }
        }
    }
}

/// `const char *class_getName(Class cls)` — returns the C-string class name.
/// We allocate the cstring in guest memory the first time a name is requested
/// per class and cache the pointer so repeated calls return the same address
/// (matching the guarantee that the returned pointer is stable for the
/// lifetime of the class). NULL for nil.
pub fn class_getName(env: &mut Environment, cls: Class) -> (ptr: u32)
    requires
        old(env)@.class_name_ready(cls),
    ensures
        if cls == nil {
            ptr == 0 && final(env)@ == old(env)@
        } else {
            ptr == old(env)@.class_name_ptr(cls) && final(env)@ == old(env)@.with_class_name(cls)
        },
{
    if cls == nil {
        return 0;
    }
    if let Some(ptr) = env.objc.stored_name(cls) {
        return ptr;
    }
    let name: Name = env.objc.get_class_name(cls);
    let ptr: u32 = env.mem.alloc_and_write_cstr(&name);
    env.objc.add_stored_name(cls, ptr);
    ptr
}

/// `Class objc_allocateClassPair(Class superclass, const char *name, size_t
/// extraBytes)` — used to dynamically create a new class, which is not
/// supported. We install a placeholder so the guest can decide to fall back.
pub fn objc_allocateClassPair(
    env: &mut Environment,
    _superclass: Class,
    name: u32,
    _extra_bytes: u32,
) -> (class: Class)
    requires
        valid_utf8(old(env)@.mem.cstr(name)) ==> old(env)@.objc.link_ready(
            old(env)@.mem,
            old(env)@.mem.cstr(name),
        ),
    ensures
        ({
            let text = old(env)@.mem.cstr(name);
            let r = old(env)@.objc.linked(old(env)@.mem, text);
            if valid_utf8(text) {
                class == classes::lookup_or_nil(r.objc, r.mem, text, false) && final(env)@ == old(
                    env,
                )@.with_runtime(r)
            } else {
                class == nil && final(env)@ == old(env)@
            }
        }),
{
    let text: Name = env.mem.cstr_at(name);
    if text::char_count(&text).is_none() {
        return nil;
    }
    env.objc.link_class_inner(text.as_slice(), false, &mut env.mem)
}

/// `Class objc_readClassPair(Class cls, const struct objc_image_info *info)` —
/// returns the input class unchanged.
pub fn objc_readClassPair(_env: &Environment, cls: Class, _info: u32) -> (r: Class)
    ensures
        r == cls,
{
    cls
}

impl EnvState {
    /// The selector of this name. A new one comes from the heap.
    pub open spec fn selector(self, name: Seq<u8>) -> SEL {
        match names::find(self.objc.selectors, name) {
            Some(sel) => sel,
            None => self.mem.heap,
        }
    }

    /// Whether there is a selector of this name, or memory for it is left.
    pub open spec fn selector_ready(self, name: Seq<u8>) -> bool {
        names::find(self.objc.selectors, name) is Some || self.mem.room() >= name.len() + 32
    }

    /// The environment in which there is a selector of this name.
    pub open spec fn with_selector(self, name: Seq<u8>) -> EnvState {
        match names::find(self.objc.selectors, name) {
            Some(_) => self,
            None => EnvState {
                mem: self.mem.grow((name.len() + 1) as u32).poke_cstr(self.mem.heap, name),
                objc: ObjCState {
                    selectors: names::put(self.objc.selectors, name, self.mem.heap),
                    ..self.objc
                },
                ..self
            },
        }
    }
}

/// Gets the selector of this name, registering it if it is not known yet.
pub fn register_host_selector(env: &mut Environment, name: &str) -> (sel: SEL)
    requires
        old(env)@.selector_ready(classes::name_of(name@)),
    ensures
        sel == old(env)@.selector(classes::name_of(name@)),
        final(env)@ == old(env)@.with_selector(classes::name_of(name@)),
{
    let name: Name = classes::copy_name(name.as_bytes());
    match env.objc.lookup_selector(name.as_slice()) {
        Some(sel) => sel,
        None => {
            let sel: SEL = env.mem.alloc_and_write_cstr(&name);
            env.objc.add_selector(name, sel);
            sel
        },
    }
}

/// Returns `cls`, which is to be initialized by the message first, if there is
/// one.
pub fn swift_getInitializedObjCClass(env: &mut Environment, cls: Class) -> (r: (
    Class,
    Option<Message>,
))
    requires
        cls != nil ==> old(env)@.selector_ready(classes::name_of("initialize"@)),
        cls != nil ==> ({
            let sel = old(env)@.selector(classes::name_of("initialize"@));
            let e = old(env)@.with_selector(classes::name_of("initialize"@));
            e.objc.walk_ends(e.mem.peek_u32(cls), sel)
        }),
    ensures
        r.0 == cls,
        if cls == nil {
            r.1 is None && final(env)@ == old(env)@
        } else {
            let sel = old(env)@.selector(classes::name_of("initialize"@));
            let e = old(env)@.with_selector(classes::name_of("initialize"@));
            final(env)@ == e && r.1 == (if e.objc.defining(e.mem.peek_u32(cls), sel) == nil {
                None
            } else {
                Some(Message::Initialize { class: cls, sel })
            })
        },
{
    if cls == nil {
        return (nil, None);
    }
    let sel: SEL = register_host_selector(env, "initialize");
    let metaclass: Class = env.mem.read_u32(cls);
    if env.objc.find_defining_class(metaclass, sel) == nil {
        (cls, None)
    } else {
        (cls, Some(Message::Initialize { class: cls, sel }))
    }
}

/// `[cls allocWithZone:zone]`. Returns the message whose result it returns;
/// without one it returns nil.
pub fn objc_allocWithZone(_env: &Environment, cls: Class, zone: u32) -> (message: Option<Message>)
    ensures
        message == (if cls == nil {
            None
        } else {
            Some(Message::AllocWithZone { class: cls, zone })
        }),
{
    if cls == nil {
        return None;
    }
    Some(Message::AllocWithZone { class: cls, zone })
}

/// `void objc_registerClassPair(Class cls)` — [objc_allocateClassPair] already
/// inserts the class into the runtime tables, so this is a no-op.
pub fn objc_registerClassPair(env: &mut Environment, _cls: Class)
    ensures
        final(env)@ == old(env)@,
{
}

/// `void objc_disposeClassPair(Class cls)` — class storage is not reclaimed.
pub fn objc_disposeClassPair(env: &mut Environment, _cls: Class)
    ensures
        final(env)@ == old(env)@,
{
}

impl ObjCState {
    /// The tables with another superclass of `cls`, if that is a class.
    pub open spec fn with_superclass(self, cls: Class, superclass: Class) -> ObjCState {
        match self.class(cls) {
            Some(class) => self.with_class(cls, ClassView { superclass, ..class }),
            None => self,
        }
    }
}

/// `Class class_setSuperclass(Class cls, Class newSuper)` — returns the
/// previous superclass and rewrites the class's inheritance chain in-place.
pub fn class_setSuperclass(env: &mut Environment, cls: Class, new_super: Class) -> (before: Class)
    ensures
        before == old(env)@.objc.above(cls),
        final(env)@ == (if cls == nil {
            old(env)@
        } else {
            EnvState { objc: old(env)@.objc.with_superclass(cls, new_super), ..old(env)@ }
        }),
{
    if cls == nil {
        return nil;
    }
    let before: Class = env.objc.get_superclass(cls);
    if let Some(class) = env.objc.take_class(cls) {
        let mut class: ClassHostObject = class;
        class.superclass = new_super;
        env.objc.register_static_object(cls, HostObject::Class { class });
        proof {
            assert(env@.objc =~= old(env)@.objc.with_superclass(cls, new_super));
        }
    }
    before
}

/// `Protocol *objc_getProtocol(const char *name)` — protocols are not modelled;
/// returns nil so any defensive `if (proto)` check skips the protocol-specific
/// path.
pub fn objc_getProtocol(_env: &Environment, _name: u32) -> (r: id)
    ensures
        r == nil,
{
    nil
}

/// `const char *protocol_getName(Protocol *p)` — returns NULL since we never
/// hand out a real Protocol pointer to the guest.
pub fn protocol_getName(_env: &Environment, _p: id) -> (r: u32)
    ensures
        r == 0,
{
    0
}

/// `BOOL protocol_conformsToProtocol(Protocol *proto, Protocol *other)` —
/// whether one protocol conforms to another.
pub fn protocol_conformsToProtocol(_env: &Environment, proto: id, other: id) -> (b: bool)
    ensures
        b == (proto != nil && other != nil && proto == other),
{
    if proto == nil || other == nil {
        return false;
    }
    proto == other
}

/// The values of a table of names, in the order of its entries.
pub open spec fn values(e: names::Entries<u32>) -> Seq<u32> {
    Seq::new(e.len(), |i: int| e[i].1)
}

/// The first `n` values of a table of names.
fn first_values(map: &NameMap<u32>, n: usize) -> (r: Vec<u32>)
    requires
        n <= map@.len(),
    ensures
        r@ == values(map@).take(n as int),
{
    let mut r: Vec<u32> = Vec::new();
    let mut i: usize = 0;
    while i < n
        invariant
            i <= n <= map@.len(),
            r@ == values(map@).take(i as int),
        decreases n - i,
    {
        r.push(map.value(i));
        i += 1;
        proof {
            assert(r@ =~= values(map@).take(i as int));
        }
    }
    r
}

/// `int objc_getClassList(Class *buffer, int bufferLen)`
///
/// Returns the number of currently registered classes. If `buffer` is NULL or
/// `bufferLen` is 0, it just returns the total count. Otherwise it copies up
/// to `bufferLen` Class pointers into `buffer`, but still returns the total
/// number registered.
pub fn objc_getClassList(env: &mut Environment, buffer: u32, buffer_len: i32) -> (total: i32)
    ensures
        total == (if old(env)@.objc.classes.len() <= i32::MAX {
            old(env)@.objc.classes.len() as i32
        } else {
            i32::MAX
        }),
        final(env)@ == (if buffer == 0 || buffer_len <= 0 {
            old(env)@
        } else {
            let all = values(old(env)@.objc.classes);
            EnvState {
                mem: old(env)@.mem.poke_words(
                    buffer,
                    if all.len() <= buffer_len {
                        all
                    } else {
                        all.take(buffer_len as int)
                    },
                ),
                ..old(env)@
            }
        }),
{
    let count: usize = env.objc.all_classes().len();
    let total: i32 = if count <= 0x7FFF_FFFF {
        count as i32
    } else {
        0x7FFF_FFFF
    };
    if buffer == 0 || buffer_len <= 0 {
        return total;
    }
    let n: usize = if count <= buffer_len as usize {
        count
    } else {
        buffer_len as usize
    };
    let classes: Vec<u32> = first_values(env.objc.all_classes(), n);
    proof {
        let all = values(env@.objc.classes);
        if all.len() <= buffer_len {
            assert(all.take(n as int) =~= all);
        }
    }
    env.mem.write_words(buffer, &classes);
    total
}

impl EnvState {
    /// The environment after `count` was stored, unless `out_count` is NULL.
    pub open spec fn with_count(self, out_count: u32, count: u32) -> EnvState {
        if out_count == 0 {
            self
        } else {
            EnvState { mem: self.mem.poke_u32(out_count, count), ..self }
        }
    }

    /// The environment after a new block was filled with these words and a
    /// NULL. It is where the heap's unallocated part started.
    pub open spec fn with_list(self, words: Seq<u32>) -> EnvState {
        EnvState {
            mem: self.mem.grow((4 * words.len() + 4) as u32).poke_words(
                self.mem.heap,
                words.push(0),
            ),
            ..self
        }
    }

    /// Whether there is memory for a list of `n` words.
    pub open spec fn list_ready(self, n: nat) -> bool {
        4 * n + 32 <= self.mem.room()
    }
}

/// Stores `count`, unless `out_count` is NULL.
fn store_count(env: &mut Environment, out_count: u32, count: u32)
    ensures
        final(env)@ == old(env)@.with_count(out_count, count),
{
    if out_count != 0 {
        env.mem.write_u32(out_count, count);
    }
}

/// `const char **objc_copyClassNamesForImage(const char *image, unsigned int
/// *outCount)` — image membership is not tracked, so the list is empty.
pub fn objc_copyClassNamesForImage(env: &mut Environment, _image: u32, out_count: u32) -> (r: u32)
    ensures
        r == 0,
        final(env)@ == old(env)@.with_count(out_count, 0),
{
    store_count(env, out_count, 0);
    0
}

/// `void *object_getIndexedIvars(id obj)` — extra bytes are not allocated, so
/// it returns the object pointer itself.
pub fn object_getIndexedIvars(_env: &Environment, obj: id) -> (r: u32)
    ensures
        r == obj,
{
    obj
}

impl ObjCState {
    /// The properties that a class itself declares.
    pub open spec fn declared_properties(self, cls: Class) -> Seq<u32> {
        match self.class(cls) {
            Some(class) => values(class.properties),
            None => seq![],
        }
    }

    /// The methods that a class itself has.
    pub open spec fn own_methods(self, cls: Class) -> Set<SEL> {
        match self.class(cls) {
            Some(class) => class.methods.dom(),
            None => Set::empty(),
        }
    }
}

/// `objc_property_t *class_copyPropertyList(Class cls, unsigned int *outCount)`
/// — returns a NULL-terminated, malloc'd array of `objc_property_t` opaque
/// pointers describing every declared `@property` in `cls` (not in its
/// superclasses). If the class declares no properties, the function returns
/// `NULL` and `*outCount` is `0`.
pub fn class_copyPropertyList(env: &mut Environment, cls: Class, out_count: u32) -> (r: u32)
    requires
        cls != nil && old(env)@.objc.declared_properties(cls).len() > 0 ==> old(env)@.list_ready(
            old(env)@.objc.declared_properties(cls).len(),
        ),
    ensures
        ({
            let e = old(env)@.with_count(out_count, 0);
            let words = old(env)@.objc.declared_properties(cls);
            if cls == nil || words.len() == 0 {
                r == 0 && final(env)@ == e
            } else {
                r == old(env)@.mem.heap && final(env)@ == e.with_list(words).with_count(
                    out_count,
                    words.len() as u32,
                )
            }
        }),
{
    proof {
        if out_count != 0 {
            mem::lemma_poke_u32_heap(env@.mem, out_count, 0);
        }
    }
    store_count(env, out_count, 0);
    if cls == nil {
        return 0;
    }
    let mut words: Vec<u32> = match env.objc.class(cls) {
        Some(class) => {
            let n: usize = class.properties.len();
            first_values(&class.properties, n)
        },
        None => Vec::new(),
    };
    proof {
        assert(words@ =~= old(env)@.objc.declared_properties(cls));
    }
    if words.len() == 0 {
        return 0;
    }
    let n: u32 = words.len() as u32;
    words.push(0);
    let buf: u32 = env.mem.allocate(4 * n + 4);
    env.mem.write_words(buf, &words);
    store_count(env, out_count, n);
    buf
}

impl EnvState {
    /// The environment after the `Method`s for the first `n` of these
    /// selectors were stored from `buf` on.
    pub open spec fn with_methods(self, cls: Class, sels: Seq<SEL>, buf: u32, n: nat) -> EnvState
        decreases n,
    {
        if n == 0 {
            self
        } else {
            let before = self.with_methods(cls, sels, buf, (n - 1) as nat);
            let e = before.with_handle(cls, sels[n - 1]);
            EnvState {
                mem: e.mem.poke_u32(
                    mem::wrap(buf + 4 * (n - 1)),
                    before.handle_ptr(cls, sels[n - 1]),
                ),
                ..e
            }
        }
    }

    /// The environment after a list of `Method`s was made for these selectors
    /// of a class.
    pub open spec fn with_method_list(self, cls: Class, sels: Seq<SEL>, out_count: u32) -> EnvState {
        let n = sels.len();
        let buf = self.mem.heap;
        let start = EnvState { mem: self.mem.grow((4 * n + 4) as u32), ..self };
        let e = start.with_methods(cls, sels, buf, n);
        EnvState { mem: e.mem.poke_u32(mem::wrap(buf + 4 * n), 0), ..e }.with_count(
            out_count,
            n as u32,
        )
    }
}

/// Making a `Method` takes at most one block, and a store none.
proof fn lemma_with_methods_heap(e: EnvState, cls: Class, sels: Seq<SEL>, buf: u32, n: nat)
    requires
        n <= sels.len(),
        e.mem.heap + 16 * n <= mem::HEAP_END,
    ensures
        e.with_methods(cls, sels, buf, n).mem.heap <= e.mem.heap + 16 * n,
    decreases n,
{
    if n > 0 {
        lemma_with_methods_heap(e, cls, sels, buf, (n - 1) as nat);
        let before = e.with_methods(cls, sels, buf, (n - 1) as nat);
        let sel = sels[n - 1];
        let ptr = before.mem.heap;
        mem::lemma_poke_u32_heap(before.mem.grow(8), ptr, cls);
        mem::lemma_poke_u32_heap(
            before.mem.grow(8).poke_u32(ptr, cls),
            mem::wrap(ptr + 4),
            sel,
        );
        mem::lemma_poke_u32_heap(
            before.with_handle(cls, sel).mem,
            mem::wrap(buf + 4 * (n - 1)),
            before.handle_ptr(cls, sel),
        );
    }
}

/// Makes a list of `Method`s for these selectors of a class.
pub fn method_list(env: &mut Environment, cls: Class, sels: &Vec<SEL>, out_count: u32) -> (buf: u32)
    requires
        old(env)@.mem.room() >= 20 * sels@.len() + 32,
    ensures
        buf == old(env)@.mem.heap,
        final(env)@ == old(env)@.with_method_list(cls, sels@, out_count),
{
    let n: u32 = sels.len() as u32;
    let buf: u32 = env.mem.allocate(4 * n + 4);
    let ghost start = env@;
    let mut i: u32 = 0;
    let mut q: u32 = buf;
    while i < n
        invariant
            i <= n,
            n == sels@.len(),
            q == mem::wrap(buf + 4 * i),
            start.mem.room() >= 16 * n,
            env@ == start.with_methods(cls, sels@, buf, i as nat),
        decreases n - i,
    {
        proof {
            lemma_with_methods_heap(start, cls, sels@, buf, i as nat);
            mem::lemma_wrap(buf + 4 * i, 4);
        }
        let handle: u32 = methods::method_handle_for(env, cls, sels[i as usize]);
        env.mem.write_u32(q, handle);
        q = mem::offset(q, 4);
        i += 1;
    }
    env.mem.write_u32(q, 0);
    store_count(env, out_count, n);
    buf
}

/// The selectors of the methods that a class itself has, in no particular
/// order.
fn own_selectors(objc: &ObjC, cls: Class) -> (sels: Vec<SEL>)
    ensures
        sels@.no_duplicates(),
        sels@.to_set() == objc@.own_methods(cls),
        sels@.len() == objc@.own_methods(cls).len(),
{
    let mut sels: Vec<SEL> = Vec::new();
    match objc.class(cls) {
        Some(class) => {
            for sel in iter: class.methods.keys()
                invariant
                    iter.seq().unref().to_set() == class.methods@.dom(),
                    sels@ == iter.seq().unref().take(iter.index() as int),
                    iter.index() == iter.seq().len() ==> sels@ == iter.seq().unref(),
            {
                sels.push(*sel);
                proof {
                    assert(sels@ =~= iter.seq().unref().take(iter.index() + 1));
                    assert(iter.index() + 1 == iter.seq().len() ==> sels@ =~= iter.seq().unref());
                }
            }
        },
        None => {
            proof {
                assert(sels@.to_set() =~= Set::empty());
            }
        },
    }
    sels
}

/// `Method *class_copyMethodList(Class cls, unsigned int *outCount)` — returns
/// a malloc'd array of `Method` pointers, one per instance method declared on
/// `cls`, in no particular order. If `cls` declares no instance methods,
/// returns `NULL` and `*outCount` is 0.
pub fn class_copyMethodList(env: &mut Environment, cls: Class, out_count: u32) -> (r: u32)
    requires
        cls != nil && old(env)@.objc.own_methods(cls).len() > 0 ==> old(env)@.mem.room() >= 20
            * old(env)@.objc.own_methods(cls).len() + 32,
    ensures
        ({
            let e = old(env)@.with_count(out_count, 0);
            let own = old(env)@.objc.own_methods(cls);
            if cls == nil || own.len() == 0 {
                r == 0 && final(env)@ == e
            } else {
                r == old(env)@.mem.heap && exists|sels: Seq<SEL>|
                    sels.no_duplicates() && sels.to_set() == own && final(env)@
                        == #[trigger] e.with_method_list(cls, sels, out_count)
            }
        }),
{
    proof {
        if out_count != 0 {
            mem::lemma_poke_u32_heap(env@.mem, out_count, 0);
        }
    }
    store_count(env, out_count, 0);
    if cls == nil {
        return 0;
    }
    let sels: Vec<SEL> = own_selectors(&env.objc, cls);
    if sels.len() == 0 {
        return 0;
    }
    method_list(env, cls, &sels, out_count)
}

/// `Ivar *class_copyIvarList(Class cls, unsigned int *outCount)` — ivars are
/// not modelled as opaque `Ivar` structs, so we return NULL with `*outCount =
/// 0`, which is the documented behaviour for a class that declares no ivars.
pub fn class_copyIvarList(env: &mut Environment, _cls: Class, out_count: u32) -> (r: u32)
    ensures
        r == 0,
        final(env)@ == old(env)@.with_count(out_count, 0),
{
    store_count(env, out_count, 0);
    0
}

/// `Protocol **class_copyProtocolList(Class cls, unsigned int *outCount)` —
/// adopted protocols are not modelled, so we return NULL with `*outCount = 0`,
/// which is also the answer for a class adopting no protocols.
pub fn class_copyProtocolList(env: &mut Environment, _cls: Class, out_count: u32) -> (r: u32)
    ensures
        r == 0,
        final(env)@ == old(env)@.with_count(out_count, 0),
{
    store_count(env, out_count, 0);
    0
}

impl ObjCState {
    /// The property of this name that `c` itself declares.
    pub open spec fn own_property(self, c: Class, name: Seq<u8>) -> Option<u32> {
        match self.class(c) {
            Some(class) => names::find(class.properties, name),
            None => None,
        }
    }

    /// Whether the class that is `k` steps up from `c` is the nearest one that
    /// declares the property `name`.
    pub open spec fn declares_nearest(self, c: Class, name: Seq<u8>, k: nat) -> bool {
        &&& self.ancestor(c, k) != nil
        &&& self.own_property(self.ancestor(c, k), name) is Some
        &&& forall|j: nat|
            j < k ==> self.own_property(#[trigger] self.ancestor(c, j), name) is None
    }

    /// The property `name` of `c`, which may inherit it; NULL if there is none.
    pub open spec fn property(self, c: Class, name: Seq<u8>) -> u32 {
        if exists|k: nat| self.declares_nearest(c, name, k) {
            let k = choose|k: nat| self.declares_nearest(c, name, k);
            self.own_property(self.ancestor(c, k), name).unwrap()
        } else {
            0
        }
    }

    /// Whether looking for a property from `c` upwards comes to an end.
    pub open spec fn property_walk_ends(self, c: Class, name: Seq<u8>) -> bool {
        exists|k: nat|
            #[trigger] self.ancestor(c, k) == nil || self.own_property(
                self.ancestor(c, k),
                name,
            ) is Some
    }
}

/// `objc_property_t class_getProperty(Class cls, const char *name)` — returns an
/// opaque pointer to the property metadata for the named declared `@property`,
/// walking the class hierarchy. Returns NULL if no such property is declared.
pub fn class_getProperty(env: &Environment, cls: Class, name: u32) -> (r: u32)
    requires
        cls != nil && name != 0 && valid_utf8(env@.mem.cstr(name))
            ==> env@.objc.property_walk_ends(cls, env@.mem.cstr(name)),
    ensures
        r == (if cls == nil || name == 0 || !valid_utf8(env@.mem.cstr(name)) {
            0
        } else {
            env@.objc.property(cls, env@.mem.cstr(name))
        }),
{
    if cls == nil || name == 0 {
        return 0;
    }
    let text: Name = env.mem.cstr_at(name);
    if text::char_count(&text).is_none() {
        return 0;
    }
    let ghost o = env@.objc;
    let ghost end = choose|k: nat|
        #[trigger] o.ancestor(cls, k) == nil || o.own_property(
            o.ancestor(cls, k),
            text@,
        ) is Some;
    let ghost mut k: nat = 0;
    let mut current: Class = cls;
    loop
        invariant
            o == env@.objc,
            o.ancestor(cls, end) == nil || o.own_property(
                o.ancestor(cls, end),
                text@,
            ) is Some,
            k <= end,
            text@ == env@.mem.cstr(name),
            cls != nil,
            name != 0,
            valid_utf8(text@),
            current == o.ancestor(cls, k),
            forall|j: nat|
                j < k ==> o.own_property(#[trigger] o.ancestor(cls, j), text@) is None,
        decreases end - k,
    {
        if current == nil {
            proof {
                assert forall|j: nat| !o.declares_nearest(cls, text@, j) by {
                    if j >= k {
                        classes::lemma_ancestor_nil(o, cls, k, (j - k) as nat);
                    }
                }
            }
            return 0;
        }
        if let Some(class) = env.objc.class(current) {
            if let Some(ptr) = class.properties.get(text.as_slice()) {
                proof {
                    assert(o.declares_nearest(cls, text@, k));
                    let j = choose|j: nat| o.declares_nearest(cls, text@, j);
                    if j < k {
                        assert(o.own_property(o.ancestor(cls, j), text@) is None);
                    } else if k < j {
                        assert(o.own_property(o.ancestor(cls, k), text@) is None);
                    }
                }
                return ptr;
            }
        }
        current = env.objc.get_superclass(current);
        proof {
            k = k + 1;
        }
    }
}

} // verus!
