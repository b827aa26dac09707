//! Methods of classes, as the guest sees them.
//!
//! A `Method` identifies both the class that defines the method and the
//! selector. We materialise a stable 8-byte guest allocation per (defining
//! class, selector) pair and hand its address to the guest as the opaque
//! `Method`. All `method_*` functions decode the handle back into (class,
//! selector) to operate on the real method table, which is what makes
//! swizzling (`method_exchangeImplementations`, `method_setImplementation`)
//! actually take effect.
use crate::environment::{EnvState, Environment};
use crate::mem;
use crate::objc::classes::{
    nil, Class, ClassHostObject, ClassView, HostObject, MethodHandle, ObjC, ObjCState, IMP, SEL,
};
use vstd::prelude::*;

verus! {

broadcast use vstd::std_specs::hash::group_hash_axioms;

/// A class and a selector as one number.
pub open spec fn pair(c: Class, sel: SEL) -> u64 {
    (c * 0x1_0000_0000 + sel) as u64
}

pub(crate) fn pair_of(c: Class, sel: SEL) -> (r: u64)
    ensures
        r == pair(c, sel),
{
    c as u64 * 0x1_0000_0000 + sel as u64
}

impl ObjCState {
    /// The implementation of `sel` that `c` itself has.
    pub open spec fn imp_at(self, c: Class, sel: SEL) -> Option<IMP> {
        match self.class(c) {
            Some(class) => if class.methods.contains_key(sel) {
                Some(class.methods[sel])
            } else {
                None
            },
            None => None,
        }
    }

    /// The type encoding of `sel` that `c` itself has.
    pub open spec fn types_at(self, c: Class, sel: SEL) -> Option<u32> {
        match self.class(c) {
            Some(class) => if class.signatures.contains_key(sel) {
                Some(class.signatures[sel])
            } else {
                None
            },
            None => None,
        }
    }

    /// The tables with another implementation of `sel` in `c`, if that is a
    /// class.
    pub open spec fn with_imp(self, c: Class, sel: SEL, imp: IMP) -> ObjCState {
        match self.class(c) {
            Some(class) => self.with_class(
                c,
                ClassView { methods: class.methods.insert(sel, imp), ..class },
            ),
            None => self,
        }
    }

    /// The tables with another type encoding of `sel` in `c`, or none.
    pub open spec fn with_types(self, c: Class, sel: SEL, types: Option<u32>) -> ObjCState {
        match self.class(c) {
            Some(class) => self.with_class(
                c,
                ClassView {
                    signatures: match types {
                        Some(types) => class.signatures.insert(sel, types),
                        None => class.signatures.remove(sel),
                    },
                    ..class
                },
            ),
            None => self,
        }
    }

    /// Whether the class that is `k` steps up from `c` is the nearest one that
    /// has `sel`.
    pub open spec fn is_nearest(self, c: Class, sel: SEL, k: nat) -> bool {
        &&& self.ancestor(c, k) != nil
        &&& self.imp_at(self.ancestor(c, k), sel) is Some
        &&& forall|j: nat| j < k ==> self.imp_at(#[trigger] self.ancestor(c, j), sel) is None
    }

    /// The nearest class, from `c` upwards, that has an implementation of
    /// `sel`; nil if there is none.
    pub open spec fn defining(self, c: Class, sel: SEL) -> Class {
        if exists|k: nat| self.is_nearest(c, sel, k) {
            self.ancestor(c, choose|k: nat| self.is_nearest(c, sel, k))
        } else {
            nil
        }
    }

    /// Whether looking for `sel` from `c` upwards comes to an end.
    pub open spec fn walk_ends(self, c: Class, sel: SEL) -> bool {
        exists|k: nat| #[trigger] self.walk_ends_at(c, sel, k)
    }

    pub open spec fn walk_ends_at(self, c: Class, sel: SEL, k: nat) -> bool {
        let d = self.ancestor(c, k);
        d == nil || self.imp_at(d, sel) is Some || self.above(d) == d
    }

    /// The `Method` for this class and selector.
    pub open spec fn handle(self, c: Class, sel: SEL) -> Option<u32> {
        find_handle(self.method_handles, c, sel)
    }

    /// Whether `m` is a `Method`.
    pub open spec fn is_handle(self, m: u32) -> bool {
        m != 0 && exists|i: int|
            0 <= i < self.method_handles.len() && (#[trigger] self.method_handles[i]).ptr == m
    }

    /// The implementation that the address `ptr` stands for: a host
    /// implementation it was handed out for, or else the guest function there.
    pub open spec fn imp_of(self, ptr: u32) -> Option<IMP> {
        if ptr == 0 {
            None
        } else if self.imp_tokens.contains_key(ptr) {
            Some(self.imp_tokens[ptr])
        } else {
            Some(IMP::Guest { addr: ptr })
        }
    }
}

/// The address of the handle for this class and selector.
pub open spec fn find_handle(handles: Seq<MethodHandle>, c: Class, sel: SEL) -> Option<u32>
    decreases handles.len(),
{
    if handles.len() == 0 {
        None
    } else if handles.last().class == c && handles.last().sel == sel {
        Some(handles.last().ptr)
    } else {
        find_handle(handles.drop_last(), c, sel)
    }
}

/// There is one nearest class.
pub proof fn lemma_nearest(o: ObjCState, c: Class, sel: SEL, k: nat)
    requires
        o.is_nearest(c, sel, k),
    ensures
        o.defining(c, sel) == o.ancestor(c, k),
{
    let j = choose|j: nat| o.is_nearest(c, sel, j);
    if j < k {
        assert(o.imp_at(o.ancestor(c, j), sel) is None);
    } else if k < j {
        assert(o.imp_at(o.ancestor(c, k), sel) is None);
    }
}

/// If the walk ends without an implementation, there is no defining class.
proof fn lemma_none_defining(o: ObjCState, c: Class, sel: SEL, k: nat)
    requires
        forall|j: nat| j < k ==> o.imp_at(#[trigger] o.ancestor(c, j), sel) is None,
        o.ancestor(c, k) == nil || (o.imp_at(o.ancestor(c, k), sel) is None && o.above(
            o.ancestor(c, k),
        ) == o.ancestor(c, k)),
    ensures
        o.defining(c, sel) == nil,
{
    assert forall|j: nat| !o.is_nearest(c, sel, j) by {
        if j >= k {
            lemma_stuck(o, c, k, (j - k) as nat);
        }
    }
}

proof fn lemma_stuck(o: ObjCState, c: Class, k: nat, more: nat)
    requires
        o.ancestor(c, k) == nil || o.above(o.ancestor(c, k)) == o.ancestor(c, k),
    ensures
        o.ancestor(c, k + more) == o.ancestor(c, k),
    decreases more,
{
    if more > 0 {
        lemma_stuck(o, c, k, (more - 1) as nat);
    }
}

impl ObjC {
    /// Returns the nearest class in `cls`'s superclass chain that defines an
    /// uninherited implementation of `sel`, or `nil` if none does.
    pub(crate) fn find_defining_class(&self, cls: Class, sel: SEL) -> (r: Class)
        requires
            self@.walk_ends(cls, sel),
        ensures
            r == self@.defining(cls, sel),
    {
        let ghost o = self@;
        let ghost end = choose|k: nat| #[trigger] o.walk_ends_at(cls, sel, k);
        let ghost mut k: nat = 0;
        let mut curr: Class = cls;
        loop
            invariant
                o == self@,
                o.walk_ends_at(cls, sel, end),
                k <= end,
                curr == o.ancestor(cls, k),
                forall|j: nat| j < k ==> o.imp_at(#[trigger] o.ancestor(cls, j), sel) is None,
            decreases end - k,
        {
            if curr == nil {
                proof {
                    lemma_none_defining(o, cls, sel, k);
                }
                return nil;
            }
            if self.imp_at(curr, sel).is_some() {
                proof {
                    assert(o.is_nearest(cls, sel, k));
                    lemma_nearest(o, cls, sel, k);
                }
                return curr;
            }
            let next: Class = self.get_superclass(curr);
            if next == curr {
                proof {
                    lemma_none_defining(o, cls, sel, k);
                }
                return nil;
            }
            curr = next;
            proof {
                k = k + 1;
            }
        }
    }

    /// Read the [IMP] stored for `sel` directly on `cls` (no inheritance
    /// walk).
    pub(crate) fn imp_at(&self, cls: Class, sel: SEL) -> (r: Option<IMP>)
        ensures
            r == self@.imp_at(cls, sel),
    {
        match self.class(cls) {
            Some(class) => match class.methods.get(&sel) {
                Some(imp) => Some(*imp),
                None => None,
            },
            None => None,
        }
    }

    /// Read the type encoding stored for `sel` directly on `cls`.
    pub(crate) fn types_at(&self, cls: Class, sel: SEL) -> (r: Option<u32>)
        ensures
            r == self@.types_at(cls, sel),
    {
        match self.class(cls) {
            Some(class) => match class.guest_method_signatures.get(&sel) {
                Some(types) => Some(*types),
                None => None,
            },
            None => None,
        }
    }

    /// Install `imp` for `sel` directly on `cls` (no inheritance walk).
    pub(crate) fn set_imp_at(&mut self, cls: Class, sel: SEL, imp: IMP)
        ensures
            final(self)@ == old(self)@.with_imp(cls, sel, imp),
    {
        if let Some(class) = self.take_class(cls) {
            let mut class: ClassHostObject = class;
            class.methods.insert(sel, imp);
            self.register_static_object(cls, HostObject::Class { class });
            proof {
                assert(self@ =~= old(self)@.with_imp(cls, sel, imp));
            }
        }
    }

    /// Set or remove the type encoding of `sel` directly on `cls`.
    pub(crate) fn set_types_at(&mut self, cls: Class, sel: SEL, types: Option<u32>)
        ensures
            final(self)@ == old(self)@.with_types(cls, sel, types),
    {
        if let Some(class) = self.take_class(cls) {
            let mut class: ClassHostObject = class;
            match types {
                Some(types) => {
                    class.guest_method_signatures.insert(sel, types);
                },
                None => {
                    class.guest_method_signatures.remove(&sel);
                },
            }
            self.register_static_object(cls, HostObject::Class { class });
            proof {
                assert(self@ =~= old(self)@.with_types(cls, sel, types));
            }
        }
    }
}

impl EnvState {
    /// The address of the `Method` for this class and selector. A new one
    /// comes from the heap.
    pub open spec fn handle_ptr(self, c: Class, sel: SEL) -> u32 {
        match self.objc.handle(c, sel) {
            Some(ptr) => ptr,
            None => self.mem.heap,
        }
    }

    /// The environment in which there is a `Method` for this class and
    /// selector.
    pub open spec fn with_handle(self, c: Class, sel: SEL) -> EnvState {
        let ptr = self.mem.heap;
        match self.objc.handle(c, sel) {
            Some(_) => self,
            None => EnvState {
                mem: self.mem.grow(8).poke_u32(ptr, c).poke_u32(mem::wrap(ptr + 4), sel),
                objc: ObjCState {
                    method_handles: self.objc.method_handles.push(
                        MethodHandle { class: c, sel, ptr },
                    ),
                    ..self.objc
                },
                ..self
            },
        }
    }

    /// The class and selector that a `Method` stands for.
    pub open spec fn decoded(self, m: u32) -> Option<(Class, SEL)> {
        if self.objc.is_handle(m) {
            Some((self.mem.peek_u32(m), self.mem.peek_u32(mem::wrap(m + 4))))
        } else {
            None
        }
    }

    /// The address that stands for an implementation. A host implementation
    /// has no address, so one from the heap stands for it, always the same one
    /// for the same class and selector.
    pub open spec fn imp_ptr(self, c: Class, sel: SEL, imp: IMP) -> u32 {
        match imp {
            IMP::Guest { addr } => addr,
            IMP::Host { .. } => if self.objc.host_imp_tokens.contains_key(pair(c, sel)) {
                self.objc.host_imp_tokens[pair(c, sel)]
            } else {
                self.mem.heap
            },
        }
    }

    /// The environment in which an address stands for an implementation.
    pub open spec fn with_imp_ptr(self, c: Class, sel: SEL, imp: IMP) -> EnvState {
        let ptr = self.imp_ptr(c, sel, imp);
        match imp {
            IMP::Guest { .. } => self,
            IMP::Host { .. } => EnvState {
                mem: if self.objc.host_imp_tokens.contains_key(pair(c, sel)) {
                    self.mem
                } else {
                    self.mem.grow(4)
                },
                objc: ObjCState {
                    host_imp_tokens: self.objc.host_imp_tokens.insert(pair(c, sel), ptr),
                    imp_tokens: self.objc.imp_tokens.insert(ptr, imp),
                    ..self.objc
                },
                ..self
            },
        }
    }

    /// Whether an address stands for an implementation, or memory for one is
    /// left.
    pub open spec fn imp_ready(self, c: Class, sel: SEL, imp: Option<IMP>) -> bool {
        match imp {
            Some(IMP::Host { .. }) => self.objc.host_imp_tokens.contains_key(pair(c, sel))
                || self.mem.room() >= 16,
            _ => true,
        }
    }

    /// The address that stands for an implementation, if there is one.
    pub open spec fn opt_imp_ptr(self, c: Class, sel: SEL, imp: Option<IMP>) -> u32 {
        match imp {
            Some(imp) => self.imp_ptr(c, sel, imp),
            None => 0,
        }
    }

    /// The environment in which an address stands for an implementation, if
    /// there is one.
    pub open spec fn with_opt_imp_ptr(self, c: Class, sel: SEL, imp: Option<IMP>) -> EnvState {
        match imp {
            Some(imp) => self.with_imp_ptr(c, sel, imp),
            None => self,
        }
    }

    /// The environment with another implementation of `sel` in `c`, if there
    /// is one.
    pub open spec fn with_opt_imp(self, c: Class, sel: SEL, imp: Option<IMP>) -> EnvState {
        match imp {
            Some(imp) => EnvState { objc: self.objc.with_imp(c, sel, imp), ..self },
            None => self,
        }
    }

    /// The environment with another type encoding of `sel` in `c`, or none.
    pub open spec fn with_opt_types(self, c: Class, sel: SEL, types: Option<u32>) -> EnvState {
        EnvState { objc: self.objc.with_types(c, sel, types), ..self }
    }
}

/// Get-or-create the stable opaque `Method` handle for a (defining class,
/// selector) pair.
pub(crate) fn method_handle_for(env: &mut Environment, defining_class: Class, sel: SEL) -> (ptr:
    u32)
    requires
        old(env)@.objc.handle(defining_class, sel) is Some || old(env)@.mem.room() >= 16,
    ensures
        ptr == old(env)@.handle_ptr(defining_class, sel),
        final(env)@ == old(env)@.with_handle(defining_class, sel),
{
    match env.objc.find_handle(defining_class, sel) {
        Some(ptr) => ptr,
        None => {
            let ptr: u32 = env.mem.allocate(8);
            env.mem.write_u32(ptr, defining_class);
            env.mem.write_u32(mem::offset(ptr, 4), sel);
            env.objc.add_handle(MethodHandle { class: defining_class, sel, ptr });
            ptr
        },
    }
}

/// Decode a `Method` handle back into its (defining class, selector) pair.
/// Returns `None` if the pointer is NULL or was not produced by
/// [method_handle_for] (guards against the guest passing an arbitrary
/// pointer).
fn method_handle_decode(env: &Environment, m: u32) -> (r: Option<(Class, SEL)>)
    ensures
        r == env@.decoded(m),
{
    if !env.objc.known_handle(m) {
        return None;
    }
    Some((env.mem.read_u32(m), env.mem.read_u32(mem::offset(m, 4))))
}

/// Convert an [IMP] into the guest pointer that the guest's `IMP` type is (a
/// function pointer).
fn imp_to_guest_ptr(env: &mut Environment, cls: Class, sel: SEL, imp: IMP) -> (ptr: u32)
    requires
        old(env)@.imp_ready(cls, sel, Some(imp)),
    ensures
        ptr == old(env)@.imp_ptr(cls, sel, imp),
        final(env)@ == old(env)@.with_imp_ptr(cls, sel, imp),
{
    match imp {
        IMP::Guest { addr } => addr,
        IMP::Host { .. } => {
            let token: u32 = match env.objc.imp_token(cls, sel) {
                Some(token) => token,
                None => env.mem.allocate(4),
            };
            env.objc.add_imp_token(cls, sel, token, imp);
            token
        },
    }
}

/// As [imp_to_guest_ptr]; NULL if there is no implementation.
fn opt_imp_to_guest_ptr(env: &mut Environment, cls: Class, sel: SEL, imp: Option<IMP>) -> (ptr: u32)
    requires
        old(env)@.imp_ready(cls, sel, imp),
    ensures
        ptr == old(env)@.opt_imp_ptr(cls, sel, imp),
        final(env)@ == old(env)@.with_opt_imp_ptr(cls, sel, imp),
{
    match imp {
        Some(imp) => imp_to_guest_ptr(env, cls, sel, imp),
        None => 0,
    }
}

/// Convert a guest `IMP` pointer received from the guest back into an [IMP].
/// A pointer previously handed out for a host implementation is looked up in
/// the token registry; anything else is treated as a guest code address.
fn guest_ptr_to_imp(env: &Environment, imp: u32) -> (r: Option<IMP>)
    ensures
        r == env@.objc.imp_of(imp),
{
    if imp == 0 {
        return None;
    }
    match env.objc.token_imp(imp) {
        Some(imp) => Some(imp),
        None => Some(IMP::Guest { addr: imp }),
    }
}

impl EnvState {
    /// The `Method` for the nearest implementation of `name`, from `cls` upwards;
    /// NULL if there is none.
    pub open spec fn instance_method(self, cls: Class, name: SEL) -> u32 {
        let defining = self.objc.defining(cls, name);
        if cls == nil || name == 0 || defining == nil {
            0
        } else {
            self.handle_ptr(defining, name)
        }
    }

    /// The environment in which there is that `Method`.
    pub open spec fn with_instance_method(self, cls: Class, name: SEL) -> EnvState {
        let defining = self.objc.defining(cls, name);
        if cls == nil || name == 0 || defining == nil {
            self
        } else {
            self.with_handle(defining, name)
        }
    }

    /// Whether instances of `cls` respond to `name`.
    pub open spec fn responds(self, cls: Class, name: SEL) -> bool {
        cls != nil && name != 0 && self.objc.defining(cls, name) != nil
    }

    /// Whether the implementation of a `Method` has an address, or memory for one
    /// is left.
    pub open spec fn method_ready(self, m: u32) -> bool {
        match self.decoded(m) {
            Some((cls, sel)) => self.imp_ready(cls, sel, self.objc.imp_at(cls, sel)),
            None => true,
        }
    }

    /// The address that stands for the implementation of a `Method`.
    pub open spec fn method_imp(self, m: u32) -> u32 {
        match self.decoded(m) {
            Some((cls, sel)) => self.opt_imp_ptr(cls, sel, self.objc.imp_at(cls, sel)),
            None => 0,
        }
    }

    /// The environment in which an address stands for it.
    pub open spec fn with_method_imp(self, m: u32) -> EnvState {
        match self.decoded(m) {
            Some((cls, sel)) => self.with_opt_imp_ptr(cls, sel, self.objc.imp_at(cls, sel)),
            None => self,
        }
    }

    /// The environment after the implementation of a `Method` was replaced by the
    /// one that `imp` stands for, if it stands for one. An address stands for the
    /// one before it.
    pub open spec fn with_method_set(self, m: u32, imp: u32) -> EnvState {
        match self.decoded(m) {
            Some((cls, sel)) => self.with_opt_imp(cls, sel, self.objc.imp_of(imp)).with_opt_imp_ptr(
                cls,
                sel,
                self.objc.imp_at(cls, sel),
            ),
            None => self,
        }
    }

    /// The type encoding of a `Method`; NULL if none is recorded.
    pub open spec fn method_types(self, m: u32) -> u32 {
        match self.decoded(m) {
            Some((cls, sel)) => match self.objc.types_at(cls, sel) {
                Some(types) => types,
                None => 0,
            },
            None => 0,
        }
    }

    /// The selector of a `Method`; NULL if `m` is none.
    pub open spec fn method_name(self, m: u32) -> SEL {
        match self.decoded(m) {
            Some((_, sel)) => sel,
            None => 0,
        }
    }

    /// Whether the nearest implementation of `name`, from `cls` upwards, has an
    /// address, or memory for one is left.
    pub open spec fn class_imp_ready(self, cls: Class, name: SEL) -> bool {
        let defining = self.objc.defining(cls, name);
        self.responds(cls, name) ==> self.imp_ready(
            defining,
            name,
            self.objc.imp_at(defining, name),
        )
    }

    /// The address that stands for the nearest implementation of `name`, from
    /// `cls` upwards; NULL if there is none.
    pub open spec fn class_imp(self, cls: Class, name: SEL) -> u32 {
        let defining = self.objc.defining(cls, name);
        if self.responds(cls, name) {
            self.opt_imp_ptr(defining, name, self.objc.imp_at(defining, name))
        } else {
            0
        }
    }

    /// The environment in which an address stands for it.
    pub open spec fn with_class_imp(self, cls: Class, name: SEL) -> EnvState {
        let defining = self.objc.defining(cls, name);
        if self.responds(cls, name) {
            self.with_opt_imp_ptr(defining, name, self.objc.imp_at(defining, name))
        } else {
            self
        }
    }
}

/// `Method class_getInstanceMethod(Class cls, SEL name)`
///
/// Returns a specified instance method for a given class, searching
/// superclasses for the implementation. Returns `NULL` if `cls` is `Nil`,
/// `name` is `NULL`, or instances of `cls` do not respond to `name`.
pub fn class_getInstanceMethod(env: &mut Environment, cls: Class, name: SEL) -> (m: u32)
    requires
        cls != nil && name != 0 ==> old(env)@.objc.walk_ends(cls, name),
        old(env)@.responds(cls, name) ==> old(env)@.objc.handle(
            old(env)@.objc.defining(cls, name),
            name,
        ) is Some || old(env)@.mem.room() >= 16,
    ensures
        m == old(env)@.instance_method(cls, name),
        final(env)@ == old(env)@.with_instance_method(cls, name),
{
    if cls == nil || name == 0 {
        return 0;
    }
    let defining: Class = env.objc.find_defining_class(cls, name);
    if defining == nil {
        return 0;
    }
    method_handle_for(env, defining, name)
}

/// `BOOL class_respondsToSelector(Class cls, SEL sel)`
///
/// Walks the class chain and reports YES if any class in that chain implements
/// `sel`. `class_respondsToSelector(Nil, …)` and
/// `class_respondsToSelector(cls, NULL)` return NO.
pub fn class_respondsToSelector(env: &Environment, cls: Class, sel: SEL) -> (b: bool)
    requires
        cls != nil && sel != 0 ==> env@.objc.walk_ends(cls, sel),
    ensures
        b == env@.responds(cls, sel),
{
    if cls == nil || sel == 0 {
        return false;
    }
    env.objc.find_defining_class(cls, sel) != nil
}

/// `IMP method_getImplementation(Method m)`
///
/// Returns the implementation of a method.
pub fn method_getImplementation(env: &mut Environment, m: u32) -> (ptr: u32)
    requires
        old(env)@.method_ready(m),
    ensures
        ptr == old(env)@.method_imp(m),
        final(env)@ == old(env)@.with_method_imp(m),
{
    match method_handle_decode(env, m) {
        Some((cls, sel)) => {
            let imp: Option<IMP> = env.objc.imp_at(cls, sel);
            opt_imp_to_guest_ptr(env, cls, sel, imp)
        },
        None => 0,
    }
}

/// `IMP method_setImplementation(Method m, IMP imp)`
///
/// Sets the implementation of a method. Returns the previous implementation of
/// the method.
pub fn method_setImplementation(env: &mut Environment, m: u32, imp: u32) -> (ptr: u32)
    requires
        old(env)@.method_ready(m),
    ensures
        ptr == old(env)@.method_imp(m),
        final(env)@ == old(env)@.with_method_set(m, imp),
{
    match method_handle_decode(env, m) {
        Some((cls, sel)) => {
            let before: Option<IMP> = env.objc.imp_at(cls, sel);
            if let Some(new_imp) = guest_ptr_to_imp(env, imp) {
                env.objc.set_imp_at(cls, sel, new_imp);
            }
            opt_imp_to_guest_ptr(env, cls, sel, before)
        },
        None => 0,
    }
}

/// `const char *method_getTypeEncoding(Method m)`
///
/// Returns a string describing a method's parameter and return types, or NULL
/// if none is recorded.
pub fn method_getTypeEncoding(env: &Environment, m: u32) -> (ptr: u32)
    ensures
        ptr == env@.method_types(m),
{
    match method_handle_decode(env, m) {
        Some((cls, sel)) => match env.objc.types_at(cls, sel) {
            Some(types) => types,
            None => 0,
        },
        None => 0,
    }
}

/// `SEL method_getName(Method m)`
///
/// Returns the name of a method (the selector it is registered under).
pub fn method_getName(env: &Environment, m: u32) -> (sel: SEL)
    ensures
        sel == env@.method_name(m),
{
    match method_handle_decode(env, m) {
        Some((_, sel)) => sel,
        None => 0,
    }
}

/// `IMP class_replaceMethod(Class cls, SEL name, IMP imp, const char *types)`
///
/// Replaces the implementation of a method for a given class.
///
/// - If the method identified by `name` does not yet exist, it is added as
///   if `class_addMethod` were called (and the return value is `NULL`).
/// - If the method identified by `name` does exist, its `IMP` is replaced
///   as if `method_setImplementation` were called (and the previous `IMP`
///   is returned).
///
/// A NULL IMP leaves the method as it is.
pub fn class_replaceMethod(env: &mut Environment, cls: Class, name: SEL, imp: u32, types: u32) -> (
ptr: u32)
    requires
        cls != nil && name != 0 ==> old(env)@.imp_ready(
            cls,
            name,
            old(env)@.objc.imp_at(cls, name),
        ),
    ensures
        if cls == nil || name == 0 {
            ptr == 0 && final(env)@ == old(env)@
        } else {
            let before = old(env)@.objc.imp_at(cls, name);
            let changed = old(env)@.with_method(cls, name, old(env)@.objc.imp_of(imp), types);
            ptr == changed.opt_imp_ptr(cls, name, before) && final(env)@
                == changed.with_opt_imp_ptr(cls, name, before)
        },
{
    if cls == nil || name == 0 {
        return 0;
    }
    let before: Option<IMP> = env.objc.imp_at(cls, name);
    if let Some(new_imp) = guest_ptr_to_imp(env, imp) {
        env.objc.set_imp_at(cls, name, new_imp);
        if types != 0 {
            env.objc.set_types_at(cls, name, Some(types));
        }
    }
    opt_imp_to_guest_ptr(env, cls, name, before)
}

impl EnvState {
    /// The environment with another implementation of `sel` in `c`, if there
    /// is one, and then another type encoding, if that is not NULL.
    pub open spec fn with_method(
        self,
        c: Class,
        sel: SEL,
        imp: Option<IMP>,
        types: u32,
    ) -> EnvState {
        let changed = self.with_opt_imp(c, sel, imp);
        if imp is Some && types != 0 {
            changed.with_opt_types(c, sel, Some(types))
        } else {
            changed
        }
    }
}

/// `BOOL class_addMethod(Class cls, SEL name, IMP imp, const char *types)`
///
/// Adds a new method to a class with a given name and implementation.
///
/// Returns `YES` if the method was added successfully, otherwise `NO`
/// (for example, the class already contains a method implementation
/// with that name). It will override a method of a superclass, but will not
/// replace one that this class itself has. A NULL IMP is refused.
pub fn class_addMethod(env: &mut Environment, cls: Class, name: SEL, imp: u32, types: u32) -> (b:
    bool)
    requires
        cls != nil && name != 0 && imp != 0 ==> old(env)@.objc.class(cls) is Some,
    ensures
        b == (cls != nil && name != 0 && imp != 0 && old(env)@.objc.imp_at(cls, name) is None),
        final(env)@ == (if b {
            old(env)@.with_method(cls, name, Some(IMP::Guest { addr: imp }), types)
        } else {
            old(env)@
        }),
{
    if cls == nil || name == 0 {
        return false;
    }
    // Calling a NULL IMP would crash the guest as soon as the selector is
    // dispatched.
    if imp == 0 {
        return false;
    }
    if env.objc.imp_at(cls, name).is_some() {
        return false;
    }
    env.objc.set_imp_at(cls, name, IMP::Guest { addr: imp });
    if types != 0 {
        env.objc.set_types_at(cls, name, Some(types));
    }
    true
}

/// The class above which a selector is looked for, as a `Method`.
///
/// `Method class_getClassMethod(Class cls, SEL name)`: returns the metaclass
/// of `cls`, or the nearest of its superclasses, that has the class method
/// identified by the given selector.
pub fn class_getClassMethod(env: &Environment, cls: Class, name: SEL) -> (m: u32)
    requires
        cls != nil ==> env@.objc.walk_ends(env@.mem.peek_u32(cls), name),
    ensures
        m == (if cls == nil {
            0
        } else {
            env@.objc.defining(env@.mem.peek_u32(cls), name)
        }),
{
    if cls == nil {
        return 0;
    }
    let metaclass: Class = env.mem.read_u32(cls);
    env.objc.find_defining_class(metaclass, name)
}

/// Returns the nearest class, from `cls` upwards, that has the method `name`.
pub fn class_getInstanceSize(env: &Environment, cls: Class, name: SEL) -> (c: u32)
    requires
        env@.objc.walk_ends(cls, name),
    ensures
        c == env@.objc.defining(cls, name),
{
    env.objc.find_defining_class(cls, name)
}

/// Returns the nearest class, from `cls` upwards, that has the method `name`.
pub fn objc_getMetaClass(env: &Environment, cls: Class, name: SEL) -> (c: u32)
    requires
        env@.objc.walk_ends(cls, name),
    ensures
        c == env@.objc.defining(cls, name),
{
    env.objc.find_defining_class(cls, name)
}

/// `IMP class_getMethodImplementation(Class cls, SEL name)`
///
/// Returns the function pointer that would be called if a particular message
/// were sent to an instance of a class; NULL if instances of `cls` do not
/// respond to `name`.
pub fn class_getMethodImplementation(env: &mut Environment, cls: Class, name: SEL) -> (ptr: u32)
    requires
        cls != nil && name != 0 ==> old(env)@.objc.walk_ends(cls, name),
        old(env)@.class_imp_ready(cls, name),
    ensures
        ptr == old(env)@.class_imp(cls, name),
        final(env)@ == old(env)@.with_class_imp(cls, name),
{
    if cls == nil || name == 0 {
        return 0;
    }
    let defining: Class = env.objc.find_defining_class(cls, name);
    if defining == nil {
        return 0;
    }
    let imp: Option<IMP> = env.objc.imp_at(defining, name);
    opt_imp_to_guest_ptr(env, defining, name, imp)
}

/// `IMP class_getMethodImplementation_stret(Class cls, SEL name)`: as
/// [class_getMethodImplementation], for selectors that return large structs.
pub fn class_getMethodImplementation_stret(env: &mut Environment, cls: Class, name: SEL) -> (ptr:
    u32)
    requires
        cls != nil && name != 0 ==> old(env)@.objc.walk_ends(cls, name),
        old(env)@.class_imp_ready(cls, name),
    ensures
        ptr == old(env)@.class_imp(cls, name),
        final(env)@ == old(env)@.with_class_imp(cls, name),
{
    class_getMethodImplementation(env, cls, name)
}

impl EnvState {
    /// The environment after the methods of two classes were exchanged, along
    /// with their type encodings. A method without an implementation leaves
    /// the other one as it is.
    pub open spec fn exchanged(self, c1: Class, s1: SEL, c2: Class, s2: SEL) -> EnvState {
        let o = self.objc;
        self.with_opt_imp(c1, s1, o.imp_at(c2, s2)).with_opt_imp(
            c2,
            s2,
            o.imp_at(c1, s1),
        ).with_opt_types(c1, s1, o.types_at(c2, s2)).with_opt_types(c2, s2, o.types_at(c1, s1))
    }
}

/// `void method_exchangeImplementations(Method m1, Method m2)`
///
/// Exchanges the implementations of two methods. Because our `Method` handles
/// encode the defining class and selector, we can swap the real entries in each
/// class's method table (along with their type-encoding strings).
pub fn method_exchangeImplementations(env: &mut Environment, m1: u32, m2: u32)
    ensures
        final(env)@ == (match (old(env)@.decoded(m1), old(env)@.decoded(m2)) {
            (Some((c1, s1)), Some((c2, s2))) => old(env)@.exchanged(c1, s1, c2, s2),
            _ => old(env)@,
        }),
{
    match (method_handle_decode(env, m1), method_handle_decode(env, m2)) {
        (Some((cls1, sel1)), Some((cls2, sel2))) => {
            let imp1: Option<IMP> = env.objc.imp_at(cls1, sel1);
            let imp2: Option<IMP> = env.objc.imp_at(cls2, sel2);
            let types1: Option<u32> = env.objc.types_at(cls1, sel1);
            let types2: Option<u32> = env.objc.types_at(cls2, sel2);
            if let Some(imp) = imp2 {
                env.objc.set_imp_at(cls1, sel1, imp);
            }
            if let Some(imp) = imp1 {
                env.objc.set_imp_at(cls2, sel2, imp);
            }
            env.objc.set_types_at(cls1, sel1, types2);
            env.objc.set_types_at(cls2, sel2, types1);
        },
        _ => {},
    }
}

} // verus!
