//! Where the environment keeps things in guest memory, and that they stay there.
//!
//! Everything that the guest gets the address of has a block of its own. The
//! laws say that this holds of a new environment, and that it is kept by what
//! the environment does; only the guest can store something into such a block.
use crate::abi;
use crate::environment::{EnvState, ThreadId};
use crate::libc::errno;
use crate::libc::stdio::text;
use crate::mem;
use crate::mem::{MemState, HEAP_END, NULL_PAGE_END};
use crate::objc::binary;
use crate::objc::classes;
use crate::objc::classes::{
    nil, Class, ClassView, MethodHandle, ObjCState, ObjectView, Runtime, TemplateView, IMP, SEL,
};
use crate::objc::methods;
use crate::objc::names;
use crate::objc::names::Entries;
use vstd::prelude::*;
use vstd::utf8::*;

verus! {

/// What a block of guest memory is for.
pub enum Owner {
    /// The `errno` of a thread.
    Errno { thread: ThreadId },
    /// The message for an error number.
    Message { err_num: i32 },
    /// A `Method`, by its place in the list of them.
    Method { index: int },
    /// What stands for a host implementation.
    Implementation { key: u64 },
    /// The name of a class.
    ClassName { class: Class },
    /// A class that is known by its name.
    Class { class: Class },
}

/// Whether `class` is known by some name.
pub open spec fn is_known(classes: Entries<Class>, class: Class) -> bool {
    exists|i: int| 0 <= i < classes.len() && (#[trigger] classes[i]).1 == class
}

/// Whether `a` is in the part of the heap that was not taken yet.
pub open spec fn in_free(m: MemState, a: u32) -> bool {
    m.heap <= a < HEAP_END
}

/// Whether a block lies outside the null page and outside the part of the heap
/// that was not taken yet.
pub open spec fn in_use(m: MemState, block: (u32, nat)) -> bool {
    &&& block.1 > 0
    &&& NULL_PAGE_END <= block.0
    &&& block.0 + block.1 <= m.heap || (HEAP_END <= block.0 && block.0 + block.1
        <= 0x1_0000_0000)
}

/// Whether two blocks have no byte in common.
pub open spec fn apart(a: (u32, nat), b: (u32, nat)) -> bool {
    a.0 + a.1 <= b.0 || b.0 + b.1 <= a.0
}

/// Whether `text` and a NUL are stored from `p` on.
pub open spec fn holds(m: MemState, p: u32, text: Seq<u8>) -> bool {
    forall|k: int|
        0 <= k <= text.len() ==> m.peek(#[trigger] mem::wrap(p + k)) == text.push(0)[k]
}

/// Whether there is no NUL in `text`.
pub open spec fn has_no_nul(text: Seq<u8>) -> bool {
    forall|i: int| 0 <= i < text.len() ==> #[trigger] text[i] != 0
}

/// The bytes of the message for an error number.
pub open spec fn message_bytes(err_num: i32) -> Seq<u8> {
    encode_utf8(errno::error_message(err_num))
}

impl EnvState {
    /// The block of `o`: its address and its length.
    pub open spec fn block(self, o: Owner) -> Option<(u32, nat)> {
        match o {
            Owner::Errno { thread } => if self.errno.errnos.contains_key(thread) {
                Some((self.errno.errnos[thread], 4nat))
            } else {
                None
            },
            Owner::Message { err_num } => if self.errno.strings.contains_key(err_num) {
                Some((self.errno.strings[err_num], message_bytes(err_num).len() + 1))
            } else {
                None
            },
            Owner::Method { index } => if 0 <= index < self.objc.method_handles.len() {
                Some((self.objc.method_handles[index].ptr, 8nat))
            } else {
                None
            },
            Owner::Implementation { key } => if self.objc.host_imp_tokens.contains_key(key) {
                Some((self.objc.host_imp_tokens[key], 4nat))
            } else {
                None
            },
            Owner::ClassName { class } => if self.objc.class_names.contains_key(class) {
                Some(
                    (
                        self.objc.class_names[class],
                        self.objc.class_name_or_unknown(class).len() + 1,
                    ),
                )
            } else {
                None
            },
            Owner::Class { class } => if is_known(self.objc.classes, class) {
                Some((class, 4nat))
            } else {
                None
            },
        }
    }

    /// Whether the block of `o` holds what it is for.
    pub open spec fn intact(self, o: Owner) -> bool {
        match o {
            Owner::Errno { .. } => true,
            Owner::Message { err_num } => holds(
                self.mem,
                self.errno.strings[err_num],
                message_bytes(err_num),
            ),
            Owner::Method { index } => {
                let h = self.objc.method_handles[index];
                &&& self.mem.peek_u32(h.ptr) == h.class
                &&& self.mem.peek_u32(mem::wrap(h.ptr + 4)) == h.sel
            },
            Owner::Implementation { .. } => true,
            Owner::ClassName { class } => {
                &&& !in_free(self.mem, class)
                &&& holds(
                    self.mem,
                    self.objc.class_names[class],
                    self.objc.class_name_or_unknown(class),
                )
            },
            Owner::Class { class } => {
                let metaclass = self.mem.peek_u32(class);
                &&& !in_free(self.mem, metaclass)
                &&& forall|i: int|
                    0 <= i < self.objc.classes.len() && (#[trigger] self.objc.classes[i]).1 == class
                        ==> self.objc.class_name(class) == Some(self.objc.classes[i].0)
                        && self.objc.class_name(metaclass) == Some(self.objc.classes[i].0)
            },
        }
    }

    /// Whether everything that the guest gets the address of has a block of its
    /// own, outside the null page, and the block holds what it is for.
    pub open spec fn sound(self) -> bool {
        &&& NULL_PAGE_END <= self.mem.heap <= HEAP_END
        &&& forall|o: Owner|
            (#[trigger] self.block(o)) is Some ==> in_use(self.mem, self.block(o).unwrap())
                && self.intact(o)
        &&& forall|a: Owner, b: Owner|
            a != b && (#[trigger] self.block(a)) is Some && (#[trigger] self.block(b)) is Some
                ==> apart(self.block(a).unwrap(), self.block(b).unwrap())
        &&& handles_differ(self.objc.method_handles)
        &&& forall|c: Class| #[trigger] self.objc.objects.contains_key(c) ==> !in_free(self.mem, c)
        &&& forall|c: Class|
            (#[trigger] self.objc.class_name(c)) matches Some(name) ==> has_no_nul(name)
    }

    /// Whether storing `n` bytes from `a` on spares every block, and the part of
    /// the heap that was not taken yet.
    pub open spec fn spares(self, a: u32, n: nat) -> bool {
        &&& in_use(self.mem, (a, n))
        &&& forall|o: Owner|
            (#[trigger] self.block(o)) is Some ==> apart((a, n), self.block(o).unwrap())
    }
}

/// No class and selector have two `Method`s.
pub open spec fn handles_differ(handles: Seq<MethodHandle>) -> bool {
    forall|i: int, j: int|
        0 <= i < j < handles.len() ==> (#[trigger] handles[i]).class != (#[trigger] handles[j]).class
            || handles[i].sel != handles[j].sel
}

// Memory

/// Words whose bytes are the same are the same.
pub proof fn lemma_word_same(m: MemState, n: MemState, a: u32)
    requires
        a <= 0xFFFF_FFFC,
        forall|b: u32| a <= b < a + 4 ==> m.peek(b) == #[trigger] n.peek(b),
    ensures
        m.peek_u32(a) == n.peek_u32(a),
{
    reveal(MemState::peek_u16);
    reveal(MemState::peek_u32);
    assert(m.peek(a) == n.peek(a));
    assert(m.peek((a + 1) as u32) == n.peek((a + 1) as u32));
    assert(m.peek((a + 2) as u32) == n.peek((a + 2) as u32));
    assert(m.peek((a + 3) as u32) == n.peek((a + 3) as u32));
}

/// A string that is stored in a new block is there, and nothing else changes.
pub proof fn lemma_new_text(m: MemState, text: Seq<u8>)
    requires
        NULL_PAGE_END <= m.heap,
        m.room() >= text.len() + 32,
    ensures
        ({
            let n = m.grow((text.len() + 1) as u32).poke_cstr(m.heap, text);
            &&& m.heap + text.len() + 1 <= n.heap <= HEAP_END
            &&& holds(n, m.heap, text)
            &&& forall|b: u32|
                b < m.heap || m.heap + text.len() < b ==> #[trigger] n.peek(b) == m.peek(b)
        }),
{
    let g = m.grow((text.len() + 1) as u32);
    let n = g.poke_cstr(m.heap, text);
    let end = (m.heap + text.len()) as u32;
    assert(mem::wrap(m.heap + text.len()) == end);
    mem::laws::law_bytes_read_back(g, m.heap, text, m.heap);
    mem::laws::law_byte_reads_back(g.poke_bytes(m.heap, text), end, 0, end);
    assert forall|k: int| 0 <= k <= text.len() implies n.peek(#[trigger] mem::wrap(m.heap + k))
        == text.push(0)[k] by {
        let b = (m.heap + k) as u32;
        assert(mem::wrap(m.heap + k) == b);
        mem::laws::law_bytes_read_back(g, m.heap, text, b);
        mem::laws::law_byte_reads_back(g.poke_bytes(m.heap, text), end, 0, b);
    }
    assert forall|b: u32| b < m.heap || m.heap + text.len() < b implies #[trigger] n.peek(b)
        == m.peek(b) by {
        mem::laws::law_bytes_read_back(g, m.heap, text, b);
        mem::laws::law_byte_reads_back(g.poke_bytes(m.heap, text), end, 0, b);
    }
}

/// A word that is stored in a new block is there, and nothing else changes.
pub proof fn lemma_new_word(m: MemState, v: u32)
    requires
        NULL_PAGE_END <= m.heap,
        m.room() >= 16,
    ensures
        ({
            let n = m.grow(4).poke_u32(m.heap, v);
            &&& n.heap == m.heap + 16
            &&& n.peek_u32(m.heap) == v
            &&& forall|b: u32|
                b < m.heap || m.heap + 4 <= b ==> #[trigger] n.peek(b) == m.peek(b)
        }),
{
    mem::lemma_poke_u32_heap(m.grow(4), m.heap, v);
    mem::lemma_peek_poke_u32(m.grow(4), m.heap, v);
    assert forall|b: u32| b < m.heap || m.heap + 4 <= b implies #[trigger] m.grow(4).poke_u32(
        m.heap,
        v,
    ).peek(b) == m.peek(b) by {
        mem::lemma_peek_poke_u32_byte(m.grow(4), m.heap, v, b);
    }
}

/// A string that is held is read back, if there is no NUL in it.
pub proof fn lemma_held_text(m: MemState, p: u32, text: Seq<u8>)
    requires
        holds(m, p, text),
        p + text.len() <= 0xFFFF_FFFF,
        has_no_nul(text),
    ensures
        m.cstr(p) == text,
{
    assert forall|i: int| 0 <= i < text.len() implies m.peek((p + i) as u32) == #[trigger] text[i]
        by {
        assert(mem::wrap(p + i) == (p + i) as u32);
        assert(text.push(0)[i] == text[i]);
    }
    assert(mem::wrap(p + text.len()) == (p + text.len()) as u32);
    assert(text.push(0)[text.len() as int] == 0);
    mem::laws::lemma_cstr_is(m, p, text);
}

// Keeping things in place

/// Whether a block is about the class or metaclass `c`.
pub open spec fn relies_on(env: EnvState, c: Class) -> bool {
    ||| env.objc.class_names.contains_key(c)
    ||| is_known(env.objc.classes, c)
    ||| exists|d: Class| is_known(env.objc.classes, d) && #[trigger] env.mem.peek_u32(d) == c
}

/// Whether `e` has all that `env` has, at the same addresses, and nothing was
/// stored into a block but into that of an `errno`.
pub open spec fn kept(env: EnvState, e: EnvState) -> bool {
    &&& env.mem.heap <= e.mem.heap <= HEAP_END
    &&& forall|o: Owner, b: u32|
        (#[trigger] env.block(o)) is Some && !(o is Errno) && env.block(o).unwrap().0 <= b
            < env.block(o).unwrap().0 + env.block(o).unwrap().1 ==> #[trigger] e.mem.peek(b)
            == env.mem.peek(b)
    &&& forall|o: Owner| (#[trigger] env.block(o)) is Some ==> e.block(o) == env.block(o)
    &&& env.objc.method_handles.is_prefix_of(e.objc.method_handles)
    &&& env.objc.classes.is_prefix_of(e.objc.classes)
    &&& forall|i: int|
        env.objc.classes.len() <= i < e.objc.classes.len() ==> !is_known(
            env.objc.classes,
            (#[trigger] e.objc.classes[i]).1,
        )
    &&& forall|c: Class|
        relies_on(env, c) ==> #[trigger] e.objc.class_name(c) == env.objc.class_name(c)
    &&& forall|c: Class|
        #[trigger] e.objc.objects.contains_key(c) ==> env.objc.objects.contains_key(c) || !in_free(
            e.mem,
            c,
        )
}

/// Whether what `e` has beyond `env` is in blocks of its own.
pub open spec fn well_kept(env: EnvState, e: EnvState) -> bool {
    &&& forall|o: Owner|
        env.block(o) is None && (#[trigger] e.block(o)) is Some ==> in_use(
            e.mem,
            e.block(o).unwrap(),
        ) && e.intact(o)
    &&& forall|a: Owner, b: Owner|
        a != b && env.block(a) is None && (#[trigger] e.block(a)) is Some && (#[trigger] e.block(
            b,
        )) is Some ==> apart(e.block(a).unwrap(), e.block(b).unwrap())
}

proof fn lemma_still_intact(env: EnvState, e: EnvState, o: Owner)
    requires
        env.sound(),
        kept(env, e),
        env.block(o) is Some,
    ensures
        e.intact(o),
        in_use(e.mem, e.block(o).unwrap()),
{
    let b = env.block(o).unwrap();
    assert(in_use(env.mem, b) && env.intact(o));
    assert(e.block(o) == env.block(o));
    match o {
        Owner::Message { err_num } => {
            let p = env.errno.strings[err_num];
            let text = message_bytes(err_num);
            assert forall|k: int| 0 <= k <= text.len() implies e.mem.peek(
                #[trigger] mem::wrap(p + k),
            ) == text.push(0)[k] by {
                assert(mem::wrap(p + k) == p + k);
                assert(env.mem.peek(mem::wrap(p + k)) == text.push(0)[k]);
            }
        },
        Owner::Method { index } => {
            let h = env.objc.method_handles[index];
            assert(e.objc.method_handles[index] == h);
            assert(mem::wrap(h.ptr + 4) == h.ptr + 4);
            lemma_word_same(env.mem, e.mem, h.ptr);
            lemma_word_same(env.mem, e.mem, (h.ptr + 4) as u32);
        },
        Owner::ClassName { class } => {
            let p = env.objc.class_names[class];
            let text = env.objc.class_name_or_unknown(class);
            assert(relies_on(env, class));
            assert(e.objc.class_name(class) == env.objc.class_name(class));
            assert forall|k: int| 0 <= k <= text.len() implies e.mem.peek(
                #[trigger] mem::wrap(p + k),
            ) == text.push(0)[k] by {
                assert(mem::wrap(p + k) == p + k);
                assert(env.mem.peek(mem::wrap(p + k)) == text.push(0)[k]);
            }
        },
        Owner::Class { class } => {
            lemma_word_same(env.mem, e.mem, class);
            let metaclass = env.mem.peek_u32(class);
            assert(relies_on(env, class));
            assert(relies_on(env, metaclass));
            assert(!in_free(env.mem, metaclass));
            assert forall|i: int|
                0 <= i < e.objc.classes.len() && (#[trigger] e.objc.classes[i]).1
                    == class implies e.objc.class_name(class) == Some(e.objc.classes[i].0)
                && e.objc.class_name(metaclass) == Some(e.objc.classes[i].0) by {
                assert(i < env.objc.classes.len());
                assert(env.objc.classes[i] == e.objc.classes[i]);
            }
        },
        _ => {},
    }
}

/// What is kept well stays sound.
proof fn lemma_kept(env: EnvState, e: EnvState)
    requires
        env.sound(),
        kept(env, e),
        well_kept(env, e),
        handles_differ(e.objc.method_handles),
        forall|c: Class|
            (#[trigger] e.objc.class_name(c)) matches Some(name) ==> has_no_nul(name),
    ensures
        e.sound(),
{
    assert forall|o: Owner| (#[trigger] e.block(o)) is Some implies in_use(
        e.mem,
        e.block(o).unwrap(),
    ) && e.intact(o) by {
        if env.block(o) is Some {
            lemma_still_intact(env, e, o);
        }
    }
    assert forall|a: Owner, b: Owner|
        a != b && (#[trigger] e.block(a)) is Some && (#[trigger] e.block(b)) is Some implies apart(
        e.block(a).unwrap(),
        e.block(b).unwrap(),
    ) by {
        if env.block(a) is Some && env.block(b) is Some {
            assert(e.block(a) == env.block(a));
            assert(e.block(b) == env.block(b));
        } else if env.block(a) is Some {
            assert(apart(e.block(b).unwrap(), e.block(a).unwrap()));
        }
    }
}

/// Whether `e` has all that `env` has, at the same addresses, and its new classes
/// come from the heap.
spec fn grown(env: EnvState, e: EnvState) -> bool {
    &&& env.mem.heap <= e.mem.heap <= HEAP_END
    &&& forall|o: Owner, b: u32|
        (#[trigger] env.block(o)) is Some && !(o is Errno) && env.block(o).unwrap().0 <= b
            < env.block(o).unwrap().0 + env.block(o).unwrap().1 ==> #[trigger] e.mem.peek(b)
            == env.mem.peek(b)
    &&& forall|o: Owner| (#[trigger] env.block(o)) is Some ==> e.block(o) == env.block(o)
    &&& env.objc.method_handles.is_prefix_of(e.objc.method_handles)
    &&& env.objc.classes.is_prefix_of(e.objc.classes)
    &&& forall|i: int|
        env.objc.classes.len() <= i < e.objc.classes.len() ==> in_free(
            env.mem,
            (#[trigger] e.objc.classes[i]).1,
        )
    &&& forall|c: Class|
        !in_free(env.mem, c) ==> #[trigger] e.objc.class_name(c) == env.objc.class_name(c)
    &&& forall|c: Class|
        #[trigger] e.objc.objects.contains_key(c) ==> env.objc.objects.contains_key(c) || !in_free(
            e.mem,
            c,
        )
}

/// Whether what `e` has beyond `env` is in new blocks from the heap.
spec fn well_grown(env: EnvState, e: EnvState) -> bool {
    &&& forall|o: Owner|
        env.block(o) is None && (#[trigger] e.block(o)) is Some ==> {
            let b = e.block(o).unwrap();
            b.1 > 0 && env.mem.heap <= b.0 && b.0 + b.1 <= e.mem.heap && e.intact(o)
        }
    &&& forall|a: Owner, b: Owner|
        a != b && env.block(a) is None && env.block(b) is None && (#[trigger] e.block(a)) is Some
            && (#[trigger] e.block(b)) is Some ==> apart(
            e.block(a).unwrap(),
            e.block(b).unwrap(),
        )
}

/// No block is about something in the part of the heap that was not taken yet.
proof fn lemma_relied(env: EnvState, c: Class)
    requires
        env.sound(),
        relies_on(env, c),
    ensures
        !in_free(env.mem, c),
{
    if env.objc.class_names.contains_key(c) {
        let o = Owner::ClassName { class: c };
        assert(env.block(o) is Some);
    } else if is_known(env.objc.classes, c) {
        let o = Owner::Class { class: c };
        assert(env.block(o) is Some);
        assert(in_use(env.mem, env.block(o).unwrap()));
    } else {
        let d = choose|d: Class|
            is_known(env.objc.classes, d) && #[trigger] env.mem.peek_u32(d) == c;
        let o = Owner::Class { class: d };
        assert(env.block(o) is Some);
        assert(env.intact(o));
    }
}

/// What grows well stays sound.
proof fn lemma_grown(env: EnvState, e: EnvState)
    requires
        env.sound(),
        grown(env, e),
        well_grown(env, e),
        handles_differ(e.objc.method_handles),
        forall|c: Class|
            (#[trigger] e.objc.class_name(c)) matches Some(name) ==> has_no_nul(name),
    ensures
        e.sound(),
{
    assert forall|c: Class| relies_on(env, c) implies #[trigger] e.objc.class_name(c)
        == env.objc.class_name(c) by {
        lemma_relied(env, c);
    }
    assert forall|i: int| env.objc.classes.len() <= i < e.objc.classes.len() implies !is_known(
        env.objc.classes,
        (#[trigger] e.objc.classes[i]).1,
    ) by {
        if is_known(env.objc.classes, e.objc.classes[i].1) {
            assert(relies_on(env, e.objc.classes[i].1));
            lemma_relied(env, e.objc.classes[i].1);
        }
    }
    assert forall|a: Owner, b: Owner|
        a != b && env.block(a) is None && (#[trigger] e.block(a)) is Some && (#[trigger] e.block(
            b,
        )) is Some implies apart(e.block(a).unwrap(), e.block(b).unwrap()) by {
        if env.block(b) is Some {
            assert(e.block(b) == env.block(b));
            assert(in_use(env.mem, env.block(b).unwrap()));
        }
    }
    lemma_kept(env, e);
}

/// Whether a new environment has nothing in guest memory yet.
pub open spec fn is_fresh(env: EnvState) -> bool {
    &&& NULL_PAGE_END <= env.mem.heap <= HEAP_END
    &&& env.errno.errnos.dom() == Set::<ThreadId>::empty()
    &&& env.errno.strings.dom() == Set::<i32>::empty()
    &&& env.objc.objects.dom() == Set::<Class>::empty()
    &&& env.objc.classes.len() == 0
    &&& env.objc.method_handles.len() == 0
    &&& env.objc.host_imp_tokens.dom() == Set::<u64>::empty()
    &&& env.objc.class_names.dom() == Set::<Class>::empty()
}

/// A new environment is sound, if its heap is outside the null page.
pub proof fn law_sound_at_start(env: EnvState)
    requires
        is_fresh(env),
    ensures
        env.sound(),
{
    assert forall|o: Owner| (#[trigger] env.block(o)) is None by {
        match o {
            Owner::Errno { thread } => {
                assert(!env.errno.errnos.dom().contains(thread));
            },
            Owner::Message { err_num } => {
                assert(!env.errno.strings.dom().contains(err_num));
            },
            Owner::Implementation { key } => {
                assert(!env.objc.host_imp_tokens.dom().contains(key));
            },
            Owner::ClassName { class } => {
                assert(!env.objc.class_names.dom().contains(class));
            },
            _ => {},
        }
    }
    assert forall|c: Class| !(#[trigger] env.objc.objects.contains_key(c)) by {
        assert(!env.objc.objects.dom().contains(c));
    }
}

/// Only the memory, `errno` and the tables of the runtime matter: a thread can
/// take over, and touches, sound, graphics and output can change.
pub proof fn law_sound_elsewhere(env: EnvState, e: EnvState)
    requires
        env.sound(),
        e.mem == env.mem,
        e.errno == env.errno,
        e.objc == env.objc,
    ensures
        e.sound(),
{
    assert forall|o: Owner| (#[trigger] e.block(o)) == env.block(o) && e.intact(o) == env.intact(
        o,
    ) by {}
}

/// Changing methods, type encodings, superclasses or layouts keeps an environment
/// sound: classes stay where they are and keep their names.
pub proof fn law_sound_tables(env: EnvState, o: ObjCState)
    requires
        env.sound(),
        o.classes == env.objc.classes,
        o.method_handles == env.objc.method_handles,
        o.host_imp_tokens == env.objc.host_imp_tokens,
        o.class_names == env.objc.class_names,
        o.objects.dom() == env.objc.objects.dom(),
        forall|c: Class| #[trigger] o.class_name(c) == env.objc.class_name(c),
    ensures
        (EnvState { objc: o, ..env }).sound(),
{
    let e = EnvState { objc: o, ..env };
    assert forall|w: Owner| (#[trigger] e.block(w)) == env.block(w) by {
        if let Owner::ClassName { class } = w {
            assert(o.class_name(class) == env.objc.class_name(class));
        }
    }
    assert forall|c: Class| #[trigger] o.objects.contains_key(c) implies !in_free(e.mem, c) by {
        assert(o.objects.dom().contains(c));
        assert(env.objc.objects.dom().contains(c));
        assert(env.objc.objects.contains_key(c));
    }
    lemma_grown(env, e);
}

proof fn lemma_class_changed(o: ObjCState, c: Class, class: ClassView)
    requires
        o.class(c) is Some,
        class.name == o.class(c)->0.name,
    ensures
        o.with_class(c, class).objects.dom() == o.objects.dom(),
        forall|d: Class| #[trigger] o.with_class(c, class).class_name(d) == o.class_name(d),
{
    assert(o.with_class(c, class).objects.dom() =~= o.objects.dom());
}

/// Methods of classes can be replaced.
pub proof fn law_sound_imp(env: EnvState, c: Class, sel: SEL, imp: Option<IMP>, types: Option<u32>)
    requires
        env.sound(),
    ensures
        env.with_opt_imp(c, sel, imp).sound(),
        env.with_opt_types(c, sel, types).sound(),
{
    if let Some(class) = env.objc.class(c) {
        if let Some(imp) = imp {
            let changed = ClassView { methods: class.methods.insert(sel, imp), ..class };
            lemma_class_changed(env.objc, c, changed);
            law_sound_tables(env, env.objc.with_imp(c, sel, imp));
        }
        let signatures = match types {
            Some(types) => class.signatures.insert(sel, types),
            None => class.signatures.remove(sel),
        };
        lemma_class_changed(env.objc, c, ClassView { signatures, ..class });
        law_sound_tables(env, env.objc.with_types(c, sel, types));
    }
}

/// Methods can be added to classes and exchanged.
pub proof fn law_sound_methods(
    env: EnvState,
    c: Class,
    sel: SEL,
    imp: Option<IMP>,
    types: u32,
    d: Class,
    other: SEL,
)
    requires
        env.sound(),
    ensures
        env.with_method(c, sel, imp, types).sound(),
        env.exchanged(c, sel, d, other).sound(),
{
    law_sound_imp(env, c, sel, imp, None);
    law_sound_imp(env.with_opt_imp(c, sel, imp), c, sel, None, Some(types));
    let o = env.objc;
    law_sound_imp(env, c, sel, o.imp_at(d, other), None);
    let e1 = env.with_opt_imp(c, sel, o.imp_at(d, other));
    law_sound_imp(e1, d, other, o.imp_at(c, sel), None);
    let e2 = e1.with_opt_imp(d, other, o.imp_at(c, sel));
    law_sound_imp(e2, c, sel, None, o.types_at(d, other));
    law_sound_imp(
        e2.with_opt_types(c, sel, o.types_at(d, other)),
        d,
        other,
        None,
        o.types_at(c, sel),
    );
}

/// A superclass can be set.
pub proof fn law_sound_superclass(env: EnvState, c: Class, superclass: Class)
    requires
        env.sound(),
    ensures
        (EnvState { objc: env.objc.with_superclass(c, superclass), ..env }).sound(),
{
    if let Some(class) = env.objc.class(c) {
        lemma_class_changed(env.objc, c, ClassView { superclass, ..class });
        law_sound_tables(env, env.objc.with_superclass(c, superclass));
    }
}

// Stores

/// The guest can have something stored outside the blocks.
pub proof fn law_sound_store(env: EnvState, a: u32, n: nat, m: MemState)
    requires
        env.sound(),
        env.spares(a, n),
        m.heap == env.mem.heap,
        forall|b: u32| b < a || a + n <= b ==> #[trigger] m.peek(b) == env.mem.peek(b),
    ensures
        (EnvState { mem: m, ..env }).sound(),
{
    let e = EnvState { mem: m, ..env };
    assert forall|o: Owner| (#[trigger] e.block(o)) == env.block(o) by {}
    assert forall|o: Owner, b: u32|
        (#[trigger] env.block(o)) is Some && !(o is Errno) && env.block(o).unwrap().0 <= b
            < env.block(o).unwrap().0 + env.block(o).unwrap().1 implies #[trigger] e.mem.peek(b)
        == env.mem.peek(b) by {
        assert(apart((a, n), env.block(o).unwrap()));
    }
    lemma_grown(env, e);
}

/// A word can be stored outside the blocks.
pub proof fn law_sound_word(env: EnvState, a: u32, v: u32)
    requires
        env.sound(),
        env.spares(a, 4),
    ensures
        (EnvState { mem: env.mem.poke_u32(a, v), ..env }).sound(),
{
    mem::lemma_poke_u32_heap(env.mem, a, v);
    assert forall|b: u32| b < a || a + 4 <= b implies #[trigger] env.mem.poke_u32(a, v).peek(b)
        == env.mem.peek(b) by {
        mem::lemma_peek_poke_u32_byte(env.mem, a, v, b);
    }
    law_sound_store(env, a, 4, env.mem.poke_u32(a, v));
}

/// A string can be stored outside the blocks.
pub proof fn law_sound_string(env: EnvState, a: u32, text: Seq<u8>)
    requires
        env.sound(),
        env.spares(a, text.len() + 1),
    ensures
        (EnvState { mem: env.mem.poke_cstr(a, text), ..env }).sound(),
{
    let m = env.mem.poke_cstr(a, text);
    let end = (a + text.len()) as u32;
    assert(mem::wrap(a + text.len()) == end);
    mem::laws::law_bytes_read_back(env.mem, a, text, a);
    mem::laws::law_byte_reads_back(env.mem.poke_bytes(a, text), end, 0, a);
    assert forall|b: u32| b < a || a + (text.len() + 1) <= b implies #[trigger] m.peek(b)
        == env.mem.peek(b) by {
        mem::laws::law_string_stays_in_place(env.mem, a, text, b);
    }
    law_sound_store(env, a, text.len() + 1, m);
}

/// A block can be taken from the heap for the guest, and something be stored in
/// it. Nothing else is there.
pub proof fn law_sound_block(env: EnvState, size: u32, m: MemState)
    requires
        env.sound(),
        env.mem.room() >= mem::block_size(size),
        m.heap == env.mem.grow(size).heap,
        forall|b: u32| !in_free(env.mem, b) ==> #[trigger] m.peek(b) == env.mem.peek(b),
    ensures
        (EnvState { mem: m, ..env }).sound(),
        size > 0 ==> (EnvState { mem: m, ..env }).spares(env.mem.heap, size as nat),
{
    let e = EnvState { mem: m, ..env };
    assert forall|o: Owner| (#[trigger] e.block(o)) == env.block(o) by {}
    assert forall|o: Owner, b: u32|
        (#[trigger] env.block(o)) is Some && !(o is Errno) && env.block(o).unwrap().0 <= b
            < env.block(o).unwrap().0 + env.block(o).unwrap().1 implies #[trigger] e.mem.peek(b)
        == env.mem.peek(b) by {
        assert(in_use(env.mem, env.block(o).unwrap()));
    }
    lemma_grown(env, e);
    if size > 0 {
        assert forall|o: Owner| (#[trigger] e.block(o)) is Some implies apart(
            (env.mem.heap, size as nat),
            e.block(o).unwrap(),
        ) by {
            assert(in_use(env.mem, env.block(o).unwrap()));
        }
    }
}

// Errors

/// The `errno` of a thread gets a block.
pub proof fn law_sound_errno(env: EnvState)
    requires
        env.sound(),
        env.errno_ready(),
    ensures
        env.with_errno().sound(),
{
    let e = env.with_errno();
    let own = Owner::Errno { thread: env.current_thread };
    if env.block(own) is Some {
        assert(e.errno.errnos =~= env.errno.errnos);
        law_sound_elsewhere(env, e);
    } else {
        lemma_new_word(env.mem, 0);
        assert(e.mem == env.mem.grow(4).poke_u32(env.mem.heap, 0));
        assert forall|o: Owner| o != own implies (#[trigger] e.block(o)) == env.block(o) by {}
        assert(e.block(own) == Some((env.mem.heap, 4nat)));
        lemma_blocks_below(env);
        lemma_grown(env, e);
    }
}

/// No block reaches into the part of the heap that was not taken yet.
proof fn lemma_blocks_below(env: EnvState)
    requires
        env.sound(),
    ensures
        forall|o: Owner, b: u32|
            (#[trigger] env.block(o)) is Some && env.block(o).unwrap().0 <= b
                < env.block(o).unwrap().0 + env.block(o).unwrap().1 ==> !#[trigger] in_free(
                env.mem,
                b,
            ),
{
    assert forall|o: Owner, b: u32|
        (#[trigger] env.block(o)) is Some && env.block(o).unwrap().0 <= b
            < env.block(o).unwrap().0 + env.block(o).unwrap().1 implies !#[trigger] in_free(
        env.mem,
        b,
    ) by {
        assert(in_use(env.mem, env.block(o).unwrap()));
    }
}

/// `errno` can be set.
pub proof fn law_sound_errno_set(env: EnvState, val: i32)
    requires
        env.sound(),
        env.errno_ready(),
    ensures
        env.errno_set(val).sound(),
{
    law_sound_errno(env);
    let w = env.with_errno();
    let e = env.errno_set(val);
    let own = Owner::Errno { thread: env.current_thread };
    let ptr = env.errno_ptr();
    assert(w.block(own) == Some((ptr, 4nat)));
    assert(in_use(w.mem, w.block(own).unwrap()));
    mem::lemma_poke_u32_heap(w.mem, ptr, abi::bits32(val as int));
    assert forall|o: Owner| (#[trigger] e.block(o)) == w.block(o) by {}
    assert forall|o: Owner, b: u32|
        (#[trigger] w.block(o)) is Some && !(o is Errno) && w.block(o).unwrap().0 <= b < w.block(
            o,
        ).unwrap().0 + w.block(o).unwrap().1 implies #[trigger] e.mem.peek(b) == w.mem.peek(
        b,
    ) by {
        assert(apart(w.block(own).unwrap(), w.block(o).unwrap()));
        mem::lemma_peek_poke_u32_byte(w.mem, ptr, abi::bits32(val as int), b);
    }
    lemma_grown(w, e);
}

/// The message for an error number gets a block.
pub proof fn law_sound_message(env: EnvState, err_num: i32)
    requires
        env.sound(),
        env.errno.message_ready(env.mem, err_num),
    ensures
        env.with_error_message(err_num).sound(),
{
    let e = env.with_error_message(err_num);
    let own = Owner::Message { err_num };
    if env.block(own) is Some {
        assert(e.errno.strings =~= env.errno.strings);
        law_sound_elsewhere(env, e);
    } else {
        lemma_new_text(env.mem, message_bytes(err_num));
        assert forall|o: Owner| o != own implies (#[trigger] e.block(o)) == env.block(o) by {}
        lemma_blocks_below(env);
        lemma_grown(env, e);
    }
}

// Methods

proof fn lemma_handle_index(handles: Seq<MethodHandle>, c: Class, sel: SEL)
    ensures
        match methods::find_handle(handles, c, sel) {
            Some(ptr) => exists|i: int|
                0 <= i < handles.len() && (#[trigger] handles[i]) == (MethodHandle {
                    class: c,
                    sel,
                    ptr,
                }),
            None => forall|i: int|
                0 <= i < handles.len() ==> (#[trigger] handles[i]).class != c || handles[i].sel
                    != sel,
        },
    decreases handles.len(),
{
    if handles.len() > 0 {
        let rest = handles.drop_last();
        lemma_handle_index(rest, c, sel);
        if handles.last().class == c && handles.last().sel == sel {
            assert(handles[handles.len() - 1] == (MethodHandle {
                class: c,
                sel,
                ptr: handles.last().ptr,
            }));
        } else {
            match methods::find_handle(rest, c, sel) {
                Some(ptr) => {
                    let i = choose|i: int|
                        0 <= i < rest.len() && (#[trigger] rest[i]) == (MethodHandle {
                            class: c,
                            sel,
                            ptr,
                        });
                    assert(handles[i] == rest[i]);
                },
                None => {
                    assert forall|i: int| 0 <= i < handles.len() implies (
                    #[trigger] handles[i]).class != c || handles[i].sel != sel by {
                        if i < rest.len() {
                            assert(rest[i] == handles[i]);
                        }
                    }
                },
            }
        }
    }
}

/// A `Method` gets a block.
pub proof fn law_sound_method(env: EnvState, c: Class, sel: SEL)
    requires
        env.sound(),
        env.objc.handle(c, sel) is Some || env.mem.room() >= 16,
    ensures
        env.with_handle(c, sel).sound(),
{
    let e = env.with_handle(c, sel);
    let own = Owner::Method { index: env.objc.method_handles.len() as int };
    lemma_handle_index(env.objc.method_handles, c, sel);
    if env.objc.handle(c, sel) is None {
        let ptr = env.mem.heap;
        let second = (ptr + 4) as u32;
        let m = env.mem.grow(8);
        assert(mem::wrap(ptr + 4) == second);
        mem::lemma_poke_u32_heap(m, ptr, c);
        mem::lemma_poke_u32_heap(m.poke_u32(ptr, c), second, sel);
        mem::lemma_peek_poke_u32(m, ptr, c);
        mem::lemma_peek_poke_u32(m.poke_u32(ptr, c), second, sel);
        mem::lemma_peek_poke_u32_apart(m.poke_u32(ptr, c), second, ptr, sel);
        assert forall|b: u32| !in_free(env.mem, b) implies #[trigger] e.mem.peek(b)
            == env.mem.peek(b) by {
            mem::lemma_peek_poke_u32_byte(m, ptr, c, b);
            mem::lemma_peek_poke_u32_byte(m.poke_u32(ptr, c), second, sel, b);
        }
        assert forall|o: Owner| o != own implies (#[trigger] e.block(o)) == env.block(o) by {}
        assert forall|d: Class| #[trigger] e.objc.class_name(d) == env.objc.class_name(d) by {}
        lemma_blocks_below(env);
        lemma_grown(env, e);
    }
}

/// What stands for a host implementation gets a block.
pub proof fn law_sound_imp_ptr(env: EnvState, c: Class, sel: SEL, imp: Option<IMP>)
    requires
        env.sound(),
        env.imp_ready(c, sel, imp),
    ensures
        env.with_opt_imp_ptr(c, sel, imp).sound(),
{
    let e = env.with_opt_imp_ptr(c, sel, imp);
    let key = methods::pair(c, sel);
    let own = Owner::Implementation { key };
    if imp matches Some(IMP::Host { .. }) {
        if env.block(own) is Some {
            assert(e.objc.host_imp_tokens =~= env.objc.host_imp_tokens);
            law_sound_tables(env, e.objc);
        } else {
            assert forall|b: u32| #[trigger] e.mem.peek(b) == env.mem.peek(b) by {}
            assert forall|o: Owner| o != own implies (#[trigger] e.block(o)) == env.block(o) by {}
            assert forall|d: Class| #[trigger] e.objc.class_name(d) == env.objc.class_name(d) by {}
            lemma_blocks_below(env);
            lemma_grown(env, e);
        }
    }
}

/// Looking up a `Method` or an implementation, and setting one, keeps an
/// environment sound.
pub proof fn law_sound_lookups(env: EnvState, cls: Class, name: SEL, m: u32, imp: u32)
    requires
        env.sound(),
    ensures
        env.responds(cls, name) ==> env.objc.handle(env.objc.defining(cls, name), name) is Some
            || env.mem.room() >= 16 ==> env.with_instance_method(cls, name).sound(),
        env.class_imp_ready(cls, name) ==> env.with_class_imp(cls, name).sound(),
        env.method_ready(m) ==> env.with_method_imp(m).sound() && env.with_method_set(
            m,
            imp,
        ).sound(),
{
    let d = env.objc.defining(cls, name);
    if env.responds(cls, name) {
        if env.objc.handle(d, name) is Some || env.mem.room() >= 16 {
            law_sound_method(env, d, name);
        }
        if env.class_imp_ready(cls, name) {
            law_sound_imp_ptr(env, d, name, env.objc.imp_at(d, name));
        }
    }
    if env.method_ready(m) {
        if let Some((c, sel)) = env.decoded(m) {
            law_sound_imp_ptr(env, c, sel, env.objc.imp_at(c, sel));
            law_sound_imp(env, c, sel, env.objc.imp_of(imp), None);
            law_sound_imp_ptr(
                env.with_opt_imp(c, sel, env.objc.imp_of(imp)),
                c,
                sel,
                env.objc.imp_at(c, sel),
            );
        }
    }
}

// Names

/// The name of a class gets a block. The class must not be an address in the part
/// of the heap that was not taken yet.
pub proof fn law_sound_class_name(env: EnvState, c: Class)
    requires
        env.sound(),
        c != nil,
        env.class_name_ready(c),
        !in_free(env.mem, c),
    ensures
        env.with_class_name(c).sound(),
{
    let e = env.with_class_name(c);
    let own = Owner::ClassName { class: c };
    if env.block(own) is None {
        lemma_new_text(env.mem, env.objc.class_name_or_unknown(c));
        assert forall|d: Class| #[trigger] e.objc.class_name(d) == env.objc.class_name(d) by {}
        assert forall|o: Owner| o != own implies (#[trigger] e.block(o)) == env.block(o) by {}
        lemma_blocks_below(env);
        lemma_grown(env, e);
    }
}

/// A selector can be registered.
pub proof fn law_sound_selector(env: EnvState, name: Seq<u8>)
    requires
        env.sound(),
        env.selector_ready(name),
    ensures
        env.with_selector(name).sound(),
{
    let e = env.with_selector(name);
    if names::find(env.objc.selectors, name) is None {
        lemma_new_text(env.mem, name);
        assert forall|d: Class| #[trigger] e.objc.class_name(d) == env.objc.class_name(d) by {}
        assert forall|o: Owner| (#[trigger] e.block(o)) == env.block(o) by {}
        lemma_blocks_below(env);
        lemma_grown(env, e);
    }
}

// Linking

/// The name of a class that is an object.
pub open spec fn object_name(object: ObjectView) -> Option<Seq<u8>> {
    match object {
        ObjectView::Class { class } => Some(class.name),
        ObjectView::Unimplemented { name, .. } => Some(name),
        ObjectView::Fake { name, .. } => Some(name),
        ObjectView::Other => None,
    }
}

/// A class that is made and its metaclass are there.
pub proof fn lemma_new_class(
    s: Runtime,
    name: Seq<u8>,
    isa: Class,
    class: ObjectView,
    metaclass: ObjectView,
)
    requires
        NULL_PAGE_END <= s.mem.heap,
        s.mem.room() >= 32,
    ensures
        ({
            let r = s.with_new_class(name, isa, class, metaclass);
            let c = (s.mem.heap + 16) as u32;
            &&& r.mem.heap == s.mem.heap + 32
            &&& r.mem.peek_u32(c) == s.mem.heap
            &&& r.objc.classes == names::put(s.objc.classes, name, c)
            &&& r.objc.objects == s.objc.objects.insert(s.mem.heap, metaclass).insert(c, class)
            &&& r.objc == (ObjCState {
                classes: r.objc.classes,
                objects: r.objc.objects,
                ..s.objc
            })
            &&& classes::lookup(r.objc, r.mem, name, false) == Some(c)
            &&& classes::lookup(r.objc, r.mem, name, true) == Some(s.mem.heap)
            &&& forall|b: u32| !in_free(s.mem, b) ==> #[trigger] r.mem.peek(b) == s.mem.peek(b)
        }),
{
    let r = s.with_new_class(name, isa, class, metaclass);
    let r1 = s.with_new_object(isa, metaclass);
    let c = (s.mem.heap + 16) as u32;
    lemma_new_word(s.mem, isa);
    assert(r1.mem.heap == c);
    lemma_new_word(r1.mem, s.mem.heap);
    names::lemma_find_put(s.objc.classes, name, c, name);
    assert forall|b: u32| !in_free(s.mem, b) implies #[trigger] r.mem.peek(b) == s.mem.peek(b) by {
        assert(r1.mem.peek(b) == s.mem.peek(b));
    }
}

proof fn lemma_sound_new_class(
    env: EnvState,
    name: Seq<u8>,
    isa: Class,
    class: ObjectView,
    metaclass: ObjectView,
)
    requires
        env.sound(),
        env.mem.room() >= 32,
        names::find(env.objc.classes, name) is None,
        object_name(class) == Some(name),
        object_name(metaclass) == Some(name),
        has_no_nul(name),
    ensures
        env.with_runtime(
            (Runtime { objc: env.objc, mem: env.mem }).with_new_class(name, isa, class, metaclass),
        ).sound(),
{
    let s = Runtime { objc: env.objc, mem: env.mem };
    let r = s.with_new_class(name, isa, class, metaclass);
    let e = env.with_runtime(r);
    let c = (env.mem.heap + 16) as u32;
    let own = Owner::Class { class: c };
    lemma_new_class(s, name, isa, class, metaclass);
    let n = env.objc.classes.len() as int;
    assert(e.objc.classes == env.objc.classes.push((name, c)));
    assert(env.objc.classes =~= e.objc.classes.subrange(0, n));
    assert(e.objc.classes[n].1 == c);
    lemma_blocks_below(env);
    assert forall|o: Owner| o != own implies (#[trigger] e.block(o)) == env.block(o) by {
        match o {
            Owner::ClassName { class: d } => {
                if env.block(o) is Some {
                    assert(in_use(env.mem, env.block(o).unwrap()) && env.intact(o));
                }
            },
            Owner::Class { class: d } => {
                if is_known(env.objc.classes, d) {
                    let i = choose|i: int|
                        0 <= i < env.objc.classes.len() && (#[trigger] env.objc.classes[i]).1 == d;
                    assert(e.objc.classes[i].1 == d);
                }
                if is_known(e.objc.classes, d) {
                    let i = choose|i: int|
                        0 <= i < e.objc.classes.len() && (#[trigger] e.objc.classes[i]).1 == d;
                    assert(env.objc.classes[i].1 == d);
                }
            },
            _ => {},
        }
    }
    assert(is_known(e.objc.classes, c));
    assert(env.block(own) is None) by {
        if env.block(own) is Some {
            assert(in_use(env.mem, env.block(own).unwrap()));
        }
    }
    assert forall|i: int|
        0 <= i < e.objc.classes.len() && (#[trigger] e.objc.classes[i]).1 == c implies i == n by {
        if i < n {
            assert(env.objc.classes[i].1 == c);
            assert(is_known(env.objc.classes, c));
        }
    }
    assert(e.objc.class_name(c) == Some(name));
    assert(e.objc.class_name(env.mem.heap) == Some(name));
    assert(e.intact(own));
    assert forall|d: Class| (#[trigger] e.objc.class_name(d)) is Some implies has_no_nul(
        e.objc.class_name(d).unwrap(),
    ) by {
        if d != c && d != env.mem.heap {
            assert(e.objc.class_name(d) == env.objc.class_name(d));
        }
    }
    lemma_grown(env, e);
}

/// The name of the root class has no NUL in it.
proof fn lemma_root_name()
    ensures
        has_no_nul(classes::root_name()),
{
    reveal_strlit("NSObject");
    let chars = "NSObject"@;
    assert(is_ascii_chars(chars));
    is_ascii_chars_encode_utf8(chars);
    assert forall|i: int| 0 <= i < classes::root_name().len() implies #[trigger]
        classes::root_name()[i] != 0 by {
        assert(chars[i] as u8 == classes::root_name()[i]);
    }
}

proof fn lemma_linked_object_name(o: ObjCState, name: Seq<u8>, is_metaclass: bool, superclass: Class)
    ensures
        object_name(classes::linked_object(o, name, is_metaclass, superclass)) == Some(name),
{
    classes::lemma_template_named(o.templates, name);
}

/// The root class can be linked.
pub proof fn lemma_sound_root(env: EnvState)
    requires
        env.sound(),
        env.mem.room() >= 32,
    ensures
        ({
            let r = (Runtime { objc: env.objc, mem: env.mem }).with_root();
            &&& env.with_runtime(r).sound()
            &&& env.mem.heap <= r.mem.heap <= env.mem.heap + 32
            &&& r.objc.templates == env.objc.templates
            &&& forall|other: Seq<u8>|
                other != classes::root_name() ==> #[trigger] names::find(r.objc.classes, other)
                    == names::find(env.objc.classes, other)
        }),
{
    let s = Runtime { objc: env.objc, mem: env.mem };
    let name = classes::root_name();
    if names::find(env.objc.classes, name) is None {
        let c = (env.mem.heap + 16) as u32;
        let class = classes::linked_object(env.objc, name, false, nil);
        let metaclass = classes::linked_object(env.objc, name, true, c);
        lemma_root_name();
        lemma_linked_object_name(env.objc, name, false, nil);
        lemma_linked_object_name(env.objc, name, true, c);
        lemma_new_class(s, name, env.mem.heap, class, metaclass);
        lemma_sound_new_class(env, name, env.mem.heap, class, metaclass);
        assert forall|other: Seq<u8>| other != name implies #[trigger] names::find(
            s.with_root().objc.classes,
            other,
        ) == names::find(env.objc.classes, other) by {
            names::lemma_find_put(env.objc.classes, name, c, other);
        }
    } else {
        law_sound_elsewhere(env, env.with_runtime(s.with_root()));
    }
}

proof fn lemma_chain_longer(t: Seq<TemplateView>, name: Seq<u8>, n: nat)
    requires
        classes::template_chain_ends(t, name, n),
    ensures
        classes::template_chain_ends(t, name, n + 1),
    decreases n,
{
    if let Some(template) = classes::template_of(t, name) {
        if let Some(superclass) = template.superclass {
            lemma_chain_longer(t, superclass, (n - 1) as nat);
        }
    }
}

/// The number of steps after which superclasses come to an end.
proof fn lemma_chain_length(t: Seq<TemplateView>, name: Seq<u8>, n: nat) -> (d: nat)
    requires
        classes::template_chain_ends(t, name, n),
    ensures
        d <= n,
        classes::template_chain_ends(t, name, d),
        d > 0 ==> !classes::template_chain_ends(t, name, (d - 1) as nat),
    decreases n,
{
    if n == 0 || !classes::template_chain_ends(t, name, (n - 1) as nat) {
        n
    } else {
        lemma_chain_length(t, name, (n - 1) as nat)
    }
}

/// Linking a class links no class further from the end of the superclasses.
proof fn lemma_others_unlinked(s: Runtime, name: Seq<u8>, n: nat, d: nat, other: Seq<u8>)
    requires
        classes::template_chain_ends(s.objc.templates, name, d),
        !classes::template_chain_ends(s.objc.templates, other, d),
        other != classes::root_name(),
    ensures
        s.with_class(name, n).objc.templates == s.objc.templates,
        names::find(s.with_class(name, n).objc.classes, other) == names::find(
            s.objc.classes,
            other,
        ),
    decreases n,
{
    assert(name != other);
    let root = classes::root_name();
    if names::find(s.objc.classes, name) is None && name != root && classes::is_plausible_name(
        name,
    ) {
        let superclass = match classes::template_of(s.objc.templates, name) {
            Some(t) => t.superclass,
            None => None,
        };
        let r1 = if superclass is Some && n > 0 {
            s.with_class(superclass.unwrap(), (n - 1) as nat)
        } else {
            s
        };
        if superclass is Some && n > 0 {
            if classes::template_chain_ends(s.objc.templates, other, (d - 1) as nat) {
                lemma_chain_longer(s.objc.templates, other, (d - 1) as nat);
            }
            lemma_others_unlinked(s, superclass.unwrap(), (n - 1) as nat, (d - 1) as nat, other);
        }
        lemma_root_others(r1, other);
        let r2 = r1.with_root();
        names::lemma_find_put(
            r2.objc.classes,
            name,
            r2.with_new_object(
                classes::lookup_or_nil(r2.objc, r2.mem, root, true),
                ObjectView::Other,
            ).mem.heap,
            other,
        );
    } else {
        lemma_root_others(s, other);
    }
}

proof fn lemma_root_others(s: Runtime, other: Seq<u8>)
    requires
        other != classes::root_name(),
    ensures
        s.with_root().objc.templates == s.objc.templates,
        names::find(s.with_root().objc.classes, other) == names::find(s.objc.classes, other),
{
    names::lemma_find_put(
        s.objc.classes,
        classes::root_name(),
        s.with_new_object(s.mem.heap, ObjectView::Other).mem.heap,
        other,
    );
}

/// What linking takes, and that it keeps an environment sound.
pub proof fn lemma_sound_class(env: EnvState, name: Seq<u8>, n: nat)
    requires
        env.sound(),
        classes::template_chain_ends(env.objc.templates, name, n),
        env.mem.room() >= 64 * (n + 1),
    ensures
        ({
            let r = (Runtime { objc: env.objc, mem: env.mem }).with_class(name, n);
            &&& env.with_runtime(r).sound()
            &&& env.mem.heap <= r.mem.heap <= env.mem.heap + 64 * (n + 1)
            &&& r.objc.templates == env.objc.templates
        }),
    decreases n,
{
    let s = Runtime { objc: env.objc, mem: env.mem };
    let r = s.with_class(name, n);
    if names::find(env.objc.classes, name) is Some {
        law_sound_elsewhere(env, env.with_runtime(r));
    } else if name == classes::root_name() {
        lemma_sound_root(env);
    } else if !classes::is_plausible_name(name) {
        law_sound_elsewhere(env, env.with_runtime(r));
    } else {
        let superclass = match classes::template_of(env.objc.templates, name) {
            Some(t) => t.superclass,
            None => None,
        };
        let r1 = if superclass is Some && n > 0 {
            s.with_class(superclass.unwrap(), (n - 1) as nat)
        } else {
            s
        };
        if superclass is Some && n > 0 {
            lemma_sound_class(env, superclass.unwrap(), (n - 1) as nat);
        } else {
            law_sound_elsewhere(env, env.with_runtime(r1));
        }
        let e1 = env.with_runtime(r1);
        lemma_sound_root(e1);
        let r2 = r1.with_root();
        let e2 = e1.with_runtime(r2);
        if superclass is Some {
            let d = lemma_chain_length(env.objc.templates, name, n);
            lemma_others_unlinked(
                s,
                superclass.unwrap(),
                (n - 1) as nat,
                (d - 1) as nat,
                name,
            );
        }
        assert(names::find(r2.objc.classes, name) is None);
        {
            let isa = classes::lookup_or_nil(r2.objc, r2.mem, classes::root_name(), true);
            let above = |is_metaclass: bool|
                if superclass is Some {
                    classes::lookup_or_nil(r1.objc, r1.mem, superclass.unwrap(), is_metaclass)
                } else {
                    nil
                };
            lemma_linked_object_name(r2.objc, name, false, above(false));
            lemma_linked_object_name(r2.objc, name, true, above(true));
            lemma_new_class(
                r2,
                name,
                isa,
                classes::linked_object(r2.objc, name, false, above(false)),
                classes::linked_object(r2.objc, name, true, above(true)),
            );
            lemma_sound_new_class(
                e2,
                name,
                isa,
                classes::linked_object(r2.objc, name, false, above(false)),
                classes::linked_object(r2.objc, name, true, above(true)),
            );
        }
    }
}

/// A class can be linked.
pub proof fn law_sound_linked(env: EnvState, name: Seq<u8>)
    requires
        env.sound(),
        env.objc.link_ready(env.mem, name),
    ensures
        env.with_runtime(env.objc.linked(env.mem, name)).sound(),
{
    let s = Runtime { objc: env.objc, mem: env.mem };
    if env.objc.can_link(env.mem) {
        lemma_sound_class(env, name, env.objc.templates.len());
    } else {
        assert(env.objc.linked(env.mem, name) == s);
        law_sound_elsewhere(env, env.with_runtime(s));
    }
}

/// A class can be looked up by the guest.
pub proof fn law_sound_class_named(env: EnvState, name: u32)
    requires
        env.sound(),
        env.lookup_ready(name),
    ensures
        env.with_class_named(name).sound(),
{
    let text = env.mem.cstr(name);
    if name != 0 && valid_utf8(text) {
        if classes::template_of(env.objc.templates, text) is Some {
            law_sound_linked(env, text);
        } else {
            law_sound_elsewhere(env, env.with_class_named(name));
        }
    }
}

// Lists

/// The number of entries of a list can be stored outside the blocks.
pub proof fn law_sound_count(env: EnvState, out_count: u32, count: u32)
    requires
        env.sound(),
        out_count == 0 || env.spares(out_count, 4),
    ensures
        env.with_count(out_count, count).sound(),
        env.with_count(out_count, count).mem.heap == env.mem.heap,
        forall|a: u32, n: nat|
            #[trigger] env.with_count(out_count, count).spares(a, n) == env.spares(a, n),
{
    if out_count != 0 {
        law_sound_word(env, out_count, count);
        mem::lemma_poke_u32_heap(env.mem, out_count, count);
        lemma_same_blocks(env, env.with_count(out_count, count));
    }
}

proof fn lemma_same_blocks(env: EnvState, e: EnvState)
    requires
        e.errno == env.errno,
        e.objc == env.objc,
        e.mem.heap == env.mem.heap,
    ensures
        forall|o: Owner| #[trigger] e.block(o) == env.block(o),
        forall|a: u32, n: nat| #[trigger] e.spares(a, n) == env.spares(a, n),
{
    assert forall|o: Owner| #[trigger] e.block(o) == env.block(o) by {}
    assert forall|a: u32, n: nat| #[trigger] e.spares(a, n) == env.spares(a, n) by {
        if env.spares(a, n) {
            assert forall|o: Owner| (#[trigger] e.block(o)) is Some implies apart(
                (a, n),
                e.block(o).unwrap(),
            ) by {
                assert(e.block(o) == env.block(o));
            }
        }
        if e.spares(a, n) {
            assert forall|o: Owner| (#[trigger] env.block(o)) is Some implies apart(
                (a, n),
                env.block(o).unwrap(),
            ) by {
                assert(e.block(o) == env.block(o));
            }
        }
    }
}

/// A new `Method` is in no block that the guest has.
proof fn lemma_method_spares(env: EnvState, c: Class, sel: SEL, a: u32, n: nat)
    requires
        env.sound(),
        env.spares(a, n),
        env.objc.handle(c, sel) is Some || env.mem.room() >= 16,
    ensures
        env.with_handle(c, sel).spares(a, n),
        env.mem.heap <= env.with_handle(c, sel).mem.heap <= env.mem.heap + 16,
        forall|b: u32|
            !in_free(env.mem, b) ==> #[trigger] env.with_handle(c, sel).mem.peek(b)
                == env.mem.peek(b),
{
    let e = env.with_handle(c, sel);
    let own = Owner::Method { index: env.objc.method_handles.len() as int };
    if env.objc.handle(c, sel) is None {
        let ptr = env.mem.heap;
        let second = (ptr + 4) as u32;
        let m = env.mem.grow(8);
        assert(mem::wrap(ptr + 4) == second);
        mem::lemma_poke_u32_heap(m, ptr, c);
        mem::lemma_poke_u32_heap(m.poke_u32(ptr, c), second, sel);
        assert forall|b: u32| !in_free(env.mem, b) implies #[trigger] e.mem.peek(b)
            == env.mem.peek(b) by {
            mem::lemma_peek_poke_u32_byte(m, ptr, c, b);
            mem::lemma_peek_poke_u32_byte(m.poke_u32(ptr, c), second, sel, b);
        }
        assert forall|o: Owner| (#[trigger] e.block(o)) is Some implies apart(
            (a, n),
            e.block(o).unwrap(),
        ) by {
            if o != own {
                assert(e.block(o) == env.block(o));
            }
        }
    }
}

/// Part of a block is spared where the block is.
proof fn lemma_spares_part(env: EnvState, a: u32, n: nat, b: u32, k: nat)
    requires
        env.spares(a, n),
        a <= b,
        b + k <= a + n,
        k > 0,
    ensures
        env.spares(b, k),
{
}

/// What storing `Method`s leaves: all in place, and the list as far as it goes.
pub proof fn lemma_sound_methods(env: EnvState, cls: Class, sels: Seq<SEL>, buf: u32, n: nat)
    requires
        env.sound(),
        n <= sels.len(),
        env.mem.room() >= 16 * sels.len(),
        env.spares(buf, (4 * sels.len() + 4) as nat),
    ensures
        ({
            let e = env.with_methods(cls, sels, buf, n);
            &&& e.sound()
            &&& env.mem.heap <= e.mem.heap <= env.mem.heap + 16 * n
            &&& e.objc == (ObjCState { method_handles: e.objc.method_handles, ..env.objc })
            &&& forall|a: u32, k: nat| env.spares(a, k) ==> #[trigger] e.spares(a, k)
            &&& forall|i: int|
                0 <= i < n ==> e.objc.handle(cls, #[trigger] sels[i]) == Some(
                    e.mem.peek_u32((buf + 4 * i) as u32),
                )
        }),
    decreases n,
{
    if n > 0 {
        let m = (n - 1) as nat;
        lemma_sound_methods(env, cls, sels, buf, m);
        let before = env.with_methods(cls, sels, buf, m);
        let sel = sels[n - 1];
        let e1 = before.with_handle(cls, sel);
        let e = env.with_methods(cls, sels, buf, n);
        let at = (buf + 4 * (n - 1)) as u32;
        let h = before.handle_ptr(cls, sel);
        let size = (4 * sels.len() + 4) as nat;
        assert(mem::wrap(buf + 4 * (n - 1)) == at);
        assert(before.spares(buf, size));
        law_sound_method(before, cls, sel);
        lemma_method_spares(before, cls, sel, buf, size);
        lemma_spares_part(e1, buf, size, at, 4);
        law_sound_word(e1, at, h);
        mem::lemma_poke_u32_heap(e1.mem, at, h);
        mem::lemma_peek_poke_u32(e1.mem, at, h);
        lemma_same_blocks(e1, e);
        assert forall|a: u32, k: nat| env.spares(a, k) implies #[trigger] e.spares(a, k) by {
            assert(before.spares(a, k));
            lemma_method_spares(before, cls, sel, a, k);
        }
        lemma_handle_pushed(before, cls, sel, sel);
        assert forall|i: int| 0 <= i < n implies e.objc.handle(cls, #[trigger] sels[i]) == Some(
            e.mem.peek_u32((buf + 4 * i) as u32),
        ) by {
            if i < m {
                let there = (buf + 4 * i) as u32;
                assert(before.objc.handle(cls, sels[i]) is Some);
                lemma_handle_pushed(before, cls, sel, sels[i]);
                mem::lemma_peek_poke_u32_apart(e1.mem, at, there, h);
                lemma_word_same(before.mem, e1.mem, there);
            }
        }
    }
}

/// Making a `Method` leaves the others as they are.
proof fn lemma_handle_pushed(env: EnvState, cls: Class, sel: SEL, other: SEL)
    ensures
        env.with_handle(cls, sel).objc.handle(cls, sel) == Some(env.handle_ptr(cls, sel)),
        env.objc.handle(cls, other) is Some ==> env.with_handle(cls, sel).objc.handle(cls, other)
            == env.objc.handle(cls, other),
{
    if env.objc.handle(cls, sel) is None {
        let h = MethodHandle { class: cls, sel, ptr: env.mem.heap };
        assert(env.objc.method_handles.push(h).drop_last() =~= env.objc.method_handles);
    }
}

/// A list of `Method`s can be made for the guest.
pub proof fn law_sound_method_list(env: EnvState, cls: Class, sels: Seq<SEL>, out_count: u32)
    requires
        env.sound(),
        env.mem.room() >= 20 * sels.len() + 32,
        out_count == 0 || env.spares(out_count, 4),
    ensures
        ({
            let e = env.with_method_list(cls, sels, out_count);
            &&& e.sound()
            &&& e.objc == (ObjCState { method_handles: e.objc.method_handles, ..env.objc })
            &&& forall|i: int|
                0 <= i < sels.len() ==> e.objc.handle(cls, #[trigger] sels[i]) == Some(
                    e.mem.peek_u32((env.mem.heap + 4 * i) as u32),
                )
            &&& e.mem.peek_u32((env.mem.heap + 4 * sels.len()) as u32) == 0
            &&& out_count != 0 ==> e.mem.peek_u32(out_count) == sels.len()
        }),
{
    let n = sels.len();
    let buf = env.mem.heap;
    let size = (4 * n + 4) as u32;
    let start = EnvState { mem: env.mem.grow(size), ..env };
    law_sound_block(env, size, env.mem.grow(size));
    assert(start.spares(buf, size as nat));
    lemma_sound_methods(start, cls, sels, buf, n);
    let e1 = start.with_methods(cls, sels, buf, n);
    let end = (buf + 4 * n) as u32;
    assert(mem::wrap(buf + 4 * n) == end);
    assert(e1.spares(buf, size as nat));
    lemma_spares_part(e1, buf, size as nat, end, 4);
    law_sound_word(e1, end, 0);
    let e2 = EnvState { mem: e1.mem.poke_u32(end, 0), ..e1 };
    mem::lemma_poke_u32_heap(e1.mem, end, 0);
    mem::lemma_peek_poke_u32(e1.mem, end, 0);
    lemma_same_blocks(e1, e2);
    if out_count != 0 {
        lemma_grown_spares(env, start, out_count, 4);
        assert(e1.spares(out_count, 4));
        assert(e2.spares(out_count, 4));
        mem::lemma_peek_poke_u32(e2.mem, out_count, n as u32);
        assert(apart((out_count, 4nat), (buf, size as nat))) by {
            assert(in_use(env.mem, (out_count, 4nat)));
        }
        mem::lemma_peek_poke_u32_apart(e2.mem, out_count, end, n as u32);
    }
    law_sound_count(e2, out_count, n as u32);
    let e = env.with_method_list(cls, sels, out_count);
    assert forall|i: int| 0 <= i < n implies e.objc.handle(cls, #[trigger] sels[i]) == Some(
        e.mem.peek_u32((buf + 4 * i) as u32),
    ) by {
        let there = (buf + 4 * i) as u32;
        assert(e1.objc.handle(cls, sels[i]) == Some(e1.mem.peek_u32(there)));
        mem::lemma_peek_poke_u32_apart(e1.mem, end, there, 0);
        if out_count != 0 {
            mem::lemma_peek_poke_u32_apart(e2.mem, out_count, there, n as u32);
        }
    }
}

/// What was spared stays spared when a block is taken.
proof fn lemma_grown_spares(env: EnvState, e: EnvState, a: u32, n: nat)
    requires
        env.spares(a, n),
        e.errno == env.errno,
        e.objc == env.objc,
        env.mem.heap <= e.mem.heap,
    ensures
        e.spares(a, n),
{
    assert forall|o: Owner| (#[trigger] e.block(o)) is Some implies apart(
        (a, n),
        e.block(o).unwrap(),
    ) by {
        assert(e.block(o) == env.block(o));
    }
}

proof fn lemma_words_outside(m: MemState, a: u32, words: Seq<u32>, b: u32)
    requires
        a + 4 * words.len() <= 0x1_0000_0000,
        b < a || a + 4 * words.len() <= b,
    ensures
        m.poke_words(a, words).peek(b) == m.peek(b),
        m.poke_words(a, words).heap == m.heap,
    decreases words.len(),
{
    if words.len() > 0 {
        let rest = words.drop_last();
        let at = (a + 4 * rest.len()) as u32;
        assert(mem::wrap(a + 4 * (words.len() - 1)) == at);
        lemma_words_outside(m, a, rest, b);
        mem::lemma_peek_poke_u32_byte(m.poke_words(a, rest), at, words.last(), b);
        mem::lemma_poke_u32_heap(m.poke_words(a, rest), at, words.last());
    }
}

/// A list can be made for the guest.
pub proof fn law_sound_list(env: EnvState, words: Seq<u32>)
    requires
        env.sound(),
        env.list_ready(words.len()),
    ensures
        env.with_list(words).sound(),
{
    let size = (4 * words.len() + 4) as u32;
    let m = env.mem.grow(size);
    let all = words.push(0);
    lemma_words_outside(m, env.mem.heap, all, 0);
    assert forall|b: u32| !in_free(env.mem, b) implies #[trigger] m.poke_words(
        env.mem.heap,
        all,
    ).peek(b) == env.mem.peek(b) by {
        lemma_words_outside(m, env.mem.heap, all, b);
    }
    law_sound_block(env, size, m.poke_words(env.mem.heap, all));
}

/// A known `Method` stands for its class and selector.
pub proof fn law_method_decodes(env: EnvState, c: Class, sel: SEL)
    requires
        env.sound(),
        env.objc.handle(c, sel) is Some,
    ensures
        env.handle_ptr(c, sel) != 0,
        env.decoded(env.handle_ptr(c, sel)) == Some((c, sel)),
{
    let ptr = env.handle_ptr(c, sel);
    lemma_handle_index(env.objc.method_handles, c, sel);
    let i = choose|i: int|
        0 <= i < env.objc.method_handles.len() && (#[trigger] env.objc.method_handles[i]) == (
        MethodHandle { class: c, sel, ptr });
    let o = Owner::Method { index: i };
    assert(env.block(o) is Some);
    assert(in_use(env.mem, env.block(o).unwrap()) && env.intact(o));
    assert(env.objc.method_handles[i].ptr == ptr);
}

/// Different classes or selectors have different `Method`s.
pub proof fn law_methods_differ(env: EnvState, c: Class, sel: SEL, d: Class, other: SEL)
    requires
        env.sound(),
        env.objc.handle(c, sel) is Some,
        env.objc.handle(d, other) is Some || env.mem.room() >= 16,
        c != d || sel != other,
    ensures
        env.handle_ptr(d, other) != env.handle_ptr(c, sel),
{
    let handles = env.objc.method_handles;
    lemma_handle_index(handles, c, sel);
    lemma_handle_index(handles, d, other);
    let i = choose|i: int|
        0 <= i < handles.len() && (#[trigger] handles[i]) == (MethodHandle {
            class: c,
            sel,
            ptr: env.handle_ptr(c, sel),
        });
    let a = Owner::Method { index: i };
    assert(env.block(a) is Some);
    assert(in_use(env.mem, env.block(a).unwrap()));
    if env.objc.handle(d, other) is Some {
        let j = choose|j: int|
            0 <= j < handles.len() && (#[trigger] handles[j]) == (MethodHandle {
                class: d,
                sel: other,
                ptr: env.handle_ptr(d, other),
            });
        let b = Owner::Method { index: j };
        assert(env.block(b) is Some);
        assert(a != b);
    }
}

// The app binary

/// A string has no NUL in it.
proof fn lemma_cstr_has_no_nul(m: MemState, p: u32)
    ensures
        has_no_nul(m.cstr(p)),
    decreases mem::bytes_to_end(p),
{
    if m.peek(p) != 0 {
        let rest = m.cstr(mem::wrap(p + 1));
        lemma_cstr_has_no_nul(m, mem::wrap(p + 1));
        assert forall|i: int| 0 <= i < m.cstr(p).len() implies #[trigger] m.cstr(p)[i] != 0 by {
            if i > 0 {
                assert(m.cstr(p)[i] == rest[i - 1]);
            }
        }
    }
}

proof fn lemma_digits_have_no_nul(n: nat)
    ensures
        has_no_nul(text::digits(n, 16, false)),
    decreases n,
{
    if n >= 16 {
        lemma_digits_have_no_nul(n / 16);
    }
}

proof fn lemma_bin_name(m: MemState, class: Class)
    ensures
        has_no_nul(binary::bin_name(m, class)),
{
    lemma_cstr_has_no_nul(m, binary::word(m, binary::class_data(m, class), 16));
    reveal_strlit("_touchHLE_UnreadableClass_");
    let chars = "_touchHLE_UnreadableClass_"@;
    let prefix = classes::name_of(chars);
    assert(is_ascii_chars(chars));
    is_ascii_chars_encode_utf8(chars);
    assert forall|i: int| 0 <= i < prefix.len() implies #[trigger] prefix[i] != 0 by {
        assert(chars[i] as u8 == prefix[i]);
    }
    lemma_digits_have_no_nul(class as nat);
}

/// The name under which a class of the binary is registered.
pub open spec fn registered_name(m: MemState, bundle_identifier: Seq<u8>, class: Class) -> Seq<u8> {
    match binary::substitution(bundle_identifier, m, class, m.peek_u32(class)) {
        Some(name) => name,
        None => binary::bin_name(m, class),
    }
}

/// Whether a class of the binary and its metaclass lie apart from each other, from
/// all blocks and from what these are about, and no class has the name yet.
pub open spec fn is_new_class(env: EnvState, bundle_identifier: Seq<u8>, class: Class) -> bool {
    let metaclass = env.mem.peek_u32(class);
    &&& class != metaclass
    &&& env.spares(class, 4)
    &&& !in_free(env.mem, metaclass)
    &&& !relies_on(env, class)
    &&& !relies_on(env, metaclass)
    &&& names::find(
        env.objc.classes,
        registered_name(env.mem, bundle_identifier, class),
    ) is None
}

/// A class of the app binary can be registered.
pub proof fn law_sound_bin_class(env: EnvState, bundle_identifier: Seq<u8>, class: Class)
    requires
        env.sound(),
        is_new_class(env, bundle_identifier, class),
    ensures
        (EnvState {
            objc: binary::with_bin_class(env.objc, env.mem, bundle_identifier, class),
            ..env
        }).sound(),
{
    let o = binary::with_bin_class(env.objc, env.mem, bundle_identifier, class);
    let e = EnvState { objc: o, ..env };
    let metaclass = env.mem.peek_u32(class);
    let name = registered_name(env.mem, bundle_identifier, class);
    let own = Owner::Class { class };
    let n = env.objc.classes.len() as int;
    lemma_bin_name(env.mem, class);
    lemma_cstr_has_no_nul(
        env.mem,
        binary::word(env.mem, binary::class_data(env.mem, class), 16),
    );
    assert(o.classes == env.objc.classes.push((name, class)));
    assert(env.objc.classes =~= o.classes.subrange(0, n));
    assert(o.classes[n].1 == class);
    assert(is_known(o.classes, class));
    assert(o.class_name(class) == Some(name));
    assert(o.class_name(metaclass) == Some(name));
    assert forall|c: Class| c != class && c != metaclass implies #[trigger] o.class_name(c)
        == env.objc.class_name(c) by {}
    assert forall|w: Owner| w != own implies (#[trigger] e.block(w)) == env.block(w) by {
        match w {
            Owner::ClassName { class: d } => {
                if env.objc.class_names.contains_key(d) {
                    assert(relies_on(env, d));
                }
            },
            Owner::Class { class: d } => {
                if is_known(env.objc.classes, d) {
                    let i = choose|i: int|
                        0 <= i < env.objc.classes.len() && (#[trigger] env.objc.classes[i]).1 == d;
                    assert(o.classes[i].1 == d);
                }
                if is_known(o.classes, d) {
                    let i = choose|i: int|
                        0 <= i < o.classes.len() && (#[trigger] o.classes[i]).1 == d;
                    assert(env.objc.classes[i].1 == d);
                }
            },
            _ => {},
        }
    }
    assert(env.block(own) is None);
    assert forall|i: int| 0 <= i < o.classes.len() && (#[trigger] o.classes[i]).1
        == class implies i == n by {
        if i < n {
            assert(env.objc.classes[i].1 == class);
            assert(is_known(env.objc.classes, class));
        }
    }
    assert(e.intact(own));
    lemma_kept(env, e);
}

/// The layouts of classes can be reconciled.
pub proof fn law_sound_reconciled(env: EnvState)
    requires
        env.sound(),
    ensures
        (EnvState { objc: env.objc.reconciled(), ..env }).sound(),
{
    let o = env.objc;
    let r = o.reconciled();
    assert(r.objects.dom() =~= o.objects.dom());
    assert forall|c: Class| #[trigger] r.class_name(c) == o.class_name(c) by {
        if o.objects.contains_key(c) && exists|n: nat| o.rooted(c, n) {
            let n = choose|n: nat| o.rooted(c, n);
            assert(o.layout(c, n).name == o.class(c).unwrap().name);
        }
    }
    law_sound_tables(env, r);
}

/// Methods of categories can be added.
pub proof fn law_sound_category(env: EnvState, cat: u32)
    requires
        env.sound(),
    ensures
        (EnvState { objc: binary::with_category(env.objc, env.mem, cat), ..env }).sound(),
{
    let o = env.objc;
    let class = binary::word(env.mem, cat, 4);
    let o1 = binary::with_category_methods(o, env.mem, class, binary::word(env.mem, cat, 8));
    lemma_category(o, env.mem, class, binary::word(env.mem, cat, 8));
    lemma_category(o1, env.mem, env.mem.peek_u32(class), binary::word(env.mem, cat, 12));
    law_sound_tables(env, binary::with_category(o, env.mem, cat));
}

proof fn lemma_category(o: ObjCState, m: MemState, class: Class, list: u32)
    ensures
        ({
            let r = binary::with_category_methods(o, m, class, list);
            &&& r.classes == o.classes
            &&& r.method_handles == o.method_handles
            &&& r.host_imp_tokens == o.host_imp_tokens
            &&& r.class_names == o.class_names
            &&& r.objects.dom() == o.objects.dom()
            &&& forall|c: Class| #[trigger] r.class_name(c) == o.class_name(c)
        }),
{
    let r = binary::with_category_methods(o, m, class, list);
    assert(r.objects.dom() =~= o.objects.dom());
}

} // verus!
