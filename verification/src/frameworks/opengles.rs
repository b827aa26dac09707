//! OpenGL ES and EAGL.
use crate::environment::ThreadId;
use crate::objc::classes::id;
use std::collections::{HashMap, HashSet};
use vstd::prelude::*;

verus! {

broadcast use vstd::std_specs::hash::group_hash_axioms;

pub type GLenum = u32;

pub type GLuint = u32;

pub type GLint = i32;

pub type GLsizei = i32;

/// The host's number of what draws for an `EAGLContext`.
pub type Driver = u64;

/// The lower left corner, the width and the height of a viewport.
pub type Viewport = (GLint, GLint, GLsizei, GLsizei);

/// The framebuffer objects whose colour attachment is a texture. That of the
/// window is never one of them.
pub struct TextureBacked {
    framebuffers: HashSet<GLuint>,
}

impl View for TextureBacked {
    type V = Set<GLuint>;

    closed spec fn view(&self) -> Set<GLuint> {
        self.framebuffers@
    }
}

impl TextureBacked {
    #[verifier::type_invariant]
    closed spec fn inv(self) -> bool {
        !self.framebuffers@.contains(0)
    }

    fn new() -> (t: TextureBacked)
        ensures
            t@ == Set::<GLuint>::empty(),
    {
        TextureBacked { framebuffers: HashSet::new() }
    }

    fn contains(&self, framebuffer: GLuint) -> (r: bool)
        ensures
            r == self@.contains(framebuffer),
            framebuffer == 0 ==> !r,
    {
        proof {
            use_type_invariant(self);
        }
        self.framebuffers.contains(&framebuffer)
    }

    fn set(&mut self, framebuffer: GLuint, is_texture: bool)
        requires
            framebuffer != 0,
        ensures
            final(self)@ == if is_texture {
                old(self)@.insert(framebuffer)
            } else {
                old(self)@.remove(framebuffer)
            },
    {
        proof {
            use_type_invariant(&*self);
        }
        let mut framebuffers: HashSet<GLuint> = HashSet::new();
        std::mem::swap(&mut framebuffers, &mut self.framebuffers);
        if is_texture {
            framebuffers.insert(framebuffer);
        } else {
            framebuffers.remove(&framebuffer);
        }
        self.framebuffers = framebuffers;
    }
}

/// What is known of the guest's use of OpenGL ES.
pub struct State {
    /// The current `EAGLContext` of each thread.
    current_ctxs: HashMap<ThreadId, Option<id>>,
    /// The addresses of the strings that `glGetString` has given for an
    /// OpenGL ES 1.1 context.
    es1_strings: HashMap<GLenum, u32>,
    /// Those for an OpenGL ES 2.0 context.
    es2_strings: HashMap<GLenum, u32>,
    /// The framebuffer object that the guest has bound, per thread.
    bound_framebuffers: HashMap<ThreadId, GLuint>,
    /// The framebuffer objects whose colour attachment is a texture.
    ///
    /// Renderbuffers are enlarged by the scale hack, so a viewport aimed at one
    /// is to be scaled. Textures are never enlarged, so a viewport aimed at a
    /// framebuffer with a texture must be left alone.
    texture_backed_framebuffers: TextureBacked,
    /// The last viewport that the guest asked for, in its own coordinates.
    ///
    /// The guest may set the viewport before it binds the framebuffer that it
    /// means it for, so whether to scale it is decided whenever the binding
    /// changes.
    guest_viewports: HashMap<ThreadId, Viewport>,
}

/// The model of a [State].
#[verifier::ext_equal]
pub struct GlState {
    pub contexts: Map<ThreadId, id>,
    pub es1_strings: Map<GLenum, u32>,
    pub es2_strings: Map<GLenum, u32>,
    pub framebuffers: Map<ThreadId, GLuint>,
    pub texture_backed: Set<GLuint>,
    pub viewports: Map<ThreadId, Viewport>,
}

/// The threads that have a context, with it.
pub closed spec fn present(m: Map<ThreadId, Option<id>>) -> Map<ThreadId, id> {
    Map::new(|t: ThreadId| m.contains_key(t) && m[t] is Some, |t: ThreadId| m[t]->0)
}

impl View for State {
    type V = GlState;

    closed spec fn view(&self) -> GlState {
        GlState {
            contexts: present(self.current_ctxs@),
            es1_strings: self.es1_strings@,
            es2_strings: self.es2_strings@,
            framebuffers: self.bound_framebuffers@,
            texture_backed: self.texture_backed_framebuffers@,
            viewports: self.guest_viewports@,
        }
    }
}

/// What a map holds for a key.
pub open spec fn lookup<K, V>(m: Map<K, V>, k: K) -> Option<V> {
    if m.contains_key(k) {
        Some(m[k])
    } else {
        None
    }
}

impl GlState {
    /// The framebuffer that a thread has bound: at first the one of the window.
    pub open spec fn framebuffer(self, thread: ThreadId) -> GLuint {
        match lookup(self.framebuffers, thread) {
            Some(framebuffer) => framebuffer,
            None => 0,
        }
    }

    /// Whether the viewport of a thread is to be scaled: always but where the
    /// bound framebuffer is known to have a texture.
    pub open spec fn scaled(self, thread: ThreadId) -> bool {
        !self.texture_backed.contains(self.framebuffer(thread))
    }

    /// With another current context of a thread.
    pub open spec fn with_context(self, thread: ThreadId, ctx: Option<id>) -> GlState {
        GlState {
            contexts: match ctx {
                Some(ctx) => self.contexts.insert(thread, ctx),
                None => self.contexts.remove(thread),
            },
            ..self
        }
    }

    /// With another framebuffer bound by a thread.
    pub open spec fn with_framebuffer(self, thread: ThreadId, framebuffer: GLuint) -> GlState {
        GlState { framebuffers: self.framebuffers.insert(thread, framebuffer), ..self }
    }

    /// With another colour attachment of the framebuffer that a thread has
    /// bound. That of the window is always scaled.
    pub open spec fn with_attachment(self, thread: ThreadId, is_texture: bool) -> GlState {
        let framebuffer = self.framebuffer(thread);
        if framebuffer == 0 {
            self
        } else if is_texture {
            GlState { texture_backed: self.texture_backed.insert(framebuffer), ..self }
        } else {
            GlState { texture_backed: self.texture_backed.remove(framebuffer), ..self }
        }
    }

    /// With another viewport of a thread.
    pub open spec fn with_viewport(self, thread: ThreadId, viewport: Viewport) -> GlState {
        GlState { viewports: self.viewports.insert(thread, viewport), ..self }
    }

    /// The address of a string that was given before, for the version of the
    /// interface.
    pub open spec fn string(self, is_es2: bool, name: GLenum) -> Option<u32> {
        if is_es2 {
            lookup(self.es2_strings, name)
        } else {
            lookup(self.es1_strings, name)
        }
    }

    /// With a string kept.
    pub open spec fn with_string(self, is_es2: bool, name: GLenum, address: u32) -> GlState {
        if is_es2 {
            GlState { es2_strings: self.es2_strings.insert(name, address), ..self }
        } else {
            GlState { es1_strings: self.es1_strings.insert(name, address), ..self }
        }
    }
}

impl Default for State {
    fn default() -> (state: State)
        ensures
            state@ == (GlState {
                contexts: Map::empty(),
                es1_strings: Map::empty(),
                es2_strings: Map::empty(),
                framebuffers: Map::empty(),
                texture_backed: Set::empty(),
                viewports: Map::empty(),
            }),
    {
        let state = State {
            current_ctxs: HashMap::new(),
            es1_strings: HashMap::new(),
            es2_strings: HashMap::new(),
            bound_framebuffers: HashMap::new(),
            texture_backed_framebuffers: TextureBacked::new(),
            guest_viewports: HashMap::new(),
        };
        proof {
            assert(state@.contexts =~= Map::empty());
        }
        state
    }
}

impl State {
    /// The current `EAGLContext` of a thread.
    pub fn current_ctx_for_thread(&self, thread: ThreadId) -> (ctx: Option<id>)
        ensures
            ctx == lookup(self@.contexts, thread),
    {
        match self.current_ctxs.get(&thread) {
            Some(ctx) => *ctx,
            None => None,
        }
    }

    /// Makes a context, or none, the current one of a thread.
    pub fn set_current_ctx_for_thread(&mut self, thread: ThreadId, ctx: Option<id>)
        ensures
            final(self)@ == old(self)@.with_context(thread, ctx),
    {
        self.current_ctxs.insert(thread, ctx);
        proof {
            assert(self@.contexts =~= old(self)@.with_context(thread, ctx).contexts);
        }
    }

    /// Whether this thread has a current `EAGLContext`, i.e. whether the guest
    /// has any GL context of its own that could present a frame.
    pub fn thread_has_current_ctx(&mut self, thread: ThreadId) -> (r: bool)
        ensures
            r == old(self)@.contexts.contains_key(thread),
            final(self)@ == old(self)@,
    {
        self.current_ctx_for_thread(thread).is_some()
    }

    /// The guest has bound a framebuffer.
    pub fn set_bound_framebuffer(&mut self, thread: ThreadId, framebuffer: GLuint)
        ensures
            final(self)@ == old(self)@.with_framebuffer(thread, framebuffer),
    {
        self.bound_framebuffers.insert(thread, framebuffer);
    }

    fn bound_framebuffer(&self, thread: ThreadId) -> (framebuffer: GLuint)
        ensures
            framebuffer == self@.framebuffer(thread),
    {
        match self.bound_framebuffers.get(&thread) {
            Some(framebuffer) => *framebuffer,
            None => 0,
        }
    }

    /// Keeps what kind of colour attachment the bound framebuffer was given, so
    /// that it is known whether the scale hack applies to it.
    pub fn set_colour_attachment_is_texture(&mut self, thread: ThreadId, is_texture: bool)
        ensures
            final(self)@ == old(self)@.with_attachment(thread, is_texture),
    {
        let framebuffer: GLuint = self.bound_framebuffer(thread);
        if framebuffer == 0 {
            return ;
        }
        self.texture_backed_framebuffers.set(framebuffer, is_texture);
    }

    /// The guest has asked for a viewport.
    pub fn set_guest_viewport(&mut self, thread: ThreadId, viewport: Viewport)
        ensures
            final(self)@ == old(self)@.with_viewport(thread, viewport),
    {
        self.guest_viewports.insert(thread, viewport);
    }

    /// The last viewport that the guest asked for.
    pub fn guest_viewport(&self, thread: ThreadId) -> (viewport: Option<Viewport>)
        ensures
            viewport == lookup(self@.viewports, thread),
    {
        match self.guest_viewports.get(&thread) {
            Some(viewport) => Some(*viewport),
            None => None,
        }
    }

    /// Whether the scale hack is to be applied to the viewport right now: yes,
    /// unless the bound framebuffer is known to have a texture. That of the
    /// window never has one.
    pub fn scale_hack_applies_to_viewport(&self, thread: ThreadId) -> (r: bool)
        ensures
            r == self@.scaled(thread),
            self@.framebuffer(thread) == 0 ==> r,
    {
        let framebuffer: GLuint = self.bound_framebuffer(thread);
        !self.texture_backed_framebuffers.contains(framebuffer)
    }

    /// The address of a string that `glGetString` has given before.
    pub fn cached_string(&self, is_es2: bool, name: GLenum) -> (address: Option<u32>)
        ensures
            address == self@.string(is_es2, name),
    {
        let found: Option<&u32> = if is_es2 {
            self.es2_strings.get(&name)
        } else {
            self.es1_strings.get(&name)
        };
        match found {
            Some(address) => Some(*address),
            None => None,
        }
    }

    /// Keeps the address of a string that `glGetString` gives.
    pub fn cache_string(&mut self, is_es2: bool, name: GLenum, address: u32)
        ensures
            final(self)@ == old(self)@.with_string(is_es2, name, address),
    {
        if is_es2 {
            self.es2_strings.insert(name, address);
        } else {
            self.es1_strings.insert(name, address);
        }
    }
}

/// What draws for the current context of a thread.
///
/// There is none where the thread has no current context, or where that context
/// was made without anything that draws. The guest's calls are then ignored.
pub fn get_thread_context(
    state: &State,
    drivers: &HashMap<id, Driver>,
    current_thread: ThreadId,
) -> (driver: Option<Driver>)
    ensures
        driver == match lookup(state@.contexts, current_thread) {
            Some(ctx) => lookup(drivers@, ctx),
            None => None,
        },
{
    match state.current_ctx_for_thread(current_thread) {
        Some(ctx) => match drivers.get(&ctx) {
            Some(driver) => Some(*driver),
            None => None,
        },
        None => None,
    }
}

/// A viewport that was asked for before a framebuffer is bound is still there
/// afterwards, and whether it is scaled is then up to that framebuffer.
pub proof fn law_viewport_before_binding(
    s: GlState,
    thread: ThreadId,
    viewport: Viewport,
    framebuffer: GLuint,
)
    ensures
        ({
            let t = s.with_viewport(thread, viewport).with_framebuffer(thread, framebuffer);
            &&& lookup(t.viewports, thread) == Some(viewport)
            &&& t.scaled(thread) == !s.texture_backed.contains(framebuffer)
        }),
{
}

/// Once a framebuffer other than that of the window is given a colour
/// attachment, viewports aimed at it are scaled if and only if the attachment
/// is no texture, whichever thread binds it.
pub proof fn law_attachment_decides_scaling(
    s: GlState,
    thread: ThreadId,
    other: ThreadId,
    framebuffer: GLuint,
    is_texture: bool,
)
    requires
        framebuffer != 0,
    ensures
        s.with_framebuffer(thread, framebuffer).with_attachment(thread, is_texture).with_framebuffer(
            other,
            framebuffer,
        ).scaled(other) == !is_texture,
{
}

/// A colour attachment of one framebuffer says nothing of another.
pub proof fn law_attachment_leaves_others(
    s: GlState,
    thread: ThreadId,
    other: ThreadId,
    is_texture: bool,
)
    requires
        s.framebuffer(other) != s.framebuffer(thread),
    ensures
        s.with_attachment(thread, is_texture).scaled(other) == s.scaled(other),
{
}

/// A string that is kept for one version of the interface is given for that
/// version, and never for the other.
pub proof fn law_strings_by_version(s: GlState, is_es2: bool, name: GLenum, address: u32)
    ensures
        s.with_string(is_es2, name, address).string(is_es2, name) == Some(address),
        s.with_string(is_es2, name, address).string(!is_es2, name) == s.string(!is_es2, name),
{
}

/// A context is the current one of the thread that it was set for, and of no
/// other.
pub proof fn law_context_of_thread(s: GlState, thread: ThreadId, other: ThreadId, ctx: Option<id>)
    requires
        other != thread,
    ensures
        lookup(s.with_context(thread, ctx).contexts, thread) == ctx,
        lookup(s.with_context(thread, ctx).contexts, other) == lookup(s.contexts, other),
{
}

} // verus!
