//! What holds of the guest's use of OpenGL ES over several calls.
use crate::environment::ThreadId;
use crate::frameworks::opengles;
use crate::frameworks::opengles::{GLenum, GLuint, GlState, Viewport};
use crate::objc::classes::id;
use vstd::prelude::*;

verus! {

/// Whether two states are the same for a thread, but for the current context, the bound
/// framebuffer or the viewport, where that is said.
pub open spec fn same_for(
    a: GlState,
    b: GlState,
    thread: ThreadId,
    but_context: bool,
    but_framebuffer: bool,
    but_viewport: bool,
) -> bool {
    &&& but_context || opengles::lookup(a.contexts, thread) == opengles::lookup(b.contexts, thread)
    &&& but_framebuffer || a.framebuffer(thread) == b.framebuffer(thread)
    &&& but_viewport || opengles::lookup(a.viewports, thread) == opengles::lookup(
        b.viewports,
        thread,
    )
}

/// The current context of a thread is the one that was made so last, or none, and that
/// concerns neither another thread nor another setting.
pub proof fn law_context_set(s: GlState, thread: ThreadId, ctx: Option<id>, other: ThreadId)
    ensures
        ({
            let r = s.with_context(thread, ctx);
            &&& opengles::lookup(r.contexts, thread) == ctx
            &&& same_for(s, r, other, other == thread, false, false)
            &&& r.texture_backed == s.texture_backed
            &&& r.es1_strings == s.es1_strings && r.es2_strings == s.es2_strings
        }),
{
}

/// The framebuffer that a thread has bound is the one that it bound last, at first that
/// of the window, and that concerns neither another thread nor another setting.
pub proof fn law_framebuffer_set(
    s: GlState,
    thread: ThreadId,
    framebuffer: GLuint,
    other: ThreadId,
)
    ensures
        ({
            let r = s.with_framebuffer(thread, framebuffer);
            &&& r.framebuffer(thread) == framebuffer
            &&& same_for(s, r, other, false, other == thread, false)
            &&& r.texture_backed == s.texture_backed
            &&& r.es1_strings == s.es1_strings && r.es2_strings == s.es2_strings
            &&& !s.framebuffers.contains_key(thread) ==> s.framebuffer(thread) == 0
        }),
{
}

/// The viewport of a thread is the one that it asked for last, in its own coordinates,
/// and that concerns neither another thread nor another setting.
pub proof fn law_viewport_set(s: GlState, thread: ThreadId, viewport: Viewport, other: ThreadId)
    ensures
        ({
            let r = s.with_viewport(thread, viewport);
            &&& opengles::lookup(r.viewports, thread) == Some(viewport)
            &&& same_for(s, r, other, false, false, other == thread)
            &&& r.scaled(other) == s.scaled(other)
            &&& r.texture_backed == s.texture_backed
            &&& r.es1_strings == s.es1_strings && r.es2_strings == s.es2_strings
        }),
{
}

/// A framebuffer that was given a texture is not scaled until it is given something
/// else, by whichever thread, and bound again or not. That of the window is as it was.
pub proof fn law_attachment_set(
    s: GlState,
    thread: ThreadId,
    framebuffer: GLuint,
    is_texture: bool,
    other: ThreadId,
    third: ThreadId,
)
    requires
        framebuffer != 0,
    ensures
        ({
            let r = s.with_framebuffer(thread, framebuffer).with_attachment(thread, is_texture);
            &&& r.scaled(thread) == !is_texture
            &&& r.with_framebuffer(other, framebuffer).scaled(other) == !is_texture
            &&& same_for(s, r, third, false, third == thread, false)
            &&& s.with_framebuffer(thread, 0).with_attachment(thread, is_texture)
                == s.with_framebuffer(thread, 0)
        }),
{
}

/// A string that was kept is given again for the same version and name, and no other.
pub proof fn law_string_kept(
    s: GlState,
    is_es2: bool,
    name: GLenum,
    address: u32,
    other_es2: bool,
    other: GLenum,
)
    ensures
        ({
            let r = s.with_string(is_es2, name, address);
            &&& r.string(is_es2, name) == Some(address)
            &&& other_es2 != is_es2 || other != name ==> r.string(other_es2, other) == s.string(
                other_es2,
                other,
            )
            &&& r.contexts == s.contexts && r.framebuffers == s.framebuffers
            &&& r.viewports == s.viewports && r.texture_backed == s.texture_backed
        }),
{
}

} // verus!
