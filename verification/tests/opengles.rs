//! OpenGL ES.
use std::collections::HashMap;
use touchhle::frameworks::opengles::{get_thread_context, State};

#[test]
fn contexts_are_per_thread() {
    let mut state = State::default();
    assert!(!state.thread_has_current_ctx(0));
    state.set_current_ctx_for_thread(0, Some(0x5000));
    assert!(state.thread_has_current_ctx(0));
    assert!(!state.thread_has_current_ctx(1));
    assert_eq!(state.current_ctx_for_thread(0), Some(0x5000));
    state.set_current_ctx_for_thread(0, None);
    assert!(!state.thread_has_current_ctx(0));
}

#[test]
fn contexts_without_a_driver_are_ignored() {
    let mut state = State::default();
    let mut drivers = HashMap::new();
    drivers.insert(0x5000u32, 7u64);
    assert_eq!(get_thread_context(&state, &drivers, 0), None);
    state.set_current_ctx_for_thread(0, Some(0x6000));
    assert_eq!(get_thread_context(&state, &drivers, 0), None);
    state.set_current_ctx_for_thread(0, Some(0x5000));
    assert_eq!(get_thread_context(&state, &drivers, 0), Some(7));
    assert_eq!(get_thread_context(&state, &drivers, 1), None);
}

#[test]
fn viewports_are_remembered() {
    let mut state = State::default();
    assert_eq!(state.guest_viewport(0), None);
    state.set_guest_viewport(0, (0, -1, 320, 480));
    state.set_bound_framebuffer(0, 3);
    assert_eq!(state.guest_viewport(0), Some((0, -1, 320, 480)));
    assert_eq!(state.guest_viewport(1), None);
}

#[test]
fn textures_are_not_scaled() {
    let mut state = State::default();
    assert!(state.scale_hack_applies_to_viewport(0));
    state.set_bound_framebuffer(0, 3);
    assert!(state.scale_hack_applies_to_viewport(0));
    state.set_colour_attachment_is_texture(0, true);
    assert!(!state.scale_hack_applies_to_viewport(0));
    // Another thread that binds the same framebuffer.
    assert!(state.scale_hack_applies_to_viewport(1));
    state.set_bound_framebuffer(1, 3);
    assert!(!state.scale_hack_applies_to_viewport(1));
    // Another framebuffer.
    state.set_bound_framebuffer(0, 4);
    assert!(state.scale_hack_applies_to_viewport(0));
    state.set_bound_framebuffer(0, 3);
    state.set_colour_attachment_is_texture(0, false);
    assert!(state.scale_hack_applies_to_viewport(0));
    assert!(state.scale_hack_applies_to_viewport(1));
}

#[test]
fn the_window_is_always_scaled() {
    let mut state = State::default();
    state.set_colour_attachment_is_texture(0, true);
    assert!(state.scale_hack_applies_to_viewport(0));
    state.set_bound_framebuffer(0, 0);
    state.set_colour_attachment_is_texture(0, true);
    assert!(state.scale_hack_applies_to_viewport(0));
}

#[test]
fn strings_are_kept_by_version() {
    let mut state = State::default();
    state.cache_string(false, 0x1F02, 0x9000);
    assert_eq!(state.cached_string(false, 0x1F02), Some(0x9000));
    assert_eq!(state.cached_string(true, 0x1F02), None);
    state.cache_string(true, 0x1F02, 0x9100);
    assert_eq!(state.cached_string(false, 0x1F02), Some(0x9000));
    assert_eq!(state.cached_string(true, 0x1F02), Some(0x9100));
    assert_eq!(state.cached_string(true, 0x1F00), None);
}
