//! Which view gets a touch, and in what form.
//!
//! Many games draw everything into one OpenGL view, whose class has one of a
//! few kinds of names. Such a view gets the touches that no other view wants.
use crate::objc::classes;
use crate::objc::classes::{id, nil};
use crate::objc::names::Name;
use crate::objc::search;
use vstd::prelude::*;

verus! {

/// Whether a class of this name is a view that a game draws into.
pub open spec fn is_game_view_name(name: Seq<u8>) -> bool {
    ||| name == classes::name_of("CCGLView"@)
    ||| name == classes::name_of("EAGLView"@)
    ||| name == classes::name_of("CCEAGLView"@)
    ||| name == classes::name_of("GLKView"@)
    ||| name == classes::name_of("Cocos2dxGLView"@)
    ||| name == classes::name_of("Cocos2dView"@)
    ||| name == classes::name_of("DirectorView"@)
    ||| name == classes::name_of("CCUIViewWrapper"@)
    ||| search::has_part(name, "EAGL"@)
    ||| search::has_part(name, "GLView"@)
    ||| search::has_part(name, "Cocos"@)
    ||| search::has_part(name, "CCGL"@)
    ||| search::has_part(name, "Unity"@)
    ||| search::has_part(name, "RenderView"@)
    ||| search::has_part(name, "GameView"@)
    ||| search::has_part(name, "RootView"@)
}

/// Whether a class of this name is a view that a game draws into.
pub fn touchhle_cocos_is_gl_or_game_view_name(class_name: &[u8]) -> (b: bool)
    ensures
        b == is_game_view_name(class_name@),
{
    classes::name_is(class_name, "CCGLView") || classes::name_is(class_name, "EAGLView")
        || classes::name_is(class_name, "CCEAGLView") || classes::name_is(class_name, "GLKView")
        || classes::name_is(class_name, "Cocos2dxGLView") || classes::name_is(
        class_name,
        "Cocos2dView",
    ) || classes::name_is(class_name, "DirectorView") || classes::name_is(
        class_name,
        "CCUIViewWrapper",
    ) || search::contains(class_name, "EAGL") || search::contains(class_name, "GLView")
        || search::contains(class_name, "Cocos") || search::contains(class_name, "CCGL")
        || search::contains(class_name, "Unity") || search::contains(class_name, "RenderView")
        || search::contains(class_name, "GameView") || search::contains(class_name, "RootView")
}

/// A view, the name of its class, and the views in it, the frontmost last.
pub struct ViewTree {
    pub view: id,
    pub class_name: Name,
    pub subviews: Vec<ViewTree>,
}

/// The view in this tree that gets touches which no other view wants: a game's
/// view. Views in front come first, and those inside a view before it. Nil if
/// there is none.
pub open spec fn target(t: ViewTree) -> id
    decreases t, 0nat,
{
    let inside = target_among(t.subviews@, t.subviews@.len());
    if t.view == nil {
        nil
    } else if inside != nil {
        inside
    } else if is_game_view_name(t.class_name@) {
        t.view
    } else {
        nil
    }
}

/// The target in the last of the first `n` trees that has one.
pub open spec fn target_among(trees: Seq<ViewTree>, n: nat) -> id
    decreases trees, n,
{
    if 0 < n <= trees.len() {
        let found = target(trees[n - 1]);
        if found != nil {
            found
        } else {
            target_among(trees, (n - 1) as nat)
        }
    } else {
        nil
    }
}

/// The game's view in this tree, or nil.
pub fn touchhle_find_cocos_touch_target(root: &ViewTree) -> (view: id)
    ensures
        view == target(*root),
    decreases *root,
{
    if root.view == nil {
        return nil;
    }
    let mut n: usize = root.subviews.len();
    while n > 0
        invariant
            n <= root.subviews@.len(),
            root.view != nil,
            target_among(root.subviews@, n as nat) == target_among(
                root.subviews@,
                root.subviews@.len(),
            ),
        decreases n,
    {
        let found: id = touchhle_find_cocos_touch_target(&root.subviews[n - 1]);
        if found != nil {
            return found;
        }
        n -= 1;
    }
    if touchhle_cocos_is_gl_or_game_view_name(root.class_name.as_slice()) {
        root.view
    } else {
        nil
    }
}

} // verus!
