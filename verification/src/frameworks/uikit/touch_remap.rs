//! Whether and how the coordinates of a touch are changed for a game.
//!
//! This happens after the view of the touch was found: the touch can hit a view
//! in portrait, and the game can get the coordinates in landscape that it
//! expects. Settings are texts, each of which may be missing.
use crate::frameworks::uikit::touch_target;
use crate::objc::classes;
use crate::objc::classes::{id, nil};
use crate::objc::names::Name;
use vstd::prelude::*;

verus! {

/// Which of the settings that ask for landscape coordinates are there.
#[derive(Clone, Copy, PartialEq, Eq, Structural, Debug)]
pub struct RemapSettings {
    pub portrait_to_landscape: bool,
    pub cocos: bool,
    pub unity: bool,
    pub engine: bool,
}

/// A game that is known to want landscape coordinates.
pub open spec fn is_landscape_game(bundle_identifier: Seq<u8>) -> bool {
    ||| bundle_identifier == classes::name_of("at.source.veggie1"@)
    ||| bundle_identifier == classes::name_of("at.source.potato3D"@)
    ||| bundle_identifier == classes::name_of("at.source.potpan"@)
    ||| bundle_identifier == classes::name_of("com.robtop.geometryjump"@)
}

/// A game that is known to want portrait coordinates.
pub open spec fn is_portrait_game(bundle_identifier: Seq<u8>) -> bool {
    bundle_identifier == classes::name_of("at.source.tomzom"@)
}

/// Whether a game gets landscape coordinates. For a game that is not known the
/// settings decide.
pub open spec fn wants_landscape(bundle_identifier: Seq<u8>, settings: RemapSettings) -> bool {
    ||| is_landscape_game(bundle_identifier)
    ||| !is_portrait_game(bundle_identifier) && (settings.portrait_to_landscape || settings.cocos
        || settings.unity || settings.engine)
}

fn landscape_game(bundle_identifier: &[u8]) -> (r: bool)
    ensures
        r == is_landscape_game(bundle_identifier@),
{
    classes::name_is(bundle_identifier, "at.source.veggie1") || classes::name_is(
        bundle_identifier,
        "at.source.potato3D",
    ) || classes::name_is(bundle_identifier, "at.source.potpan") || classes::name_is(
        bundle_identifier,
        "com.robtop.geometryjump",
    )
}

/// Whether a game gets landscape coordinates.
pub fn touchhle_should_use_landscape_touch_remap(
    bundle_identifier: &[u8],
    settings: RemapSettings,
) -> (r: bool)
    ensures
        r == wants_landscape(bundle_identifier@, settings),
{
    landscape_game(bundle_identifier) || !classes::name_is(bundle_identifier, "at.source.tomzom")
        && (settings.portrait_to_landscape || settings.cocos || settings.unity || settings.engine)
}

/// Whether a game gets landscape coordinates for a view whose class has this
/// name.
pub fn should_remap_touch_location_for_view(
    bundle_identifier: &[u8],
    settings: RemapSettings,
    view: id,
    class_name: &[u8],
) -> (r: bool)
    ensures
        r == (wants_landscape(bundle_identifier@, settings) && view != nil
            && touch_target::is_game_view_name(class_name@)),
{
    touchhle_should_use_landscape_touch_remap(bundle_identifier, settings) && view != nil
        && touch_target::touchhle_cocos_is_gl_or_game_view_name(class_name)
}

/// The view by whose bounds the coordinates of a touch change when they are
/// asked for in `that_view`; none if they do not change.
pub fn remap_view(
    bundle_identifier: &[u8],
    settings: RemapSettings,
    that_view: id,
    view: id,
) -> (r: Option<id>)
    ensures
        r == (if wants_landscape(bundle_identifier@, settings) {
            Some(
                if that_view != nil {
                    that_view
                } else {
                    view
                },
            )
        } else {
            None
        }),
{
    if touchhle_should_use_landscape_touch_remap(bundle_identifier, settings) {
        if that_view != nil {
            Some(that_view)
        } else {
            Some(view)
        }
    } else {
        None
    }
}

/// A way to change coordinates.
#[derive(Clone, Copy, PartialEq, Eq, Structural, Debug)]
pub enum TouchMode {
    Identity,
    Right,
    RightFlipX,
    Left,
    LeftFlipX,
    FlipX,
    FlipY,
    /// To a screen of 1024 by 768.
    ScaleLarge,
    /// To the screen that the game expects.
    Scale,
}

/// The settings that name a way to change coordinates.
pub struct ModeSettings {
    pub touch: Option<Name>,
    pub cocos: Option<Name>,
    pub unity: Option<Name>,
    pub engine: Option<Name>,
}

/// The way that has this name.
pub open spec fn mode_named(name: Seq<u8>) -> TouchMode {
    if name == classes::name_of("identity"@) || name == classes::name_of("none"@) {
        TouchMode::Identity
    } else if name == classes::name_of("right"@) {
        TouchMode::Right
    } else if name == classes::name_of("right-flip-x"@) {
        TouchMode::RightFlipX
    } else if name == classes::name_of("left"@) {
        TouchMode::Left
    } else if name == classes::name_of("left-flip-x"@) {
        TouchMode::LeftFlipX
    } else if name == classes::name_of("flip-x"@) {
        TouchMode::FlipX
    } else if name == classes::name_of("flip-y"@) {
        TouchMode::FlipY
    } else if name == classes::name_of("scale-1024x768"@) {
        TouchMode::ScaleLarge
    } else {
        TouchMode::Scale
    }
}

/// The first of these texts that is there.
pub open spec fn first_of(a: Option<Name>, b: Option<Name>, c: Option<Name>) -> Option<Seq<u8>> {
    match (a, b, c) {
        (Some(a), _, _) => Some(a@),
        (None, Some(b), _) => Some(b@),
        (None, None, Some(c)) => Some(c@),
        (None, None, None) => None,
    }
}

/// The way to change coordinates for a game. One setting overrides all else; the
/// others are for games that are not known.
pub open spec fn mode_for(bundle_identifier: Seq<u8>, settings: ModeSettings) -> TouchMode {
    match settings.touch {
        Some(name) => mode_named(name@),
        None => if is_landscape_game(bundle_identifier) {
            TouchMode::Scale
        } else {
            match first_of(settings.cocos, settings.unity, settings.engine) {
                Some(name) => mode_named(name),
                None => TouchMode::Scale,
            }
        },
    }
}

fn named_mode(name: &[u8]) -> (mode: TouchMode)
    ensures
        mode == mode_named(name@),
{
    if classes::name_is(name, "identity") || classes::name_is(name, "none") {
        TouchMode::Identity
    } else if classes::name_is(name, "right") {
        TouchMode::Right
    } else if classes::name_is(name, "right-flip-x") {
        TouchMode::RightFlipX
    } else if classes::name_is(name, "left") {
        TouchMode::Left
    } else if classes::name_is(name, "left-flip-x") {
        TouchMode::LeftFlipX
    } else if classes::name_is(name, "flip-x") {
        TouchMode::FlipX
    } else if classes::name_is(name, "flip-y") {
        TouchMode::FlipY
    } else if classes::name_is(name, "scale-1024x768") {
        TouchMode::ScaleLarge
    } else {
        TouchMode::Scale
    }
}

/// The way to change coordinates for a game.
pub fn touch_mode(bundle_identifier: &[u8], settings: &ModeSettings) -> (mode: TouchMode)
    ensures
        mode == mode_for(bundle_identifier@, *settings),
{
    if let Some(name) = &settings.touch {
        return named_mode(name.as_slice());
    }
    if landscape_game(bundle_identifier) {
        return TouchMode::Scale;
    }
    if let Some(name) = &settings.cocos {
        return named_mode(name.as_slice());
    }
    if let Some(name) = &settings.unity {
        return named_mode(name.as_slice());
    }
    if let Some(name) = &settings.engine {
        return named_mode(name.as_slice());
    }
    TouchMode::Scale
}

/// Whether this separates the two numbers of a size.
pub open spec fn is_separator(c: u8) -> bool {
    c == 'x' as u8 || c == 'X' as u8 || c == ',' as u8
}

/// Where the first separator is, from `i` on; the length of the text if there is
/// none.
pub open spec fn separator_from(text: Seq<u8>, i: int) -> int
    decreases text.len() - i,
{
    if 0 <= i < text.len() && !is_separator(text[i]) {
        separator_from(text, i + 1)
    } else {
        i
    }
}

/// The texts of the width and the height in a text such as `480x320`; none if
/// nothing separates them.
pub open spec fn size_parts(text: Seq<u8>) -> Option<(Seq<u8>, Seq<u8>)> {
    let k = separator_from(text, 0);
    if k < text.len() {
        Some((text.take(k), text.subrange(k + 1, separator_from(text, k + 1))))
    } else {
        None
    }
}

proof fn lemma_separator_from(text: Seq<u8>, i: int)
    requires
        0 <= i <= text.len(),
    ensures
        i <= separator_from(text, i) <= text.len(),
    decreases text.len() - i,
{
    if i < text.len() && !is_separator(text[i]) {
        lemma_separator_from(text, i + 1);
    }
}

fn find_separator(text: &[u8], from: usize) -> (k: usize)
    requires
        from <= text@.len(),
    ensures
        k == separator_from(text@, from as int),
        from <= k <= text@.len(),
{
    let n: usize = text.len();
    let mut k: usize = from;
    while k < n && !(text[k] == 'x' as u8 || text[k] == 'X' as u8 || text[k] == ',' as u8)
        invariant
            from <= k <= n,
            n == text@.len(),
            separator_from(text@, from as int) == separator_from(text@, k as int),
        decreases n - k,
    {
        k += 1;
    }
    k
}

/// The texts of the width and the height that the settings give for the screen
/// that a game expects.
pub fn touchhle_cocos_target_size(
    cocos: &Option<Name>,
    unity: &Option<Name>,
    engine: &Option<Name>,
) -> (r: Option<(Name, Name)>)
    ensures
        match first_of(*cocos, *unity, *engine) {
            Some(text) => match size_parts(text) {
                Some((w, h)) => r matches Some(parts) && parts.0@ == w && parts.1@ == h,
                None => r is None,
            },
            None => r is None,
        },
{
    let text: &Name = match (cocos, unity, engine) {
        (Some(text), _, _) => text,
        (None, Some(text), _) => text,
        (None, None, Some(text)) => text,
        (None, None, None) => {
            return None;
        },
    };
    let text: &[u8] = text.as_slice();
    let k: usize = find_separator(text, 0);
    if k == text.len() {
        return None;
    }
    let end: usize = find_separator(text, k + 1);
    let w: Name = classes::copy_name(vstd::slice::slice_subrange(text, 0, k));
    let h: Name = classes::copy_name(vstd::slice::slice_subrange(text, k + 1, end));
    proof {
        assert(text@.subrange(0, k as int) =~= text@.take(k as int));
    }
    Some((w, h))
}

} // verus!
