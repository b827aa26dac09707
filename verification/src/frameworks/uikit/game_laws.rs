//! What holds of the help that games get with touches.
use crate::environment::EnvState;
use crate::frameworks::uikit::pending_callback;
use crate::frameworks::uikit::pending_callback::{Drain, Pending};
use crate::frameworks::uikit::touch_aliases;
use crate::frameworks::uikit::touch_aliases::{
    AliasAction, AliasChain, AliasPhase, AliasReply, AliasSettings, AliasStage,
};
use crate::frameworks::uikit::touch_remap;
use crate::frameworks::uikit::touch_remap::{ModeSettings, RemapSettings, TouchMode};
use crate::frameworks::uikit::touch_target;
use crate::objc::classes;
use crate::objc::classes::{id, nil, SEL};
use crate::objc::names::Name;
use crate::objc::search;
use vstd::prelude::*;
use vstd::utf8::*;

verus! {

// Names of views

/// A name that has one of the words in it for which a view counts as one that a game
/// draws into has it still with more in front of it and behind it.
pub proof fn law_game_view_words(before: Seq<u8>, word: Seq<char>, after: Seq<u8>)
    requires
        word == "EAGL"@ || word == "GLView"@ || word == "Cocos"@ || word == "CCGL"@ || word
            == "Unity"@ || word == "RenderView"@ || word == "GameView"@ || word == "RootView"@,
    ensures
        touch_target::is_game_view_name(before + classes::name_of(word) + after),
{
    lemma_has_part(before, word, after);
}

proof fn lemma_has_part(before: Seq<u8>, word: Seq<char>, after: Seq<u8>)
    ensures
        search::has_part(before + classes::name_of(word) + after, word),
{
    let w = classes::name_of(word);
    let name = before + w + after;
    let k = before.len() as int;
    assert(name.subrange(k, k + w.len()) =~= w);
    assert(search::occurs_at(name, w, k));
}

/// These names count too, and no name counts but for one of them or one of the words.
pub proof fn law_game_view_names(name: Seq<u8>)
    ensures
        name == classes::name_of("GLKView"@) || name == classes::name_of("Cocos2dView"@) || name
            == classes::name_of("DirectorView"@) || name == classes::name_of("CCUIViewWrapper"@)
            || name == classes::name_of("CCGLView"@) || name == classes::name_of("EAGLView"@)
            || name == classes::name_of("CCEAGLView"@) || name == classes::name_of(
            "Cocos2dxGLView"@,
        ) || search::has_part(name, "EAGL"@) || search::has_part(name, "GLView"@)
            || search::has_part(name, "Cocos"@) || search::has_part(name, "CCGL"@)
            || search::has_part(name, "Unity"@) || search::has_part(name, "RenderView"@)
            || search::has_part(name, "GameView"@) || search::has_part(name, "RootView"@)
            <==> touch_target::is_game_view_name(name),
{
}

/// Views that a game draws into, and those with one of these words in the name of their
/// class, get touches by the messages of games, unless that is switched off; where it is
/// switched on, all views do.
pub proof fn law_alias_view_words(
    settings: AliasSettings,
    name: Seq<u8>,
    before: Seq<u8>,
    word: Seq<char>,
    after: Seq<u8>,
)
    requires
        word == "Layer"@ || word == "Scene"@ || word == "Menu"@,
    ensures
        settings.disable ==> !touch_aliases::aliases_enabled(settings, name),
        !settings.disable && settings.enable ==> touch_aliases::aliases_enabled(settings, name),
        !settings.disable && touch_target::is_game_view_name(name)
            ==> touch_aliases::aliases_enabled(settings, name),
        !settings.disable ==> touch_aliases::aliases_enabled(
            settings,
            before + classes::name_of(word) + after,
        ),
        !settings.disable ==> touch_aliases::aliases_enabled(
            settings,
            classes::name_of("CC"@) + after,
        ),
{
    lemma_has_part(before, word, after);
    let cc = classes::name_of("CC"@);
    assert((cc + after).subrange(0, cc.len() as int) =~= cc);
}

// Landscape coordinates

/// A game that is known for it gets landscape coordinates, and one that is known for the
/// contrary does not, whatever the settings are. Any other gets them exactly where at
/// least one of the settings asks for them.
pub proof fn law_landscape(bundle: Seq<u8>, s: RemapSettings)
    ensures
        touch_remap::is_landscape_game(bundle) || touch_remap::is_portrait_game(bundle)
            ==> touch_remap::wants_landscape(bundle, s) == touch_remap::is_landscape_game(bundle),
        !touch_remap::is_landscape_game(bundle) && !touch_remap::is_portrait_game(bundle)
            ==> touch_remap::wants_landscape(bundle, s) == (s != (RemapSettings {
            portrait_to_landscape: false,
            cocos: false,
            unity: false,
            engine: false,
        })),
{
}

/// The games that are known.
pub proof fn law_known_games(bundle: Seq<u8>, s: RemapSettings)
    ensures
        bundle == classes::name_of("at.source.veggie1"@) || bundle == classes::name_of(
            "at.source.potato3D"@,
        ) || bundle == classes::name_of("at.source.potpan"@) || bundle == classes::name_of(
            "com.robtop.geometryjump"@,
        ) ==> touch_remap::wants_landscape(bundle, s),
        touch_remap::is_landscape_game(bundle) ==> bundle == classes::name_of(
            "at.source.veggie1"@,
        ) || bundle == classes::name_of("at.source.potato3D"@) || bundle == classes::name_of(
            "at.source.potpan"@,
        ) || bundle == classes::name_of("com.robtop.geometryjump"@),
        touch_remap::is_portrait_game(bundle) <==> bundle == classes::name_of("at.source.tomzom"@),
{
}

/// The setting for touches decides alone, whatever the game and the other settings.
pub proof fn law_touch_setting_decides(
    bundle: Seq<u8>,
    other_bundle: Seq<u8>,
    settings: ModeSettings,
    other: ModeSettings,
)
    requires
        settings.touch is Some,
        other.touch is Some,
        settings.touch.unwrap()@ == other.touch.unwrap()@,
    ensures
        touch_remap::mode_for(bundle, settings) == touch_remap::mode_for(other_bundle, other),
{
}

/// Without it, a game that is known for landscape coordinates is scaled to, and for any
/// other the first of the remaining settings decides, as the setting for touches would.
pub proof fn law_other_settings_decide(bundle: Seq<u8>, settings: ModeSettings, name: Name)
    requires
        settings.touch is None,
    ensures
        ({
            let as_touch = ModeSettings { touch: Some(name), ..settings };
            let mode = touch_remap::mode_for(bundle, settings);
            let known = touch_remap::is_landscape_game(bundle);
            &&& known ==> mode == TouchMode::Scale
            &&& !known && settings.cocos == Some(name) ==> mode == touch_remap::mode_for(
                bundle,
                as_touch,
            )
            &&& !known && settings.cocos is None && settings.unity == Some(name) ==> mode
                == touch_remap::mode_for(bundle, as_touch)
            &&& !known && settings.cocos is None && settings.unity is None && settings.engine
                == Some(name) ==> mode == touch_remap::mode_for(bundle, as_touch)
            &&& !known && settings.cocos is None && settings.unity is None && settings.engine is None
                ==> mode == TouchMode::Scale
        }),
{
}

/// Each way to change coordinates has its name, and any other name stands for scaling
/// to the screen that the game expects.
pub proof fn law_mode_names(name: Seq<u8>)
    ensures
        ({
            let mode = touch_remap::mode_named(name);
            &&& mode == TouchMode::Identity <==> name == classes::name_of("identity"@) || name
                == classes::name_of("none"@)
            &&& mode == TouchMode::Right <==> name == classes::name_of("right"@)
            &&& mode == TouchMode::RightFlipX <==> name == classes::name_of("right-flip-x"@)
            &&& mode == TouchMode::Left <==> name == classes::name_of("left"@)
            &&& mode == TouchMode::LeftFlipX <==> name == classes::name_of("left-flip-x"@)
            &&& mode == TouchMode::FlipX <==> name == classes::name_of("flip-x"@)
            &&& mode == TouchMode::FlipY <==> name == classes::name_of("flip-y"@)
            &&& mode == TouchMode::ScaleLarge <==> name == classes::name_of("scale-1024x768"@)
        }),
{
    reveal_strlit("identity");
    reveal_strlit("none");
    reveal_strlit("right");
    reveal_strlit("right-flip-x");
    reveal_strlit("left");
    reveal_strlit("left-flip-x");
    reveal_strlit("flip-x");
    reveal_strlit("flip-y");
    reveal_strlit("scale-1024x768");
    is_ascii_chars_encode_utf8("identity"@);
    is_ascii_chars_encode_utf8("none"@);
    is_ascii_chars_encode_utf8("right"@);
    is_ascii_chars_encode_utf8("right-flip-x"@);
    is_ascii_chars_encode_utf8("left"@);
    is_ascii_chars_encode_utf8("left-flip-x"@);
    is_ascii_chars_encode_utf8("flip-x"@);
    is_ascii_chars_encode_utf8("flip-y"@);
    is_ascii_chars_encode_utf8("scale-1024x768"@);
    assert(classes::name_of("none"@)[0] == "none"@[0] as u8);
    assert(classes::name_of("left"@)[0] == "left"@[0] as u8);
    assert(classes::name_of("flip-x"@)[5] == "flip-x"@[5] as u8);
    assert(classes::name_of("flip-y"@)[5] == "flip-y"@[5] as u8);
}

/// A size is written as a width and a height with an `x` or a comma between them; what
/// follows another of these is ignored. Without one it is no size.
pub proof fn law_size_text(w: Seq<u8>, by: u8, h: Seq<u8>, rest: Seq<u8>)
    requires
        by == 'x' as u8 || by == 'X' as u8 || by == ',' as u8,
        forall|i: int|
            0 <= i < w.len() ==> w[i] != 'x' as u8 && w[i] != 'X' as u8 && #[trigger] w[i]
                != ',' as u8,
        forall|i: int|
            0 <= i < h.len() ==> h[i] != 'x' as u8 && h[i] != 'X' as u8 && #[trigger] h[i]
                != ',' as u8,
    ensures
        touch_remap::size_parts(w.push(by) + h) == Some((w, h)),
        touch_remap::size_parts(w.push(by) + h.push(by) + rest) == Some((w, h)),
        touch_remap::size_parts(w) is None,
{
    let t = w.push(by) + h;
    let k = w.len() as int;
    lemma_separator(t, 0, k);
    lemma_separator(t, k + 1, t.len() as int);
    assert(t.take(k) =~= w);
    assert(t.subrange(k + 1, t.len() as int) =~= h);
    let u = w.push(by) + h.push(by) + rest;
    let e = k + 1 + h.len();
    assert(u[k] == by);
    assert(u[e] == by);
    assert forall|i: int| 0 <= i < k implies !touch_remap::is_separator(#[trigger] u[i]) by {
        assert(u[i] == w[i]);
    }
    assert forall|i: int| k + 1 <= i < e implies !touch_remap::is_separator(#[trigger] u[i]) by {
        assert(u[i] == h[i - k - 1]);
    }
    lemma_separator(u, 0, k);
    lemma_separator(u, k + 1, e);
    assert(u.take(k) =~= w);
    assert(u.subrange(k + 1, e) =~= h);
    lemma_separator(w, 0, w.len() as int);
}

proof fn lemma_separator(text: Seq<u8>, from: int, k: int)
    requires
        0 <= from <= k <= text.len(),
        forall|i: int| from <= i < k ==> !touch_remap::is_separator(#[trigger] text[i]),
        k < text.len() ==> touch_remap::is_separator(text[k]),
    ensures
        touch_remap::separator_from(text, from) == k,
    decreases k - from,
{
    if from < k {
        lemma_separator(text, from + 1, k);
    }
}

// Pending callbacks

/// A text with one more character is a number where the text is one, the character is a
/// decimal digit and the number fits into a word: ten times the number and the digit.
pub proof fn law_number_goes_on(text: Seq<u8>, c: u8)
    requires
        text.len() > 0,
        text != seq!['+' as u8],
    ensures
        pending_callback::number(text.push(c)) == (match pending_callback::number(text) {
            Some(v) => if 0x30 <= c <= 0x39 && 10 * v + (c - 0x30) <= u32::MAX {
                Some((10 * v + (c - 0x30)) as u32)
            } else {
                None
            },
            None => None,
        }),
{
    let plus = text[0] == '+' as u8;
    if plus {
        assert(text.push(c).skip(1) =~= text.skip(1).push(c));
        if text.len() == 1 {
            assert(text =~= seq!['+' as u8]);
        }
        lemma_goes_on(text.skip(1), c);
    } else {
        lemma_goes_on(text, c);
    }
}

proof fn lemma_goes_on(digits: Seq<u8>, c: u8)
    requires
        digits.len() > 0,
    ensures
        pending_callback::digits_number(digits.push(c)) == (match pending_callback::digits_number(
            digits,
        ) {
            Some(v) => if 0x30 <= c <= 0x39 && 10 * v + (c - 0x30) <= u32::MAX {
                Some((10 * v + (c - 0x30)) as u32)
            } else {
                None
            },
            None => None,
        }),
{
    let all = digits.push(c);
    assert(all.drop_last() =~= digits);
    assert(all[digits.len() as int] == c);
    if forall|i: int| 0 <= i < all.len() ==> pending_callback::is_digit(#[trigger] all[i]) {
        assert forall|i: int| 0 <= i < digits.len() implies pending_callback::is_digit(
            #[trigger] digits[i],
        ) by {
            assert(pending_callback::is_digit(all[i]));
        }
    } else if forall|i: int| 0 <= i < digits.len() ==> pending_callback::is_digit(
        #[trigger] digits[i],
    ) {
        let i = choose|i: int|
            0 <= i < all.len() && !pending_callback::is_digit(#[trigger] all[i]);
        if i < digits.len() {
            assert(pending_callback::is_digit(digits[i]));
        }
    }
    if forall|i: int| 0 <= i < digits.len() ==> pending_callback::is_digit(#[trigger] digits[i]) {
        lemma_not_negative(digits);
    }
}

proof fn lemma_not_negative(digits: Seq<u8>)
    requires
        forall|i: int| 0 <= i < digits.len() ==> pending_callback::is_digit(#[trigger] digits[i]),
    ensures
        pending_callback::decimal(digits) >= 0,
    decreases digits.len(),
{
    if digits.len() > 0 {
        assert forall|i: int| 0 <= i < digits.len() - 1 implies pending_callback::is_digit(
            #[trigger] digits.drop_last()[i],
        ) by {
            assert(pending_callback::is_digit(digits[i]));
        }
        lemma_not_negative(digits.drop_last());
        assert(pending_callback::is_digit(digits[digits.len() - 1]));
    }
}

/// A single character is a number where it is a digit; a plus sign in front of a number
/// changes nothing, and no text is no number.
pub proof fn law_number_starts(c: u8, text: Seq<u8>)
    requires
        text.len() > 0,
        text[0] != '+' as u8,
    ensures
        pending_callback::number(seq![c]) == (if 0x30 <= c <= 0x39 {
            Some((c - 0x30) as u32)
        } else {
            None
        }),
        pending_callback::number(seq!['+' as u8] + text) == pending_callback::number(text),
        pending_callback::number(seq![]) is None,
{
    let one = seq![c];
    assert(one.drop_last() =~= seq![]);
    reveal_with_fuel(pending_callback::decimal, 2);
    assert(one.skip(1) =~= seq![]);
    if pending_callback::is_digit(c) {
        assert forall|i: int| 0 <= i < one.len() implies pending_callback::is_digit(
            #[trigger] one[i],
        ) by {
            assert(one[i] == c);
        }
    } else {
        assert(!pending_callback::is_digit(one[0]));
    }
    assert((seq!['+' as u8] + text).skip(1) =~= text);
}

/// A callback that a game left pending is called with the target and the selector that
/// its texts give, in the pass that it belongs to. It gets the sender exactly where its
/// name ends in a colon, and nil where no sender is given.
pub proof fn law_pending_called(
    bundle: Seq<u8>,
    pending: Pending,
    target: id,
    sel: SEL,
    name: Seq<u8>,
)
    requires
        bundle == classes::name_of("com.apprisetec9.minionjump"@) || bundle == classes::name_of(
            "com.risinghighapps.kingdomprincepro"@,
        ),
        pending.target matches Some(t) && pending_callback::number(t@) == Some(target),
        pending.sel matches Some(t) && pending_callback::number(t@) == Some(sel),
        pending.callback matches Some(t) && t@ == name,
        name.len() > 0,
    ensures
        ({
            let selects = name == classes::name_of("selectLVAction:"@);
            let r = pending_callback::drained(bundle, pending, selects);
            &&& pending_callback::drained(bundle, pending, !selects) == Drain::Keep
            &&& target == 0 || sel == 0 ==> r == Drain::Forget
            &&& target != 0 && sel != 0 ==> r is Call && ({
                let sender = match pending.sender {
                    Some(t) => match pending_callback::number(t@) {
                        Some(v) => v,
                        None => 0,
                    },
                    None => 0,
                };
                &&& r->Call_target == target
                &&& r->Call_sel == sel
                &&& name.last() == ':' as u8 ==> r->Call_sender == Some(sender)
                &&& name.last() != ':' as u8 ==> r->Call_sender is None
            })
        }),
{
    reveal_strlit(":");
    is_ascii_chars_encode_utf8(":"@);
    let colon = classes::name_of(":"@);
    assert(":"@[0] as u8 == colon[0]);
    let k = name.len() - 1;
    assert(name.subrange(k, k + 1)[0] == name[k]);
    if name.last() == ':' as u8 {
        assert(name.subrange(k, k + 1) =~= colon);
    } else {
        assert(name.subrange(k, k + 1) != colon);
    }
}

/// Where the game is none of these, or the target or the selector is no number, nothing
/// happens.
pub proof fn law_pending_kept(bundle: Seq<u8>, pending: Pending, select_only: bool)
    requires
        (bundle != classes::name_of("com.apprisetec9.minionjump"@) && bundle != classes::name_of(
            "com.risinghighapps.kingdomprincepro"@,
        )) || pending.target is None || pending.sel is None
            || pending_callback::number(pending.target.unwrap()@) is None
            || pending_callback::number(pending.sel.unwrap()@) is None,
    ensures
        pending_callback::drained(bundle, pending, select_only) == Drain::Keep,
{
}

// The messages of games

/// The word for what happened to touches.
pub open spec fn word(phase: AliasPhase) -> Seq<char> {
    match phase {
        AliasPhase::Began => "Began"@,
        AliasPhase::Moved => "Moved"@,
        AliasPhase::Ended => "Ended"@,
        AliasPhase::Cancelled => "Cancelled"@,
    }
}

/// The messages say what happened, and to how many touches.
pub proof fn law_alias_names(phase: AliasPhase)
    ensures
        phase.all_name() == "ccTouches"@ + word(phase) + ":withEvent:"@,
        phase.one_name() == "ccTouch"@ + word(phase) + ":withEvent:"@,
{
    reveal_strlit("ccTouches");
    reveal_strlit("ccTouch");
    reveal_strlit(":withEvent:");
    reveal_strlit("Began");
    reveal_strlit("Moved");
    reveal_strlit("Ended");
    reveal_strlit("Cancelled");
    reveal_strlit("ccTouchesBegan:withEvent:");
    reveal_strlit("ccTouchesMoved:withEvent:");
    reveal_strlit("ccTouchesEnded:withEvent:");
    reveal_strlit("ccTouchesCancelled:withEvent:");
    reveal_strlit("ccTouchBegan:withEvent:");
    reveal_strlit("ccTouchMoved:withEvent:");
    reveal_strlit("ccTouchEnded:withEvent:");
    reveal_strlit("ccTouchCancelled:withEvent:");
    assert(phase.all_name() =~= "ccTouches"@ + word(phase) + ":withEvent:"@);
    assert(phase.one_name() =~= "ccTouch"@ + word(phase) + ":withEvent:"@);
}

/// A view is asked for the message that carries all touches, gets it if it knows it, and
/// in either case is asked for the one that carries one touch next.
pub proof fn law_alias_all(chain: AliasChain, env: EnvState, sel: SEL, flag: bool)
    requires
        chain.stage == (AliasStage::AskAll { sel }),
    ensures
        ({
            let one = env.selector(
                classes::name_of("ccTouch"@ + word(chain.phase) + ":withEvent:"@),
            );
            let asked = AliasAction::RespondsToSelector { view: chain.view, sel: one };
            let sent = AliasChain { stage: AliasStage::SendAll, ..chain };
            &&& chain.step(env, AliasReply::Flag { flag: true }) matches Some(s) && s.env == env
                && s.chain == sent && s.action == (AliasAction::Send {
                view: chain.view,
                sel,
                object: chain.touches,
                event: chain.event,
            })
            &&& chain.step(env, AliasReply::Flag { flag: false }) matches Some(s) && s.action
                == asked && s.chain == (AliasChain { stage: AliasStage::AskOne { sel: one }, ..chain })
            &&& sent.step(env, AliasReply::Done) matches Some(s) && s.action == asked && s.chain
                == (AliasChain { stage: AliasStage::AskOne { sel: one }, ..chain })
        }),
{
    law_alias_names(chain.phase);
}

/// A view that knows the message that carries one touch gets the first touch of the set,
/// if there is one. Afterwards, and where it does not know it, it is the turn of the
/// view around it.
pub proof fn law_alias_one(chain: AliasChain, env: EnvState, sel: SEL, touch: id)
    requires
        chain.stage == (AliasStage::AskOne { sel }),
        touch != nil,
    ensures
        ({
            let first = AliasChain { stage: AliasStage::First { sel }, ..chain };
            let sent = AliasChain { stage: AliasStage::SendOne, ..chain };
            let up = AliasChain { stage: AliasStage::Up, ..chain };
            let around = AliasAction::Superview { view: chain.view };
            &&& chain.step(env, AliasReply::Flag { flag: true }) matches Some(s) && s.env == env
                && s.chain == first && s.action == (AliasAction::FirstTouch {
                touches: chain.touches,
            })
            &&& chain.step(env, AliasReply::Flag { flag: false }) matches Some(s) && s.env == env
                && s.chain == up && s.action == around
            &&& first.step(env, AliasReply::Object { object: touch }) matches Some(s) && s.env
                == env && s.chain == sent && s.action == (AliasAction::Send {
                view: chain.view,
                sel,
                object: touch,
                event: chain.event,
            })
            &&& first.step(env, AliasReply::Object { object: nil }) matches Some(s) && s.env == env
                && s.chain == up && s.action == around
            &&& sent.step(env, AliasReply::Done) matches Some(s) && s.env == env && s.chain == up
                && s.action == around
        }),
{
}

/// The view around a view is treated as the view was, with what the settings say: all
/// are asked, none is, or those whose class has a name of the right kind. It ends at the
/// outermost view, or after thirty-two of them.
pub proof fn law_alias_up(chain: AliasChain, env: EnvState, view: id, name: Name)
    requires
        chain.stage == AliasStage::Up,
        chain.depth < u32::MAX,
    ensures
        ({
            let all = env.selector(
                classes::name_of("ccTouches"@ + word(chain.phase) + ":withEvent:"@),
            );
            let next = AliasChain { view, depth: (chain.depth + 1) as u32, ..chain };
            let class = AliasChain { stage: AliasStage::Class, ..next };
            let asked = AliasAction::RespondsToSelector { view, sel: all };
            &&& chain.step(env, AliasReply::Object { object: view }) matches Some(s) && {
                &&& view == nil || chain.depth + 1 >= 32 ==> s.action == AliasAction::Finish
                    && s.env == env
                &&& view != nil && chain.depth + 1 < 32 && chain.settings.disable ==> s.env == env
                    && s.action == (AliasAction::Superview { view }) && s.chain == next
                &&& view != nil && chain.depth + 1 < 32 && !chain.settings.disable
                    && chain.settings.enable ==> s.action == asked && s.chain == (AliasChain {
                    stage: AliasStage::AskAll { sel: all },
                    ..next
                })
                &&& view != nil && chain.depth + 1 < 32 && !chain.settings.disable
                    && !chain.settings.enable ==> s.env == env && s.action
                    == (AliasAction::ClassName { view }) && s.chain == class
            }
            &&& class.step(env, AliasReply::Class { name }) matches Some(s) && {
                &&& touch_aliases::aliases_enabled(
                    AliasSettings { disable: false, enable: false },
                    name@,
                ) ==> s.action == asked && s.chain == (AliasChain {
                    stage: AliasStage::AskAll { sel: all },
                    ..next
                })
                &&& !touch_aliases::aliases_enabled(
                    AliasSettings { disable: false, enable: false },
                    name@,
                ) ==> s.env == env && s.action == (AliasAction::Superview { view }) && s.chain
                    == next
            }
        }),
{
    law_alias_names(chain.phase);
}

} // verus!
