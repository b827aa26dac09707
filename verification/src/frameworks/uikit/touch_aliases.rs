//! The messages by which games made with Cocos2D get touches.
//!
//! Once a view has got its touches in the usual way, it and the views around it
//! get them by these messages too, where they know them.
use crate::environment::{EnvState, Environment};
use crate::frameworks::uikit::touch_target;
use crate::objc::classes;
use crate::objc::classes::{id, nil, SEL};
use crate::objc::names::Name;
use crate::objc::runtime;
use crate::objc::search;
use vstd::prelude::*;

verus! {

/// What has happened to the touches.
#[derive(Clone, Copy, PartialEq, Eq, Structural, Debug)]
pub enum AliasPhase {
    Began,
    Moved,
    Ended,
    Cancelled,
}

/// How far up the views are asked.
pub const MAX_DEPTH: u32 = 32;

impl AliasPhase {
    /// The message that carries all touches.
    pub open spec fn all_name(self) -> Seq<char> {
        match self {
            AliasPhase::Began => "ccTouchesBegan:withEvent:"@,
            AliasPhase::Moved => "ccTouchesMoved:withEvent:"@,
            AliasPhase::Ended => "ccTouchesEnded:withEvent:"@,
            AliasPhase::Cancelled => "ccTouchesCancelled:withEvent:"@,
        }
    }

    /// The message that carries one touch.
    pub open spec fn one_name(self) -> Seq<char> {
        match self {
            AliasPhase::Began => "ccTouchBegan:withEvent:"@,
            AliasPhase::Moved => "ccTouchMoved:withEvent:"@,
            AliasPhase::Ended => "ccTouchEnded:withEvent:"@,
            AliasPhase::Cancelled => "ccTouchCancelled:withEvent:"@,
        }
    }

    fn all_selector_name(self) -> (name: &'static str)
        ensures
            name@ == self.all_name(),
    {
        match self {
            AliasPhase::Began => "ccTouchesBegan:withEvent:",
            AliasPhase::Moved => "ccTouchesMoved:withEvent:",
            AliasPhase::Ended => "ccTouchesEnded:withEvent:",
            AliasPhase::Cancelled => "ccTouchesCancelled:withEvent:",
        }
    }

    fn one_selector_name(self) -> (name: &'static str)
        ensures
            name@ == self.one_name(),
    {
        match self {
            AliasPhase::Began => "ccTouchBegan:withEvent:",
            AliasPhase::Moved => "ccTouchMoved:withEvent:",
            AliasPhase::Ended => "ccTouchEnded:withEvent:",
            AliasPhase::Cancelled => "ccTouchCancelled:withEvent:",
        }
    }
}

/// Which settings on these messages are there.
#[derive(Clone, Copy, PartialEq, Eq, Structural, Debug)]
pub struct AliasSettings {
    pub disable: bool,
    pub enable: bool,
}

/// Whether a view whose class has this name may know these messages.
pub open spec fn is_alias_view_name(class_name: Seq<u8>) -> bool {
    ||| touch_target::is_game_view_name(class_name)
    ||| classes::starts_with(class_name, "CC"@)
    ||| search::has_part(class_name, "Layer"@)
    ||| search::has_part(class_name, "Scene"@)
    ||| search::has_part(class_name, "Menu"@)
}

/// Whether such a view gets touches by these messages.
pub open spec fn aliases_enabled(settings: AliasSettings, class_name: Seq<u8>) -> bool {
    !settings.disable && (settings.enable || is_alias_view_name(class_name))
}

/// Whether a view whose class has this name gets touches by these messages.
pub fn touchhle_cocos_touch_aliases_enabled(settings: AliasSettings, class_name: &[u8]) -> (r: bool)
    ensures
        r == aliases_enabled(settings, class_name@),
{
    !settings.disable && (settings.enable || touch_target::touchhle_cocos_is_gl_or_game_view_name(
        class_name,
    ) || classes::has_prefix(class_name, "CC") || search::contains(class_name, "Layer")
        || search::contains(class_name, "Scene") || search::contains(class_name, "Menu"))
}

/// Something that the host has to do, or to ask.
#[derive(Clone, Copy, PartialEq, Eq, Structural, Debug)]
pub enum AliasAction {
    /// Reply: the name of the view's class.
    ClassName { view: id },
    /// Reply: whether the view knows the message.
    RespondsToSelector { view: id, sel: SEL },
    /// Send the message. The object is the set of touches or one touch.
    Send { view: id, sel: SEL, object: id, event: id },
    /// Reply: the first touch in the set, or nil.
    FirstTouch { touches: id },
    /// Reply: the view around this one, or nil.
    Superview { view: id },
    /// Nothing is left to do.
    Finish,
}

/// What the host replies.
pub enum AliasReply {
    Done,
    Flag { flag: bool },
    Object { object: id },
    Class { name: Name },
}

/// What is waited for.
#[derive(Clone, Copy, PartialEq, Eq, Structural, Debug)]
pub enum AliasStage {
    Class,
    AskAll { sel: SEL },
    SendAll,
    AskOne { sel: SEL },
    First { sel: SEL },
    SendOne,
    Up,
    Finished,
}

/// Touches on their way up the views.
#[derive(Clone, Copy, PartialEq, Eq, Structural, Debug)]
pub struct AliasChain {
    pub settings: AliasSettings,
    pub phase: AliasPhase,
    pub touches: id,
    pub event: id,
    /// The view that gets them now.
    pub view: id,
    /// How many views have got them before.
    pub depth: u32,
    pub stage: AliasStage,
}

/// What comes of a step.
#[verifier::ext_equal]
pub struct AliasStep {
    pub env: EnvState,
    pub chain: AliasChain,
    pub action: AliasAction,
}

impl AliasChain {
    pub open spec fn at(self, env: EnvState, stage: AliasStage, action: AliasAction) -> AliasStep {
        AliasStep { env, chain: AliasChain { stage, ..self }, action }
    }

    /// A view gets the touches, if it is one and not too far up.
    pub open spec fn entered(self, env: EnvState) -> AliasStep {
        if self.view == nil || self.depth >= MAX_DEPTH {
            self.at(env, AliasStage::Finished, AliasAction::Finish)
        } else if self.settings.disable {
            self.risen(env)
        } else if self.settings.enable {
            self.ask_all(env)
        } else {
            self.at(env, AliasStage::Class, AliasAction::ClassName { view: self.view })
        }
    }

    /// The view is asked for the message that carries all touches.
    pub open spec fn ask_all(self, env: EnvState) -> AliasStep {
        let name = classes::name_of(self.phase.all_name());
        let sel = env.selector(name);
        self.at(
            env.with_selector(name),
            AliasStage::AskAll { sel },
            AliasAction::RespondsToSelector { view: self.view, sel },
        )
    }

    /// The view is asked for the message that carries one touch.
    pub open spec fn ask_one(self, env: EnvState) -> AliasStep {
        let name = classes::name_of(self.phase.one_name());
        let sel = env.selector(name);
        self.at(
            env.with_selector(name),
            AliasStage::AskOne { sel },
            AliasAction::RespondsToSelector { view: self.view, sel },
        )
    }

    /// It is the turn of the view around this one.
    pub open spec fn risen(self, env: EnvState) -> AliasStep {
        self.at(env, AliasStage::Up, AliasAction::Superview { view: self.view })
    }

    /// The step after the host's reply; none if that is no reply to what it was
    /// asked.
    pub open spec fn step(self, env: EnvState, reply: AliasReply) -> Option<AliasStep> {
        match (self.stage, reply) {
            (AliasStage::Class, AliasReply::Class { name }) => Some(
                if is_alias_view_name(name@) {
                    self.ask_all(env)
                } else {
                    self.risen(env)
                },
            ),
            (AliasStage::AskAll { sel }, AliasReply::Flag { flag }) => Some(
                if flag {
                    self.at(
                        env,
                        AliasStage::SendAll,
                        AliasAction::Send {
                            view: self.view,
                            sel,
                            object: self.touches,
                            event: self.event,
                        },
                    )
                } else {
                    self.ask_one(env)
                },
            ),
            (AliasStage::SendAll, AliasReply::Done) => Some(self.ask_one(env)),
            (AliasStage::AskOne { sel }, AliasReply::Flag { flag }) => Some(
                if flag {
                    self.at(
                        env,
                        AliasStage::First { sel },
                        AliasAction::FirstTouch { touches: self.touches },
                    )
                } else {
                    self.risen(env)
                },
            ),
            (AliasStage::First { sel }, AliasReply::Object { object }) => Some(
                if object != nil {
                    self.at(
                        env,
                        AliasStage::SendOne,
                        AliasAction::Send { view: self.view, sel, object, event: self.event },
                    )
                } else {
                    self.risen(env)
                },
            ),
            (AliasStage::SendOne, AliasReply::Done) => Some(self.risen(env)),
            (AliasStage::Up, AliasReply::Object { object }) => Some(
                AliasChain { view: object, depth: (self.depth + 1) as u32, ..self }.entered(env),
            ),
            _ => None,
        }
    }

    pub open spec fn wf(self) -> bool {
        self.stage != AliasStage::Finished ==> self.depth < MAX_DEPTH
    }

    /// Whether the messages have selectors, or memory for their names is left.
    pub open spec fn has_room(self, env: EnvState) -> bool {
        &&& env.selector_ready(classes::name_of(self.phase.all_name()))
        &&& env.selector_ready(classes::name_of(self.phase.one_name()))
    }

    fn enter(&mut self, env: &mut Environment) -> (action: AliasAction)
        requires
            old(self).has_room(old(env)@),
        ensures
            final(self).wf(),
            old(self).entered(old(env)@) == (AliasStep {
                env: final(env)@,
                chain: *final(self),
                action,
            }),
    {
        if self.view == nil || self.depth >= MAX_DEPTH {
            self.stage = AliasStage::Finished;
            AliasAction::Finish
        } else if self.settings.disable {
            self.stage = AliasStage::Up;
            AliasAction::Superview { view: self.view }
        } else if self.settings.enable {
            self.begin_all(env)
        } else {
            self.stage = AliasStage::Class;
            AliasAction::ClassName { view: self.view }
        }
    }

    fn begin_all(&mut self, env: &mut Environment) -> (action: AliasAction)
        requires
            old(self).has_room(old(env)@),
        ensures
            old(self).ask_all(old(env)@) == (AliasStep {
                env: final(env)@,
                chain: *final(self),
                action,
            }),
    {
        let sel: SEL = runtime::register_host_selector(env, self.phase.all_selector_name());
        self.stage = AliasStage::AskAll { sel };
        AliasAction::RespondsToSelector { view: self.view, sel }
    }

    fn begin_one(&mut self, env: &mut Environment) -> (action: AliasAction)
        requires
            old(self).has_room(old(env)@),
        ensures
            old(self).ask_one(old(env)@) == (AliasStep {
                env: final(env)@,
                chain: *final(self),
                action,
            }),
    {
        let sel: SEL = runtime::register_host_selector(env, self.phase.one_selector_name());
        self.stage = AliasStage::AskOne { sel };
        AliasAction::RespondsToSelector { view: self.view, sel }
    }

    fn rise(&mut self) -> (action: AliasAction)
        ensures
            *final(self) == (AliasChain { stage: AliasStage::Up, ..*old(self) }),
            action == (AliasAction::Superview { view: old(self).view }),
    {
        self.stage = AliasStage::Up;
        AliasAction::Superview { view: self.view }
    }

    /// Goes on with the host's reply. Nothing happens if that is no reply to
    /// what it was asked.
    pub fn resume(&mut self, env: &mut Environment, reply: AliasReply) -> (r: Option<AliasAction>)
        requires
            old(self).wf(),
            old(self).has_room(old(env)@),
        ensures
            final(self).wf(),
            match old(self).step(old(env)@, reply) {
                Some(s) => {
                    &&& final(env)@ == s.env
                    &&& *final(self) == s.chain
                    &&& r == Some(s.action)
                },
                None => r is None && final(env)@ == old(env)@ && *final(self) == *old(self),
            },
    {
        match (self.stage, reply) {
            (AliasStage::Class, AliasReply::Class { name }) => {
                if touchhle_cocos_touch_aliases_enabled(
                    AliasSettings { disable: false, enable: false },
                    name.as_slice(),
                ) {
                    Some(self.begin_all(env))
                } else {
                    Some(self.rise())
                }
            },
            (AliasStage::AskAll { sel }, AliasReply::Flag { flag }) => {
                if flag {
                    self.stage = AliasStage::SendAll;
                    Some(
                        AliasAction::Send {
                            view: self.view,
                            sel,
                            object: self.touches,
                            event: self.event,
                        },
                    )
                } else {
                    Some(self.begin_one(env))
                }
            },
            (AliasStage::SendAll, AliasReply::Done) => Some(self.begin_one(env)),
            (AliasStage::AskOne { sel }, AliasReply::Flag { flag }) => {
                if flag {
                    self.stage = AliasStage::First { sel };
                    Some(AliasAction::FirstTouch { touches: self.touches })
                } else {
                    Some(self.rise())
                }
            },
            (AliasStage::First { sel }, AliasReply::Object { object }) => {
                if object != nil {
                    self.stage = AliasStage::SendOne;
                    Some(AliasAction::Send { view: self.view, sel, object, event: self.event })
                } else {
                    Some(self.rise())
                }
            },
            (AliasStage::SendOne, AliasReply::Done) => Some(self.rise()),
            (AliasStage::Up, AliasReply::Object { object }) => {
                self.view = object;
                self.depth += 1;
                Some(self.enter(env))
            },
            _ => None,
        }
    }
}

/// Sends touches up the views by these messages, starting with `view`.
pub fn touchhle_send_cocos_touch_aliases_to_chain(
    env: &mut Environment,
    settings: AliasSettings,
    view: id,
    phase: AliasPhase,
    touches: id,
    event: id,
) -> (r: (AliasChain, AliasAction))
    requires
        old(env)@.selector_ready(classes::name_of(phase.all_name())),
        old(env)@.selector_ready(classes::name_of(phase.one_name())),
    ensures
        r.0.wf(),
        (AliasStep { env: final(env)@, chain: r.0, action: r.1 }) == (AliasChain {
            settings,
            phase,
            touches,
            event,
            view,
            depth: 0,
            stage: AliasStage::Finished,
        }).entered(old(env)@),
{
    let mut chain = AliasChain {
        settings,
        phase,
        touches,
        event,
        view,
        depth: 0,
        stage: AliasStage::Finished,
    };
    let action: AliasAction = chain.enter(env);
    (chain, action)
}

/// A message is only sent to a view that has just said that it knows it.
pub proof fn law_sent_only_where_known(
    chain: AliasChain,
    env: EnvState,
    reply: AliasReply,
    view: id,
    sel: SEL,
    object: id,
    event: id,
)
    requires
        chain.step(env, reply) matches Some(s) && s.action == (AliasAction::Send {
            view,
            sel,
            object,
            event,
        }),
    ensures
        view == chain.view,
        chain.stage == (AliasStage::AskAll { sel }) && reply == (AliasReply::Flag { flag: true })
            || chain.stage == (AliasStage::First { sel }) && reply == (AliasReply::Object { object }),
{
}

/// The first touch is only looked for once the view has said that it knows the
/// message that carries one touch.
pub proof fn law_first_touch_only_where_known(
    chain: AliasChain,
    env: EnvState,
    reply: AliasReply,
    sel: SEL,
)
    requires
        chain.step(env, reply) matches Some(s) && s.chain.stage == (AliasStage::First { sel }),
    ensures
        chain.stage == (AliasStage::AskOne { sel }) && reply == (AliasReply::Flag { flag: true }),
{
}

} // verus!
