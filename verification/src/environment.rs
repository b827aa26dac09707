//! Everything that the guest's code acts on.
use crate::frameworks::avfoundation::av_audio_player;
use crate::frameworks::avfoundation::av_audio_player::AudioState;
use crate::frameworks::opengles;
use crate::frameworks::opengles::GlState;
use crate::frameworks::uikit::ui_touch;
use crate::frameworks::uikit::ui_touch::TouchState;
use crate::guest_console::{Console, ConsoleState};
use crate::libc::errno;
use crate::mem::{Mem, MemState};
use crate::objc::classes::{ObjC, ObjCState};
use vstd::prelude::*;

pub mod layout;

verus! {

/// The number of one of the guest's threads.
pub type ThreadId = usize;

/// The state of the guest's C library.
pub struct LibcState {
    pub errno: errno::State,
    /// The address of the name of the `LC_CTYPE` locale.
    pub ctype_locale: u32,
}

/// The state of the guest's frameworks.
pub struct FrameworkState {
    pub ui_touch: ui_touch::State,
    pub opengles: opengles::State,
    pub av_audio_player: av_audio_player::State,
}

/// The emulated environment of the guest.
pub struct Environment {
    pub mem: Mem,
    pub objc: ObjC,
    pub libc_state: LibcState,
    pub framework_state: FrameworkState,
    pub console: Console,
    pub current_thread: ThreadId,
}

/// The model of an [Environment].
#[verifier::ext_equal]
pub struct EnvState {
    pub mem: MemState,
    pub objc: ObjCState,
    pub errno: errno::ErrnoState,
    pub ctype_locale: u32,
    pub ui_touch: TouchState,
    pub opengles: GlState,
    pub audio: AudioState,
    pub console: ConsoleState,
    pub current_thread: ThreadId,
}

impl View for Environment {
    type V = EnvState;

    open spec fn view(&self) -> EnvState {
        EnvState {
            mem: self.mem@,
            objc: self.objc@,
            errno: self.libc_state.errno@,
            ctype_locale: self.libc_state.ctype_locale,
            ui_touch: self.framework_state.ui_touch@,
            opengles: self.framework_state.opengles@,
            audio: self.framework_state.av_audio_player@,
            console: self.console@,
            current_thread: self.current_thread,
        }
    }
}

impl EnvState {
    pub open spec fn wf(self) -> bool {
        self.console.wf()
    }
}

} // verus!
