//! The function that fills the buffers of an `AVAudioPlayer`.
use crate::environment::{EnvState, Environment};
use crate::frameworks::avfoundation::av_audio_player::{
    AVAudioPlayerHostObject, AudioFileID, AudioQueueRef,
};
use crate::objc::classes;
use crate::objc::classes::{id, nil, Class, SEL};
use crate::objc::names;
use vstd::prelude::*;

verus! {

/// Something that the host has to do, or to ask.
#[derive(Clone, Copy, PartialEq, Eq, Structural, Debug)]
pub enum OutputAction {
    /// Reply: the class of the object, or nil.
    ClassOf { object: id },
    /// Read so many packets of the file, from this one on, into the buffer.
    /// Reply: how much was read.
    ReadPackets { file: AudioFileID, packet: i64, count: u32, buffer: u32 },
    /// Set the number of bytes in the buffer, and enqueue it.
    Enqueue { queue: AudioQueueRef, buffer: u32, num_bytes: u32 },
    /// Stop the queue once it has played everything.
    StopQueue { queue: AudioQueueRef },
    /// Reply: whether the object knows the message.
    RespondsToSelector { object: id, sel: SEL },
    /// Tell the delegate that the player has finished successfully.
    DidFinishPlaying { delegate: id, player: id },
    /// Nothing is left to do.
    Finish,
}

/// What the host replies.
#[derive(Clone, Copy, PartialEq, Eq, Structural, Debug)]
pub enum OutputReply {
    Done,
    Object { object: id },
    Packets { num_packets: u32, num_bytes: u32 },
    Flag { flag: bool },
}

/// What is waited for.
#[derive(Clone, Copy, PartialEq, Eq, Structural, Debug)]
pub enum OutputStage {
    Class,
    Read { packet: i64 },
    Enqueue { packet: i64, num_packets: u32 },
    Stop,
    Responds { delegate: id },
    Notify,
    Finished,
}

/// A buffer that is being filled. The player may be gone by now.
#[derive(Clone, Copy, PartialEq, Eq, Structural, Debug)]
pub struct OutputBuffer {
    pub player: id,
    pub queue: AudioQueueRef,
    pub buffer: u32,
    pub stage: OutputStage,
}

/// What comes of a step.
#[verifier::ext_equal]
pub struct OutputStep {
    pub env: EnvState,
    pub output: OutputBuffer,
    pub action: OutputAction,
}

/// The name of the class of players.
pub open spec fn player_class_name() -> Seq<u8> {
    classes::name_of("AVAudioPlayer"@)
}

/// The name of the message that tells a delegate that a player has finished.
pub open spec fn did_finish_name() -> Seq<u8> {
    classes::name_of("audioPlayerDidFinishPlaying:successfully:"@)
}

impl EnvState {
    pub open spec fn with_player(self, this: id, p: AVAudioPlayerHostObject) -> EnvState {
        EnvState { audio: self.audio.with_player(this, p), ..self }
    }

    /// The environment in which the class of players is linked.
    pub open spec fn with_player_class(self) -> EnvState {
        let r = self.objc.linked(self.mem, player_class_name());
        EnvState { objc: r.objc, mem: r.mem, ..self }
    }

    /// The class of players.
    pub open spec fn player_class(self) -> Class {
        let r = self.objc.linked(self.mem, player_class_name());
        classes::lookup_or_nil(r.objc, r.mem, player_class_name(), false)
    }
}

impl OutputBuffer {
    pub open spec fn at(
        self,
        env: EnvState,
        stage: OutputStage,
        action: OutputAction,
    ) -> OutputStep {
        OutputStep { env, output: OutputBuffer { stage, ..self }, action }
    }

    pub open spec fn finish(self, env: EnvState) -> OutputStep {
        self.at(env, OutputStage::Finished, OutputAction::Finish)
    }

    /// The first step. A queue that is left behind by a player has none.
    pub open spec fn start(self, env: EnvState) -> OutputStep {
        if self.player == nil {
            self.finish(env)
        } else {
            self.at(env, OutputStage::Class, OutputAction::ClassOf { object: self.player })
        }
    }

    /// The class of the object is known. If it is no player any more, the call
    /// is ignored.
    pub open spec fn class_known(self, env: EnvState, class: Class) -> OutputStep {
        if class == nil {
            self.finish(env)
        } else {
            let e = env.with_player_class();
            if e.objc.is_subclass(class, env.player_class()) {
                self.read(e)
            } else {
                self.finish(e)
            }
        }
    }

    /// Reads packets, if the player plays with this queue.
    pub open spec fn read(self, env: EnvState) -> OutputStep {
        let p = env.audio.player(self.player);
        match p.audio_file_id {
            Some(file) => if p.audio_queue == Some(self.queue) && p.is_playing {
                self.at(
                    env,
                    OutputStage::Read { packet: p.current_packet },
                    OutputAction::ReadPackets {
                        file,
                        packet: p.current_packet,
                        count: p.num_packets_to_read,
                        buffer: self.buffer,
                    },
                )
            } else {
                self.finish(env)
            },
            None => self.finish(env),
        }
    }

    /// Packets were read.
    pub open spec fn packets_read(
        self,
        env: EnvState,
        packet: i64,
        num_packets: u32,
        num_bytes: u32,
    ) -> OutputStep {
        if num_packets > 0 {
            self.at(
                env,
                OutputStage::Enqueue { packet, num_packets },
                OutputAction::Enqueue { queue: self.queue, buffer: self.buffer, num_bytes },
            )
        } else {
            self.ended(env)
        }
    }

    /// Nothing is left to read. It starts over if there are loops left.
    pub open spec fn ended(self, env: EnvState) -> OutputStep {
        let p = env.audio.player(self.player);
        if p.num_of_loops == 0 {
            self.at(env, OutputStage::Stop, OutputAction::StopQueue { queue: self.queue })
        } else {
            let e = env.with_player(
                self.player,
                AVAudioPlayerHostObject {
                    num_of_loops: if p.num_of_loops > 0 {
                        (p.num_of_loops - 1) as i32
                    } else {
                        p.num_of_loops
                    },
                    current_packet: 0,
                    ..p
                },
            );
            if p.num_packets_to_read > 0 {
                self.start(e)
            } else {
                self.finish(e)
            }
        }
    }

    /// The buffer is enqueued.
    pub open spec fn enqueued(self, env: EnvState, packet: i64, num_packets: u32) -> OutputStep {
        self.finish(
            env.with_player(
                self.player,
                AVAudioPlayerHostObject {
                    current_packet: packet.wrapping_add(num_packets as i64),
                    ..env.audio.player(self.player)
                },
            ),
        )
    }

    /// The queue is stopped. The delegate is told, if it knows the message.
    pub open spec fn stopped(self, env: EnvState) -> OutputStep {
        let p = env.audio.player(self.player);
        let e = env.with_player(
            self.player,
            AVAudioPlayerHostObject { is_playing: false, ..p },
        );
        match names::find(e.objc.selectors, did_finish_name()) {
            Some(sel) => if p.delegate != nil {
                self.at(
                    e,
                    OutputStage::Responds { delegate: p.delegate },
                    OutputAction::RespondsToSelector { object: p.delegate, sel },
                )
            } else {
                self.finish(e)
            },
            None => self.finish(e),
        }
    }

    /// The step after the host's reply; none if that is no reply to what it was
    /// asked.
    pub open spec fn step(self, env: EnvState, reply: OutputReply) -> Option<OutputStep> {
        match (self.stage, reply) {
            (OutputStage::Class, OutputReply::Object { object }) => Some(
                self.class_known(env, object),
            ),
            (OutputStage::Read { packet }, OutputReply::Packets { num_packets, num_bytes }) => Some(
                self.packets_read(env, packet, num_packets, num_bytes),
            ),
            (OutputStage::Enqueue { packet, num_packets }, OutputReply::Done) => Some(
                self.enqueued(env, packet, num_packets),
            ),
            (OutputStage::Stop, OutputReply::Done) => Some(self.stopped(env)),
            (OutputStage::Responds { delegate }, OutputReply::Flag { flag }) => Some(
                if flag {
                    self.at(
                        env,
                        OutputStage::Notify,
                        OutputAction::DidFinishPlaying { delegate, player: self.player },
                    )
                } else {
                    self.finish(env)
                },
            ),
            (OutputStage::Notify, OutputReply::Done) => Some(self.finish(env)),
            _ => None,
        }
    }

    /// Whether it can go on with this reply: where it has to compare classes,
    /// the class of players is there or can be linked, and going up from the
    /// other class comes to an end.
    pub open spec fn ready(self, env: EnvState, reply: OutputReply) -> bool {
        match (self.stage, reply) {
            (OutputStage::Class, OutputReply::Object { object }) => object != nil ==> {
                &&& env.objc.is_implemented(player_class_name())
                &&& env.objc.link_ready(env.mem, player_class_name())
                &&& object == env.player_class() || env.with_player_class().objc.search_ends(
                    object,
                    env.player_class(),
                )
            },
            _ => true,
        }
    }

    fn start_output(&mut self) -> (action: OutputAction)
        ensures
            forall|env: EnvState|
                #[trigger] old(self).start(env) == (OutputStep {
                    env,
                    output: *final(self),
                    action,
                }),
    {
        if self.player == nil {
            self.stage = OutputStage::Finished;
            OutputAction::Finish
        } else {
            self.stage = OutputStage::Class;
            OutputAction::ClassOf { object: self.player }
        }
    }

    fn read_output(&mut self, env: &Environment) -> (action: OutputAction)
        ensures
            old(self).read(env@) == (OutputStep { env: env@, output: *final(self), action }),
    {
        let p: AVAudioPlayerHostObject = env.framework_state.av_audio_player.player(self.player);
        let same_queue: bool = match p.audio_queue {
            Some(queue) => queue == self.queue,
            None => false,
        };
        match p.audio_file_id {
            Some(file) => {
                if same_queue && p.is_playing {
                    self.stage = OutputStage::Read { packet: p.current_packet };
                    return OutputAction::ReadPackets {
                        file,
                        packet: p.current_packet,
                        count: p.num_packets_to_read,
                        buffer: self.buffer,
                    };
                }
            },
            None => {},
        }
        self.stage = OutputStage::Finished;
        OutputAction::Finish
    }

    fn end_output(&mut self, env: &mut Environment) -> (action: OutputAction)
        ensures
            old(self).ended(old(env)@) == (OutputStep {
                env: final(env)@,
                output: *final(self),
                action,
            }),
    {
        let p: AVAudioPlayerHostObject = env.framework_state.av_audio_player.player(self.player);
        if p.num_of_loops == 0 {
            self.stage = OutputStage::Stop;
            return OutputAction::StopQueue { queue: self.queue };
        }
        let num_of_loops: i32 = if p.num_of_loops > 0 {
            p.num_of_loops - 1
        } else {
            p.num_of_loops
        };
        env.framework_state.av_audio_player.set_player(
            self.player,
            AVAudioPlayerHostObject { num_of_loops, current_packet: 0, ..p },
        );
        if p.num_packets_to_read > 0 {
            self.start_output()
        } else {
            self.stage = OutputStage::Finished;
            OutputAction::Finish
        }
    }

    fn stop_output(&mut self, env: &mut Environment) -> (action: OutputAction)
        ensures
            old(self).stopped(old(env)@) == (OutputStep {
                env: final(env)@,
                output: *final(self),
                action,
            }),
    {
        let p: AVAudioPlayerHostObject = env.framework_state.av_audio_player.player(self.player);
        env.framework_state.av_audio_player.set_player(
            self.player,
            AVAudioPlayerHostObject { is_playing: false, ..p },
        );
        if p.delegate != nil {
            let name: &[u8] = "audioPlayerDidFinishPlaying:successfully:".as_bytes();
            if let Some(sel) = env.objc.lookup_selector(name) {
                self.stage = OutputStage::Responds { delegate: p.delegate };
                return OutputAction::RespondsToSelector { object: p.delegate, sel };
            }
        }
        self.stage = OutputStage::Finished;
        OutputAction::Finish
    }

    /// Goes on with the host's reply. Nothing happens if that is no reply to
    /// what it was asked.
    pub fn resume(&mut self, env: &mut Environment, reply: OutputReply) -> (r: Option<OutputAction>)
        requires
            old(self).ready(old(env)@, reply),
        ensures
            match old(self).step(old(env)@, reply) {
                Some(s) => {
                    &&& final(env)@ == s.env
                    &&& *final(self) == s.output
                    &&& r == Some(s.action)
                },
                None => r is None && final(env)@ == old(env)@ && *final(self) == *old(self),
            },
    {
        match (self.stage, reply) {
            (OutputStage::Class, OutputReply::Object { object }) => {
                if object != nil {
                    let expected: Class = env.objc.get_known_class("AVAudioPlayer", &mut env.mem);
                    if env.objc.class_is_subclass_of(object, expected) {
                        return Some(self.read_output(env));
                    }
                }
                self.stage = OutputStage::Finished;
                Some(OutputAction::Finish)
            },
            (OutputStage::Read { packet }, OutputReply::Packets { num_packets, num_bytes }) => {
                if num_packets > 0 {
                    self.stage = OutputStage::Enqueue { packet, num_packets };
                    Some(
                        OutputAction::Enqueue { queue: self.queue, buffer: self.buffer, num_bytes },
                    )
                } else {
                    Some(self.end_output(env))
                }
            },
            (OutputStage::Enqueue { packet, num_packets }, OutputReply::Done) => {
                let p: AVAudioPlayerHostObject = env.framework_state.av_audio_player.player(
                    self.player,
                );
                env.framework_state.av_audio_player.set_player(
                    self.player,
                    AVAudioPlayerHostObject {
                        current_packet: packet.wrapping_add(num_packets as i64),
                        ..p
                    },
                );
                self.stage = OutputStage::Finished;
                Some(OutputAction::Finish)
            },
            (OutputStage::Stop, OutputReply::Done) => Some(self.stop_output(env)),
            (OutputStage::Responds { delegate }, OutputReply::Flag { flag }) => {
                if flag {
                    self.stage = OutputStage::Notify;
                    Some(OutputAction::DidFinishPlaying { delegate, player: self.player })
                } else {
                    self.stage = OutputStage::Finished;
                    Some(OutputAction::Finish)
                }
            },
            (OutputStage::Notify, OutputReply::Done) => {
                self.stage = OutputStage::Finished;
                Some(OutputAction::Finish)
            },
            _ => None,
        }
    }
}

/// Fills a buffer. The queue calls this once it has played the buffer.
pub fn _touchHLE_AVAudioPlayerOutputBufferHelper(
    env: &Environment,
    in_user_data: u32,
    in_aq: AudioQueueRef,
    in_buf: u32,
) -> (r: (OutputBuffer, OutputAction))
    ensures
        (OutputStep { env: env@, output: r.0, action: r.1 }) == (OutputBuffer {
            player: in_user_data,
            queue: in_aq,
            buffer: in_buf,
            stage: OutputStage::Finished,
        }).start(env@),
{
    let mut output = OutputBuffer {
        player: in_user_data,
        queue: in_aq,
        buffer: in_buf,
        stage: OutputStage::Finished,
    };
    let action: OutputAction = output.start_output();
    (output, action)
}

/// Nothing is read for a player that does not play, or that plays with another
/// queue.
pub proof fn law_reads_only_while_playing(
    output: OutputBuffer,
    env: EnvState,
    reply: OutputReply,
    file: AudioFileID,
    packet: i64,
    count: u32,
    buffer: u32,
)
    requires
        output.step(env, reply) matches Some(s) && s.action == (OutputAction::ReadPackets {
            file,
            packet,
            count,
            buffer,
        }),
    ensures
        ({
            let p = output.step(env, reply)->0.env.audio.player(output.player);
            &&& p.is_playing
            &&& p.audio_queue == Some(output.queue)
            &&& p.audio_file_id == Some(file)
            &&& p.current_packet == packet
            &&& p.num_packets_to_read == count
            &&& buffer == output.buffer
        }),
{
}

/// At the end of the file a player with no loops left is stopped and plays no
/// longer, and one with loops left starts over with one loop less. A negative
/// number of loops never runs out.
pub proof fn law_loops(output: OutputBuffer, env: EnvState)
    requires
        env.audio.players.contains_key(output.player),
    ensures
        ({
            let loops = env.audio.player(output.player).num_of_loops;
            let p = output.ended(env).env.audio.player(output.player);
            &&& loops == 0 ==> output.ended(env).action is StopQueue
            &&& loops == 0 ==> !output.stopped(env).env.audio.player(output.player).is_playing
            &&& loops > 0 ==> p.num_of_loops == loops - 1 && p.current_packet == 0
            &&& loops < 0 ==> p.num_of_loops == loops && p.current_packet == 0
        }),
{
}

} // verus!
