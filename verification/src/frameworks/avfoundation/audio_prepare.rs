//! `[AVAudioPlayer prepareToPlay]`: makes an audio queue and fills its buffers.
use crate::environment::{EnvState, Environment};
use crate::frameworks::avfoundation::audio_output;
use crate::frameworks::avfoundation::audio_output::{
    OutputAction, OutputBuffer, OutputReply, OutputStage,
};
use crate::frameworks::avfoundation::av_audio_player;
use crate::frameworks::avfoundation::av_audio_player::{
    kNumberBuffers, AVAudioPlayerHostObject, AudioFileID, AudioQueueRef,
    AudioStreamBasicDescription,
};
use crate::mem;
use crate::objc::classes::id;
use vstd::prelude::*;

verus! {

/// Something that the host has to do, or to ask.
#[derive(Clone, Copy, PartialEq, Eq, Structural, Debug)]
pub enum PrepareAction {
    /// Reply: the format of the file.
    DataFormat { file: AudioFileID },
    /// Make an output queue that calls this guest function with the player.
    /// Reply: the queue.
    NewOutput { desc: AudioStreamBasicDescription, callback: u32, player: id },
    /// Send the player `setVolume:`.
    SetVolume { player: id, volume: u32 },
    /// Send the player `setCurrentTime:`.
    SetCurrentTime { player: id, time: u64 },
    /// Reply: the size of the largest packet, and how many packets half a
    /// second takes.
    PacketSizes { file: AudioFileID, desc: AudioStreamBasicDescription },
    /// Make a buffer of this size, and store it at this address.
    AllocateBuffer { queue: AudioQueueRef, size: u32, at: u32 },
    /// What filling a buffer takes.
    Output { action: OutputAction },
    /// Nothing is left to do.
    Finish,
}

/// What the host replies.
#[derive(Clone, Copy, PartialEq, Eq, Structural, Debug)]
pub enum PrepareReply {
    Done,
    Format { desc: AudioStreamBasicDescription },
    Queue { queue: AudioQueueRef },
    Sizes { max_packet_size: u32, packets: u32 },
    Output { reply: OutputReply },
}

/// What is waited for.
#[derive(Clone, Copy, PartialEq, Eq, Structural, Debug)]
pub enum PrepareStage {
    Format { file: AudioFileID },
    Queue { file: AudioFileID, desc: AudioStreamBasicDescription },
    Volume { file: AudioFileID, desc: AudioStreamBasicDescription, queue: AudioQueueRef },
    Time { file: AudioFileID, desc: AudioStreamBasicDescription, queue: AudioQueueRef },
    Sizes { file: AudioFileID, desc: AudioStreamBasicDescription, queue: AudioQueueRef },
    Allocate { queue: AudioQueueRef, size: u32, buffers: u32, index: u32 },
    Output {
        queue: AudioQueueRef,
        size: u32,
        buffers: u32,
        index: u32,
        output: OutputBuffer,
    },
    Finished,
}

/// A player that is being prepared.
#[derive(Clone, Copy, PartialEq, Eq, Structural, Debug)]
pub struct Prepare {
    pub player: id,
    pub stage: PrepareStage,
}

/// What comes of a step.
#[verifier::ext_equal]
pub struct PrepareStep {
    pub env: EnvState,
    pub prepare: Prepare,
    pub action: PrepareAction,
}

impl Prepare {
    pub open spec fn at(
        self,
        env: EnvState,
        stage: PrepareStage,
        action: PrepareAction,
    ) -> PrepareStep {
        PrepareStep { env, prepare: Prepare { stage, ..self }, action }
    }

    /// The first step. Nothing happens if the player has a queue already, or has
    /// no file.
    pub open spec fn start(self, env: EnvState) -> PrepareStep {
        let p = env.audio.player(self.player);
        match (p.audio_queue, p.audio_file_id) {
            (None, Some(file)) => self.at(
                env,
                PrepareStage::Format { file },
                PrepareAction::DataFormat { file },
            ),
            _ => self.at(env, PrepareStage::Finished, PrepareAction::Finish),
        }
    }

    /// The format is known.
    pub open spec fn format_known(
        self,
        env: EnvState,
        file: AudioFileID,
        desc: AudioStreamBasicDescription,
    ) -> PrepareStep {
        let p = env.audio.player(self.player);
        self.at(
            env.with_player(
                self.player,
                AVAudioPlayerHostObject { audio_desc: Some(desc), ..p },
            ),
            PrepareStage::Queue { file, desc },
            PrepareAction::NewOutput { desc, callback: p.output_callback, player: self.player },
        )
    }

    /// The queue is there.
    pub open spec fn queue_made(
        self,
        env: EnvState,
        file: AudioFileID,
        desc: AudioStreamBasicDescription,
        queue: AudioQueueRef,
    ) -> PrepareStep {
        let p = env.audio.player(self.player);
        self.at(
            env.with_player(
                self.player,
                AVAudioPlayerHostObject { audio_queue: Some(queue), ..p },
            ),
            PrepareStage::Volume { file, desc, queue },
            PrepareAction::SetVolume { player: self.player, volume: p.volume },
        )
    }

    /// The sizes are known. The addresses of the buffers take a block of the
    /// guest's heap. The player counts as playing while they are filled.
    pub open spec fn sizes_known(
        self,
        env: EnvState,
        desc: AudioStreamBasicDescription,
        queue: AudioQueueRef,
        max_packet_size: u32,
        packets: u32,
    ) -> PrepareStep {
        let size = av_audio_player::buffer_size(desc, max_packet_size, packets);
        let n = size / (av_audio_player::packet_size(desc, max_packet_size) as int);
        let buffers = env.mem.heap;
        let e = EnvState {
            mem: env.mem.grow(12),
            audio: env.audio.with_player(
                self.player,
                AVAudioPlayerHostObject {
                    num_packets_to_read: n as u32,
                    audio_queue_buffers: Some(buffers),
                    is_playing: true,
                    ..env.audio.player(self.player)
                },
            ),
            ..env
        };
        self.next_buffer(e, queue, size as u32, buffers, 0)
    }

    /// It is the turn of a buffer, or all are filled.
    pub open spec fn next_buffer(
        self,
        env: EnvState,
        queue: AudioQueueRef,
        size: u32,
        buffers: u32,
        index: u32,
    ) -> PrepareStep {
        if index < kNumberBuffers {
            self.at(
                env,
                PrepareStage::Allocate { queue, size, buffers, index },
                PrepareAction::AllocateBuffer { queue, size, at: mem::wrap(buffers + 4 * index) },
            )
        } else {
            self.at(
                env.with_player(
                    self.player,
                    AVAudioPlayerHostObject {
                        is_playing: false,
                        ..env.audio.player(self.player)
                    },
                ),
                PrepareStage::Finished,
                PrepareAction::Finish,
            )
        }
    }

    /// A buffer is filled as far as this step of that says.
    pub open spec fn filled(
        self,
        s: audio_output::OutputStep,
        queue: AudioQueueRef,
        size: u32,
        buffers: u32,
        index: u32,
    ) -> PrepareStep {
        if s.action == OutputAction::Finish {
            self.next_buffer(s.env, queue, size, buffers, (index + 1) as u32)
        } else {
            self.at(
                s.env,
                PrepareStage::Output { queue, size, buffers, index, output: s.output },
                PrepareAction::Output { action: s.action },
            )
        }
    }

    /// The step after the host's reply; none if that is no reply to what it was
    /// asked.
    pub open spec fn step(self, env: EnvState, reply: PrepareReply) -> Option<PrepareStep> {
        match (self.stage, reply) {
            (PrepareStage::Format { file }, PrepareReply::Format { desc }) => Some(
                self.format_known(env, file, desc),
            ),
            (PrepareStage::Queue { file, desc }, PrepareReply::Queue { queue }) => Some(
                self.queue_made(env, file, desc, queue),
            ),
            (PrepareStage::Volume { file, desc, queue }, PrepareReply::Done) => Some(
                self.at(
                    env,
                    PrepareStage::Time { file, desc, queue },
                    PrepareAction::SetCurrentTime {
                        player: self.player,
                        time: env.audio.player(self.player).set_current_time,
                    },
                ),
            ),
            (PrepareStage::Time { file, desc, queue }, PrepareReply::Done) => Some(
                self.at(
                    env,
                    PrepareStage::Sizes { file, desc, queue },
                    PrepareAction::PacketSizes { file, desc },
                ),
            ),
            (
                PrepareStage::Sizes { file, desc, queue },
                PrepareReply::Sizes { max_packet_size, packets },
            ) => Some(self.sizes_known(env, desc, queue, max_packet_size, packets)),
            (PrepareStage::Allocate { queue, size, buffers, index }, PrepareReply::Done) => Some(
                self.filled(
                    OutputBuffer {
                        player: self.player,
                        queue,
                        buffer: env.mem.peek_u32(mem::wrap(buffers + 4 * index)),
                        stage: OutputStage::Finished,
                    }.start(env),
                    queue,
                    size,
                    buffers,
                    index,
                ),
            ),
            (
                PrepareStage::Output { queue, size, buffers, index, output },
                PrepareReply::Output { reply },
            ) => match output.step(env, reply) {
                Some(s) => Some(self.filled(s, queue, size, buffers, index)),
                None => None,
            },
            _ => None,
        }
    }

    pub open spec fn wf(self) -> bool {
        match self.stage {
            PrepareStage::Allocate { index, .. } => index < kNumberBuffers,
            PrepareStage::Output { index, .. } => index < kNumberBuffers,
            _ => true,
        }
    }

    /// Whether it can go on with this reply.
    pub open spec fn ready(self, env: EnvState, reply: PrepareReply) -> bool {
        match (self.stage, reply) {
            (
                PrepareStage::Sizes { desc, .. },
                PrepareReply::Sizes { max_packet_size, packets },
            ) => {
                &&& env.mem.room() >= 16
                &&& av_audio_player::wanted_buffer_size(desc, max_packet_size, packets) <= u32::MAX
            },
            (PrepareStage::Output { output, .. }, PrepareReply::Output { reply }) => output.ready(
                env,
                reply,
            ),
            _ => true,
        }
    }

    fn go_to_buffer(
        &mut self,
        env: &mut Environment,
        queue: AudioQueueRef,
        size: u32,
        buffers: u32,
        index: u32,
    ) -> (action: PrepareAction)
        ensures
            final(self).wf(),
            old(self).next_buffer(old(env)@, queue, size, buffers, index) == (PrepareStep {
                env: final(env)@,
                prepare: *final(self),
                action,
            }),
    {
        if index < kNumberBuffers {
            self.stage = PrepareStage::Allocate { queue, size, buffers, index };
            PrepareAction::AllocateBuffer { queue, size, at: mem::offset(buffers, 4 * index) }
        } else {
            let p: AVAudioPlayerHostObject = env.framework_state.av_audio_player.player(
                self.player,
            );
            env.framework_state.av_audio_player.set_player(
                self.player,
                AVAudioPlayerHostObject { is_playing: false, ..p },
            );
            self.stage = PrepareStage::Finished;
            PrepareAction::Finish
        }
    }

    fn size_buffers(
        &mut self,
        env: &mut Environment,
        desc: AudioStreamBasicDescription,
        queue: AudioQueueRef,
        max_packet_size: u32,
        packets: u32,
    ) -> (action: PrepareAction)
        requires
            old(env)@.mem.room() >= 16,
            av_audio_player::wanted_buffer_size(desc, max_packet_size, packets) <= u32::MAX,
        ensures
            final(self).wf(),
            old(self).sizes_known(old(env)@, desc, queue, max_packet_size, packets) == (
            PrepareStep { env: final(env)@, prepare: *final(self), action }),
    {
        let (size, n): (u32, u32) = av_audio_player::derive_buffer_size(
            desc,
            max_packet_size,
            packets,
        );
        let buffers: u32 = env.mem.allocate(12);
        let p: AVAudioPlayerHostObject = env.framework_state.av_audio_player.player(self.player);
        env.framework_state.av_audio_player.set_player(
            self.player,
            AVAudioPlayerHostObject {
                num_packets_to_read: n,
                audio_queue_buffers: Some(buffers),
                is_playing: true,
                ..p
            },
        );
        self.go_to_buffer(env, queue, size, buffers, 0)
    }

    /// Goes on with the host's reply. Nothing happens if that is no reply to
    /// what it was asked.
    pub fn resume(&mut self, env: &mut Environment, reply: PrepareReply) -> (r: Option<
        PrepareAction,
    >)
        requires
            old(self).wf(),
            old(self).ready(old(env)@, reply),
        ensures
            final(self).wf(),
            match old(self).step(old(env)@, reply) {
                Some(s) => {
                    &&& final(env)@ == s.env
                    &&& *final(self) == s.prepare
                    &&& r == Some(s.action)
                },
                None => r is None && final(env)@ == old(env)@ && *final(self) == *old(self),
            },
    {
        let p: AVAudioPlayerHostObject = env.framework_state.av_audio_player.player(self.player);
        match (self.stage, reply) {
            (PrepareStage::Format { file }, PrepareReply::Format { desc }) => {
                env.framework_state.av_audio_player.set_player(
                    self.player,
                    AVAudioPlayerHostObject { audio_desc: Some(desc), ..p },
                );
                self.stage = PrepareStage::Queue { file, desc };
                Some(
                    PrepareAction::NewOutput {
                        desc,
                        callback: p.output_callback,
                        player: self.player,
                    },
                )
            },
            (PrepareStage::Queue { file, desc }, PrepareReply::Queue { queue }) => {
                env.framework_state.av_audio_player.set_player(
                    self.player,
                    AVAudioPlayerHostObject { audio_queue: Some(queue), ..p },
                );
                self.stage = PrepareStage::Volume { file, desc, queue };
                Some(PrepareAction::SetVolume { player: self.player, volume: p.volume })
            },
            (PrepareStage::Volume { file, desc, queue }, PrepareReply::Done) => {
                self.stage = PrepareStage::Time { file, desc, queue };
                Some(
                    PrepareAction::SetCurrentTime { player: self.player, time: p.set_current_time },
                )
            },
            (PrepareStage::Time { file, desc, queue }, PrepareReply::Done) => {
                self.stage = PrepareStage::Sizes { file, desc, queue };
                Some(PrepareAction::PacketSizes { file, desc })
            },
            (
                PrepareStage::Sizes { file: _, desc, queue },
                PrepareReply::Sizes { max_packet_size, packets },
            ) => Some(self.size_buffers(env, desc, queue, max_packet_size, packets)),
            (PrepareStage::Allocate { queue, size, buffers, index }, PrepareReply::Done) => {
                let buffer: u32 = env.mem.read_u32(mem::offset(buffers, 4 * index));
                let (output, action): (OutputBuffer, OutputAction) =
                    audio_output::_touchHLE_AVAudioPlayerOutputBufferHelper(
                    env,
                    self.player,
                    queue,
                    buffer,
                );
                if action == OutputAction::Finish {
                    Some(self.go_to_buffer(env, queue, size, buffers, index + 1))
                } else {
                    self.stage = PrepareStage::Output { queue, size, buffers, index, output };
                    Some(PrepareAction::Output { action })
                }
            },
            (
                PrepareStage::Output { queue, size, buffers, index, output },
                PrepareReply::Output { reply },
            ) => {
                let mut output: OutputBuffer = output;
                match output.resume(env, reply) {
                    Some(action) => {
                        if action == OutputAction::Finish {
                            Some(self.go_to_buffer(env, queue, size, buffers, index + 1))
                        } else {
                            self.stage = PrepareStage::Output {
                                queue,
                                size,
                                buffers,
                                index,
                                output,
                            };
                            Some(PrepareAction::Output { action })
                        }
                    },
                    None => None,
                }
            },
            _ => None,
        }
    }
}

/// `[player prepareToPlay]`
pub fn prepare_to_play(env: &Environment, this: id) -> (r: (Prepare, PrepareAction))
    ensures
        r.0.wf(),
        (PrepareStep { env: env@, prepare: r.0, action: r.1 }) == (Prepare {
            player: this,
            stage: PrepareStage::Finished,
        }).start(env@),
{
    let p: AVAudioPlayerHostObject = env.framework_state.av_audio_player.player(this);
    match (p.audio_queue, p.audio_file_id) {
        (None, Some(file)) => (
            Prepare { player: this, stage: PrepareStage::Format { file } },
            PrepareAction::DataFormat { file },
        ),
        _ => (
            Prepare { player: this, stage: PrepareStage::Finished },
            PrepareAction::Finish,
        ),
    }
}

/// A player that was prepared does not play.
pub proof fn law_prepared_does_not_play(prepare: Prepare, env: EnvState, reply: PrepareReply)
    requires
        prepare.step(env, reply) matches Some(s) && s.action == PrepareAction::Finish,
    ensures
        !prepare.step(env, reply)->0.env.audio.player(prepare.player).is_playing,
{
}

/// Nothing is prepared for a player that has a queue already, or that has no
/// file.
pub proof fn law_prepared_once(prepare: Prepare, env: EnvState)
    requires
        env.audio.player(prepare.player).audio_queue is Some || env.audio.player(
            prepare.player,
        ).audio_file_id is None,
    ensures
        prepare.start(env).env == env,
        prepare.start(env).action == PrepareAction::Finish,
{
}

} // verus!
