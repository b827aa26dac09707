//! What preparing and playing a sound does, from the first request to the last.
use crate::environment::EnvState;
use crate::frameworks::avfoundation::audio_output::{
    OutputAction, OutputBuffer, OutputReply, OutputStage,
};
use crate::frameworks::avfoundation::audio_prepare::{
    Prepare, PrepareAction, PrepareReply, PrepareStage,
};
use crate::frameworks::avfoundation::av_audio_player;
use crate::frameworks::avfoundation::av_audio_player::{
    AVAudioPlayerHostObject, AVAudioRecorderHostObject, AudioFileID, AudioQueueRef, AudioState,
    AudioStreamBasicDescription,
};
use crate::mem;
use crate::objc::classes;
use crate::objc::classes::{id, nil};
use crate::objc::names;
use vstd::prelude::*;

verus! {

/// Whether `e` is `env` with nothing but the player `this` changed, to `p`.
pub open spec fn only_player(env: EnvState, e: EnvState, this: id, p: AVAudioPlayerHostObject) -> bool {
    &&& e.audio.players.contains_key(this)
    &&& e.audio.players[this] == p
    &&& e.audio.players.dom() == env.audio.players.dom()
    &&& forall|other: id|
        other != this && env.audio.players.contains_key(other) ==> #[trigger]
            e.audio.players[other] == env.audio.players[other]
    &&& e.audio.recorders == env.audio.recorders
    &&& e == (EnvState { audio: e.audio, ..env })
}

proof fn lemma_only_player(env: EnvState, this: id, p: AVAudioPlayerHostObject)
    requires
        env.audio.players.contains_key(this),
    ensures
        only_player(env, env.with_player(this, p), this, p),
{
    assert(env.with_player(this, p).audio.players.dom() =~= env.audio.players.dom());
}

// Preparing

/// A player with a file and without a queue is prepared: first the format of its own
/// file is asked for.
pub proof fn law_prepare_starts(env: EnvState, this: id, file: AudioFileID)
    requires
        env.audio.players.contains_key(this),
        env.audio.players[this].audio_queue is None,
        env.audio.players[this].audio_file_id == Some(file),
    ensures
        ({
            let s = (Prepare { player: this, stage: PrepareStage::Finished }).start(env);
            &&& s.env == env
            &&& s.action == (PrepareAction::DataFormat { file })
            &&& s.prepare == (Prepare { player: this, stage: PrepareStage::Format { file } })
        }),
{
}

/// Once the format is known, a queue of that format is asked for, which calls the
/// player's own function with the player, and the player knows the format.
pub proof fn law_prepare_format(
    env: EnvState,
    this: id,
    file: AudioFileID,
    desc: AudioStreamBasicDescription,
)
    requires
        env.audio.players.contains_key(this),
    ensures
        ({
            let prepare = Prepare { player: this, stage: PrepareStage::Format { file } };
            let p = env.audio.players[this];
            prepare.step(env, PrepareReply::Format { desc }) matches Some(s) && {
                &&& s.action == (PrepareAction::NewOutput {
                    desc,
                    callback: p.output_callback,
                    player: this,
                })
                &&& only_player(
                    env,
                    s.env,
                    this,
                    AVAudioPlayerHostObject { audio_desc: Some(desc), ..p },
                )
                &&& s.prepare == (Prepare {
                    player: this,
                    stage: PrepareStage::Queue { file, desc },
                })
            }
        }),
{
    lemma_only_player(
        env,
        this,
        AVAudioPlayerHostObject { audio_desc: Some(desc), ..env.audio.players[this] },
    );
}

/// Once the queue is there, it gets the volume that the player has, whatever that is;
/// then the time that the player has; then the packet sizes of the file are asked for.
/// The player keeps its volume and its time.
pub proof fn law_prepare_queue(
    env: EnvState,
    this: id,
    file: AudioFileID,
    desc: AudioStreamBasicDescription,
    queue: AudioQueueRef,
)
    requires
        env.audio.players.contains_key(this),
    ensures
        ({
            let p = env.audio.players[this];
            let at_queue = Prepare { player: this, stage: PrepareStage::Queue { file, desc } };
            let at_volume = Prepare {
                player: this,
                stage: PrepareStage::Volume { file, desc, queue },
            };
            let at_time = Prepare { player: this, stage: PrepareStage::Time { file, desc, queue } };
            let at_sizes = Prepare {
                player: this,
                stage: PrepareStage::Sizes { file, desc, queue },
            };
            &&& at_queue.step(env, PrepareReply::Queue { queue }) matches Some(s) && {
                &&& s.action == (PrepareAction::SetVolume { player: this, volume: p.volume })
                &&& only_player(
                    env,
                    s.env,
                    this,
                    AVAudioPlayerHostObject { audio_queue: Some(queue), ..p },
                )
                &&& s.prepare == at_volume
            }
            &&& at_volume.step(env, PrepareReply::Done) matches Some(s) && {
                &&& s.action == (PrepareAction::SetCurrentTime {
                    player: this,
                    time: p.set_current_time,
                })
                &&& s.env == env
                &&& s.prepare == at_time
            }
            &&& at_time.step(env, PrepareReply::Done) matches Some(s) && {
                &&& s.action == (PrepareAction::PacketSizes { file, desc })
                &&& s.env == env
                &&& s.prepare == at_sizes
            }
        }),
{
    lemma_only_player(
        env,
        this,
        AVAudioPlayerHostObject { audio_queue: Some(queue), ..env.audio.players[this] },
    );
}

/// A volume and a time that are set for a player before it has a queue are what the
/// queue gets when the player is prepared.
pub proof fn law_settings_reach_queue(
    env: EnvState,
    this: id,
    file: AudioFileID,
    desc: AudioStreamBasicDescription,
    queue: AudioQueueRef,
    volume: u32,
    time: u64,
)
    requires
        env.audio.players.contains_key(this),
        env.audio.players[this].audio_queue is None,
        env.audio.players[this].audio_file_id == Some(file),
    ensures
        ({
            // `[player setVolume:]` and `[player setCurrentTime:]`
            let set = AVAudioPlayerHostObject {
                volume,
                set_current_time: time,
                ..env.audio.players[this]
            };
            let e = EnvState {
                audio: av_audio_player::AudioState {
                    players: env.audio.players.insert(this, set),
                    ..env.audio
                },
                ..env
            };
            let s0 = (Prepare { player: this, stage: PrepareStage::Finished }).start(e);
            let s1 = s0.prepare.step(s0.env, PrepareReply::Format { desc })->0;
            let s2 = s1.prepare.step(s1.env, PrepareReply::Queue { queue })->0;
            let s3 = s2.prepare.step(s2.env, PrepareReply::Done)->0;
            &&& s2.action == (PrepareAction::SetVolume { player: this, volume })
            &&& s2.env.audio.players[this].volume == volume
            &&& s2.env.audio.players[this].audio_queue == Some(queue)
            &&& s3.action == (PrepareAction::SetCurrentTime { player: this, time })
        }),
{
}

/// Once the sizes are known, the player has a block for the addresses of three
/// buffers and counts as playing, and the first buffer is asked for. It is to be read
/// as many packets at a time as fit a buffer.
pub proof fn law_prepare_sizes(
    env: EnvState,
    this: id,
    file: AudioFileID,
    desc: AudioStreamBasicDescription,
    queue: AudioQueueRef,
    max_packet_size: u32,
    packets: u32,
)
    requires
        env.audio.players.contains_key(this),
        max_packet_size > 0,
        desc.frames_per_packet != 0,
        packets * max_packet_size <= u32::MAX,
        env.mem.room() >= 16,
    ensures
        ({
            let prepare = Prepare {
                player: this,
                stage: PrepareStage::Sizes { file, desc, queue },
            };
            let p = env.audio.players[this];
            let wanted = packets * max_packet_size;
            // Between 16 KiB and 320 KiB, but for a single packet.
            let size = if wanted < 0x4000 {
                0x4000
            } else if wanted > 0x50000 && packets > 1 {
                0x50000
            } else {
                wanted
            };
            prepare.step(
                env,
                PrepareReply::Sizes { max_packet_size, packets },
            ) matches Some(s) && {
                let after = s.env.audio.players[this];
                &&& s.action == (PrepareAction::AllocateBuffer {
                    queue,
                    size: size as u32,
                    at: env.mem.heap,
                })
                &&& after.is_playing
                &&& after.audio_queue_buffers == Some(env.mem.heap)
                &&& after.num_packets_to_read * max_packet_size <= size < (
                after.num_packets_to_read + 1) * max_packet_size
                &&& after == (AVAudioPlayerHostObject {
                    is_playing: true,
                    audio_queue_buffers: Some(env.mem.heap),
                    num_packets_to_read: after.num_packets_to_read,
                    ..p
                })
                &&& s.env.mem.heap == env.mem.heap + 16
            }
        }),
{
    let size = max_packet_size as int;
    let wanted = packets * max_packet_size;
    assert(packets <= 1 ==> wanted <= size) by (nonlinear_arith)
        requires
            wanted == packets * size,
            size > 0,
    ;
    assert(packets > 1 ==> wanted > size) by (nonlinear_arith)
        requires
            wanted == packets * size,
            size > 0,
    ;
    let b = av_audio_player::buffer_size(desc, max_packet_size, packets);
    assert(0 <= wanted) by (nonlinear_arith)
        requires
            wanted == packets * max_packet_size,
    ;
    assert(0 <= b / size && (b / size) * size <= b < (b / size + 1) * size && b / size <= b)
        by (nonlinear_arith)
        requires
            size > 0,
            b >= 0,
    ;
    assert(mem::wrap(env.mem.heap + 4 * 0) == env.mem.heap);
}

/// Each of the three buffers is asked for at its place in the block, and is filled
/// for the player and the queue once it is there; behind the third, the player plays
/// no longer and is prepared.
pub proof fn law_prepare_buffers(
    env: EnvState,
    this: id,
    queue: AudioQueueRef,
    size: u32,
    buffers: u32,
    index: u32,
)
    requires
        env.audio.players.contains_key(this),
        this != nil,
        index < 3,
        buffers <= 0xFFFF_FFF0,
    ensures
        ({
            let prepare = Prepare {
                player: this,
                stage: PrepareStage::Allocate { queue, size, buffers, index },
            };
            let output = OutputBuffer {
                player: this,
                queue,
                buffer: env.mem.peek_u32((buffers + 4 * index) as u32),
                stage: OutputStage::Class,
            };
            let filling = Prepare {
                player: this,
                stage: PrepareStage::Output { queue, size, buffers, index, output },
            };
            &&& prepare.step(env, PrepareReply::Done) matches Some(s) && s.env == env && s.action
                == (PrepareAction::Output { action: OutputAction::ClassOf { object: this } })
                && s.prepare == filling
            // What is no player any more is not filled.
            &&& filling.step(
                env,
                PrepareReply::Output { reply: OutputReply::Object { object: nil } },
            ) matches Some(s) && if index < 2 {
                s.env == env && s.action == (PrepareAction::AllocateBuffer {
                    queue,
                    size,
                    at: (buffers + 4 * (index + 1)) as u32,
                })
            } else {
                s.action == PrepareAction::Finish && only_player(
                    env,
                    s.env,
                    this,
                    AVAudioPlayerHostObject { is_playing: false, ..env.audio.players[this] },
                )
            }
        }),
{
    assert(mem::wrap(buffers + 4 * index) == buffers + 4 * index);
    assert(mem::wrap(buffers + 4 * (index + 1)) == buffers + 4 * (index + 1));
    lemma_only_player(
        env,
        this,
        AVAudioPlayerHostObject { is_playing: false, ..env.audio.players[this] },
    );
}

// Filling a buffer

/// A player that plays with this queue reads the packets at its position into the
/// buffer; what was read is enqueued, and the position moves on by as many packets.
pub proof fn law_buffer_filled(
    output: OutputBuffer,
    env: EnvState,
    file: AudioFileID,
    num_packets: u32,
    num_bytes: u32,
)
    requires
        env.audio.players.contains_key(output.player),
        env.audio.players[output.player].audio_file_id == Some(file),
        env.audio.players[output.player].audio_queue == Some(output.queue),
        env.audio.players[output.player].is_playing,
        num_packets > 0,
        env.audio.players[output.player].current_packet + num_packets <= i64::MAX,
    ensures
        ({
            let p = env.audio.players[output.player];
            let s0 = output.read(env);
            let s1 = s0.output.step(env, OutputReply::Packets { num_packets, num_bytes })->0;
            let s2 = s1.output.step(env, OutputReply::Done)->0;
            &&& s0.env == env
            &&& s0.action == (OutputAction::ReadPackets {
                file,
                packet: p.current_packet,
                count: p.num_packets_to_read,
                buffer: output.buffer,
            })
            &&& s1.env == env
            &&& s1.action == (OutputAction::Enqueue {
                queue: output.queue,
                buffer: output.buffer,
                num_bytes,
            })
            &&& s2.action == OutputAction::Finish
            &&& only_player(
                env,
                s2.env,
                output.player,
                AVAudioPlayerHostObject {
                    current_packet: (p.current_packet + num_packets) as i64,
                    ..p
                },
            )
        }),
{
    let p = env.audio.players[output.player];
    lemma_only_player(
        env,
        output.player,
        AVAudioPlayerHostObject { current_packet: (p.current_packet + num_packets) as i64, ..p },
    );
}

/// Nothing is read, and nothing changes, for a player that does not play, or plays
/// with another queue, or has no file.
pub proof fn law_buffer_left_empty(output: OutputBuffer, env: EnvState)
    requires
        env.audio.players.contains_key(output.player),
        ({
            let p = env.audio.players[output.player];
            !p.is_playing || p.audio_queue != Some(output.queue) || p.audio_file_id is None
        }),
    ensures
        output.read(env).env == env,
        output.read(env).action == OutputAction::Finish,
{
}

/// At the end of the file, a player without loops has its queue stopped, plays no
/// longer, and its delegate is told that it has finished, if it knows the message; one
/// with loops starts over from the first packet, with one loop less, unless it loops
/// for ever.
pub proof fn law_file_ends(
    output: OutputBuffer,
    env: EnvState,
    packet: i64,
    num_bytes: u32,
    sel: u32,
)
    requires
        env.audio.players.contains_key(output.player),
        output.player != nil,
        output.stage == (OutputStage::Read { packet }),
        env.audio.players[output.player].num_packets_to_read > 0,
        names::find(
            env.objc.selectors,
            classes::name_of("audioPlayerDidFinishPlaying:successfully:"@),
        ) == Some(sel),
    ensures
        ({
            let this = output.player;
            let p = env.audio.players[this];
            let s = output.step(env, OutputReply::Packets { num_packets: 0, num_bytes })->0;
            let t = s.output.step(s.env, OutputReply::Done)->0;
            let yes = t.output.step(t.env, OutputReply::Flag { flag: true })->0;
            let no = t.output.step(t.env, OutputReply::Flag { flag: false })->0;
            &&& p.num_of_loops == 0 ==> {
                &&& s.action == (OutputAction::StopQueue { queue: output.queue }) && s.env == env
                &&& only_player(
                    env,
                    t.env,
                    this,
                    AVAudioPlayerHostObject { is_playing: false, ..p },
                )
                &&& p.delegate == nil ==> t.action == OutputAction::Finish
                &&& p.delegate != nil ==> t.action == (OutputAction::RespondsToSelector {
                    object: p.delegate,
                    sel,
                }) && yes.action == (OutputAction::DidFinishPlaying {
                    delegate: p.delegate,
                    player: this,
                }) && no.action == OutputAction::Finish && yes.env == t.env && no.env == t.env
            }
            &&& p.num_of_loops > 0 ==> s.action == (OutputAction::ClassOf { object: this })
                && only_player(
                env,
                s.env,
                this,
                AVAudioPlayerHostObject {
                    num_of_loops: (p.num_of_loops - 1) as i32,
                    current_packet: 0,
                    ..p
                },
            )
            &&& p.num_of_loops < 0 ==> s.action == (OutputAction::ClassOf { object: this })
                && only_player(
                env,
                s.env,
                this,
                AVAudioPlayerHostObject { current_packet: 0, ..p },
            )
        }),
{
    let this = output.player;
    let p = env.audio.players[this];
    lemma_only_player(env, this, AVAudioPlayerHostObject { is_playing: false, ..p });
    lemma_only_player(env, this, AVAudioPlayerHostObject { current_packet: 0, ..p });
    lemma_only_player(
        env,
        this,
        AVAudioPlayerHostObject {
            num_of_loops: (p.num_of_loops - 1) as i32,
            current_packet: 0,
            ..p
        },
    );
}

/// The class of what calls is compared with the class of players: a player, or an
/// instance of a subclass, is read for, and everything else is ignored.
pub proof fn law_only_players_are_read_for(output: OutputBuffer, env: EnvState, class: id)
    requires
        output.stage == OutputStage::Class,
        class != nil,
    ensures
        ({
            let s = output.step(env, OutputReply::Object { object: class })->0;
            let e = env.with_player_class();
            &&& s.env == e
            &&& e.objc.is_subclass(class, env.player_class()) ==> s == output.read(e)
            &&& !e.objc.is_subclass(class, env.player_class()) ==> s.action == OutputAction::Finish
        }),
{
}

// Players and their levels

/// A new player plays at full volume in the middle, once, from the start, and has no
/// file, queue or delegate.
pub proof fn law_new_player(output_callback: u32)
    ensures
        ({
            let p = av_audio_player::new_player(output_callback);
            &&& p.output_callback == output_callback
            &&& p.volume == 0x3F80_0000
            &&& p.pan == 0
            &&& !p.is_playing && !p.metering_enabled
            &&& p.num_of_loops == 0 && p.current_packet == 0 && p.num_packets_to_read == 0
            &&& p.audio_file_url == nil && p.audio_file_id is None && p.audio_desc is None
            &&& p.audio_queue is None && p.audio_queue_buffers is None
            &&& p.delegate == nil
        }),
{
}

/// A player that was stopped differs from a new one in nothing but what it keeps: the
/// callback, the file, the number of loops, the delegate and the metering.
pub proof fn law_stopped_is_new(p: AVAudioPlayerHostObject)
    ensures
        ({
            let s = av_audio_player::stopped(p);
            let fresh = av_audio_player::new_player(p.output_callback);
            &&& s.volume == fresh.volume && s.pan == fresh.pan
            &&& s.current_packet == fresh.current_packet && s.set_current_time
                == fresh.set_current_time
            &&& s.num_packets_to_read == fresh.num_packets_to_read
            &&& s.audio_queue_buffers is None && s.audio_desc is None
            &&& s.output_callback == p.output_callback
        }),
{
}

/// Whether these are the bits of a number in single precision, which may be infinite.
pub open spec fn is_a_number(bits: u32) -> bool {
    bits % 0x8000_0000 <= 0x7F80_0000
}

/// A pan beyond one side is all the way to that side. The same on the other side is
/// treated alike, and what is no number stays as it is.
pub proof fn law_pan_sides(bits: u32)
    requires
        bits < 0x8000_0000,
    ensures
        is_a_number(bits) && bits >= 0x3F80_0000 ==> av_audio_player::clamped(bits) == 0x3F80_0000,
        bits < 0x3F80_0000 || !is_a_number(bits) ==> av_audio_player::clamped(bits) == bits,
        av_audio_player::clamped((bits + 0x8000_0000) as u32) == av_audio_player::clamped(bits)
            + 0x8000_0000,
{
}

// Buffers

/// The largest packet is as large as the file says, or else as the format says, or else
/// of a usual size.
pub proof fn law_packet_size(desc: AudioStreamBasicDescription, max_packet_size: u32)
    ensures
        ({
            let size = av_audio_player::packet_size(desc, max_packet_size);
            &&& max_packet_size != 0 ==> size == max_packet_size
            &&& max_packet_size == 0 && desc.bytes_per_packet != 0 ==> size == desc.bytes_per_packet
            &&& max_packet_size == 0 && desc.bytes_per_packet == 0 ==> size == 1024
        }),
{
}

/// A buffer holds exactly the packets of the wanted duration, where these take between
/// 16 and 320 kibibytes. Fewer packets get a buffer of the smallest size, and more get
/// one of the largest, unless it is a single packet that takes more. Where packets have no
/// fixed duration, the buffer has the largest size, or that of a larger packet.
pub proof fn law_buffer_size(desc: AudioStreamBasicDescription, max_packet_size: u32, packets: u32)
    ensures
        ({
            let size = av_audio_player::packet_size(desc, max_packet_size) as int;
            let buffer = av_audio_player::buffer_size(desc, max_packet_size, packets);
            let needed = packets * size;
            let timed = desc.frames_per_packet != 0;
            &&& timed && 0x4000 <= needed <= 0x50000 ==> buffer == needed && buffer / size == packets
            &&& timed && needed < 0x4000 ==> buffer == 0x4000
            &&& timed && needed > 0x50000 && packets > 1 ==> buffer == 0x50000
            &&& timed && needed > 0x50000 && packets == 1 ==> buffer == size && buffer / size == 1
            &&& !timed && size <= 0x50000 ==> buffer == 0x50000
            &&& !timed && size > 0x50000 ==> buffer == size && buffer / size == 1
        }),
{
    let size = av_audio_player::packet_size(desc, max_packet_size) as int;
    let needed = packets * size;
    assert(size > 0);
    assert(needed / size == packets) by (nonlinear_arith)
        requires
            size > 0,
            needed == packets * size,
    ;
    assert(packets > 1 ==> needed > size) by (nonlinear_arith)
        requires
            size > 0,
            needed == packets * size,
    ;
    assert(packets == 1 ==> needed == size) by (nonlinear_arith)
        requires
            needed == packets * size,
    ;
    assert(size / size == 1) by (nonlinear_arith)
        requires
            size > 0,
    ;
}

// All players and recorders

/// A player that is there is what it was last changed to, and that concerns no other
/// player and no recorder. One that is gone has nothing set, and changing it does
/// nothing.
pub proof fn law_player_changed(
    a: AudioState,
    this: id,
    p: AVAudioPlayerHostObject,
    other: id,
)
    ensures
        ({
            let r = a.with_player(this, p);
            &&& a.players.contains_key(this) ==> r.player(this) == p
            &&& !a.players.contains_key(this) ==> r == a && a.player(this).audio_queue is None
                && a.player(this).audio_file_id is None && !a.player(this).is_playing
                && a.player(this).delegate == nil && a.player(this).volume == 0
            &&& other != this ==> r.player(other) == a.player(other)
            &&& r.players.contains_key(other) == a.players.contains_key(other)
            &&& r.recorder(other) == a.recorder(other)
        }),
{
}

/// The same holds of recorders.
pub proof fn law_recorder_changed(
    a: AudioState,
    this: id,
    r: AVAudioRecorderHostObject,
    other: id,
)
    ensures
        ({
            let b = a.with_recorder(this, r);
            &&& a.recorders.contains_key(this) ==> b.recorder(this) == r
            &&& !a.recorders.contains_key(this) ==> b == a && a.recorder(this) == (
            AVAudioRecorderHostObject {
                url: nil,
                is_recording: false,
                metering_enabled: false,
                delegate: nil,
            })
            &&& other != this ==> b.recorder(other) == a.recorder(other)
            &&& b.recorders.contains_key(other) == a.recorders.contains_key(other)
            &&& b.player(other) == a.player(other)
        }),
{
}

} // verus!
