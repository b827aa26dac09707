//! `AVAudioPlayer` and `AVAudioRecorder`.
//!
//! Numbers in floating point are given by their bit patterns. What the host's
//! audio queues and files do is up to the host.
use crate::objc::classes::{id, nil};
use std::collections::HashMap;
use vstd::prelude::*;

verus! {

broadcast use vstd::std_specs::hash::group_hash_axioms;

pub type AudioFileID = u32;

pub type AudioQueueRef = u32;

/// The number of buffers of a player.
pub const kNumberBuffers: u32 = 3;

/// 1.0 in single precision.
pub const ONE: u32 = 0x3F80_0000;

/// -1.0 in single precision.
pub const MINUS_ONE: u32 = 0xBF80_0000;

/// The format of audio data.
#[derive(Clone, Copy, PartialEq, Eq, Structural, Debug)]
pub struct AudioStreamBasicDescription {
    /// In double precision.
    pub sample_rate: u64,
    pub bytes_per_packet: u32,
    pub frames_per_packet: u32,
    pub channels_per_frame: u32,
}

/// An `AVAudioPlayer`.
#[derive(Clone, Copy, PartialEq, Eq, Structural, Debug)]
pub struct AVAudioPlayerHostObject {
    pub audio_file_url: id,
    /// The address of the guest function that fills buffers.
    pub output_callback: u32,
    pub audio_file_id: Option<AudioFileID>,
    pub audio_desc: Option<AudioStreamBasicDescription>,
    pub audio_queue: Option<AudioQueueRef>,
    /// The address of the buffers.
    pub audio_queue_buffers: Option<u32>,
    pub num_packets_to_read: u32,
    pub current_packet: i64,
    /// In double precision.
    pub set_current_time: u64,
    /// In single precision.
    pub volume: u32,
    /// From -1.0 (full left) to 1.0 (full right), in single precision.
    pub pan: u32,
    pub is_playing: bool,
    pub num_of_loops: i32,
    pub delegate: id,
    pub metering_enabled: bool,
}

/// An `AVAudioRecorder`.
#[derive(Clone, Copy, PartialEq, Eq, Structural, Debug)]
pub struct AVAudioRecorderHostObject {
    pub url: id,
    pub is_recording: bool,
    pub metering_enabled: bool,
    pub delegate: id,
}

/// What stands for a player that is gone: nothing is set.
pub open spec fn phantom() -> AVAudioPlayerHostObject {
    AVAudioPlayerHostObject {
        audio_file_url: nil,
        output_callback: 0,
        audio_file_id: None,
        audio_desc: None,
        audio_queue: None,
        audio_queue_buffers: None,
        num_packets_to_read: 0,
        current_packet: 0,
        set_current_time: 0,
        volume: 0,
        pan: 0,
        is_playing: false,
        num_of_loops: 0,
        delegate: nil,
        metering_enabled: false,
    }
}

/// A new player.
pub open spec fn new_player(output_callback: u32) -> AVAudioPlayerHostObject {
    AVAudioPlayerHostObject { output_callback, volume: ONE, ..phantom() }
}

/// A player that was stopped. It keeps the file, the number of loops, the
/// delegate and the metering.
pub open spec fn stopped(p: AVAudioPlayerHostObject) -> AVAudioPlayerHostObject {
    AVAudioPlayerHostObject {
        audio_file_url: p.audio_file_url,
        num_of_loops: p.num_of_loops,
        audio_file_id: p.audio_file_id,
        delegate: p.delegate,
        metering_enabled: p.metering_enabled,
        ..new_player(p.output_callback)
    }
}

/// What stands for a recorder that is gone.
pub open spec fn blank_recorder() -> AVAudioRecorderHostObject {
    AVAudioRecorderHostObject {
        url: nil,
        is_recording: false,
        metering_enabled: false,
        delegate: nil,
    }
}

/// All players and recorders.
pub struct State {
    players: HashMap<id, AVAudioPlayerHostObject>,
    recorders: HashMap<id, AVAudioRecorderHostObject>,
}

/// The model of a [State].
#[verifier::ext_equal]
pub struct AudioState {
    pub players: Map<id, AVAudioPlayerHostObject>,
    pub recorders: Map<id, AVAudioRecorderHostObject>,
}

impl View for State {
    type V = AudioState;

    closed spec fn view(&self) -> AudioState {
        AudioState { players: self.players@, recorders: self.recorders@ }
    }
}

impl AudioState {
    /// The player with this object.
    pub open spec fn player(self, this: id) -> AVAudioPlayerHostObject {
        if self.players.contains_key(this) {
            self.players[this]
        } else {
            phantom()
        }
    }

    /// With a player changed, if it is there.
    pub open spec fn with_player(self, this: id, p: AVAudioPlayerHostObject) -> AudioState {
        if self.players.contains_key(this) {
            AudioState { players: self.players.insert(this, p), ..self }
        } else {
            self
        }
    }

    /// The recorder with this object.
    pub open spec fn recorder(self, this: id) -> AVAudioRecorderHostObject {
        if self.recorders.contains_key(this) {
            self.recorders[this]
        } else {
            blank_recorder()
        }
    }

    /// With a recorder changed, if it is there.
    pub open spec fn with_recorder(self, this: id, r: AVAudioRecorderHostObject) -> AudioState {
        if self.recorders.contains_key(this) {
            AudioState { recorders: self.recorders.insert(this, r), ..self }
        } else {
            self
        }
    }
}

impl Default for State {
    fn default() -> (state: State)
        ensures
            state@ == (AudioState { players: Map::empty(), recorders: Map::empty() }),
    {
        let state = State { players: HashMap::new(), recorders: HashMap::new() };
        proof {
            assert(state@ =~= (AudioState { players: Map::empty(), recorders: Map::empty() }));
        }
        state
    }
}

/// A level that is known, or that the queue has to be asked for.
#[derive(Clone, Copy, PartialEq, Eq, Structural, Debug)]
pub enum Level {
    Known { level: u32 },
    Ask { queue: AudioQueueRef },
}

/// A number in single precision moved into the range from -1.0 to 1.0. What is
/// not a number stays as it is.
pub open spec fn clamped(bits: u32) -> u32 {
    let magnitude = bits % 0x8000_0000;
    if ONE < magnitude <= 0x7F80_0000 {
        if bits < 0x8000_0000 {
            ONE
        } else {
            MINUS_ONE
        }
    } else {
        bits
    }
}

fn clamp(bits: u32) -> (r: u32)
    ensures
        r == clamped(bits),
{
    let magnitude: u32 = bits % 0x8000_0000;
    if ONE < magnitude && magnitude <= 0x7F80_0000 {
        if bits < 0x8000_0000 {
            ONE
        } else {
            MINUS_ONE
        }
    } else {
        bits
    }
}

fn make_player(output_callback: u32, volume: u32) -> (p: AVAudioPlayerHostObject)
    ensures
        p == (AVAudioPlayerHostObject { output_callback, volume, ..phantom() }),
{
    AVAudioPlayerHostObject {
        audio_file_url: nil,
        output_callback,
        audio_file_id: None,
        audio_desc: None,
        audio_queue: None,
        audio_queue_buffers: None,
        num_packets_to_read: 0,
        current_packet: 0,
        set_current_time: 0,
        volume,
        pan: 0,
        is_playing: false,
        num_of_loops: 0,
        delegate: nil,
        metering_enabled: false,
    }
}

impl State {
    /// The player with this object.
    pub fn player(&self, this: id) -> (p: AVAudioPlayerHostObject)
        ensures
            p == self@.player(this),
    {
        match self.players.get(&this) {
            Some(p) => *p,
            None => make_player(0, 0),
        }
    }

    /// Changes a player.
    pub(crate) fn set_player(&mut self, this: id, p: AVAudioPlayerHostObject)
        ensures
            final(self)@ == old(self)@.with_player(this, p),
    {
        if self.players.contains_key(&this) {
            self.players.insert(this, p);
        }
    }

    /// `[AVAudioPlayer alloc]`, once the object is there.
    pub fn alloc_player(&mut self, this: id, output_callback: u32)
        ensures
            final(self)@ == (AudioState {
                players: old(self)@.players.insert(this, new_player(output_callback)),
                ..old(self)@
            }),
    {
        self.players.insert(this, make_player(output_callback, ONE));
    }

    /// `[player initWithContentsOfURL:error:]`, once the file was opened, with
    /// what came of that. The URL is to be retained. Returns nil if the file
    /// could not be opened.
    pub fn init_with_contents_of_url(
        &mut self,
        this: id,
        url: id,
        file: AudioFileID,
        status: i32,
    ) -> (r: id)
        ensures
            final(self)@ == old(self)@.with_player(
                this,
                AVAudioPlayerHostObject {
                    audio_file_url: url,
                    audio_file_id: Some(file),
                    ..old(self)@.player(this)
                },
            ),
            r == if status != 0 {
                nil
            } else {
                this
            },
    {
        let p: AVAudioPlayerHostObject = self.player(this);
        self.set_player(
            this,
            AVAudioPlayerHostObject { audio_file_url: url, audio_file_id: Some(file), ..p },
        );
        if status != 0 {
            nil
        } else {
            this
        }
    }

    /// `[player initWithData:error:]`, once the data was read, with what came of
    /// that. If it is no audio file, the player is to be released, and nil is
    /// returned.
    pub fn init_with_data(&mut self, this: id, file: Option<AudioFileID>) -> (r: id)
        requires
            old(self)@.player(this).audio_file_url == nil,
            old(self)@.player(this).audio_file_id is None,
        ensures
            match file {
                Some(_) => r == this && final(self)@ == old(self)@.with_player(
                    this,
                    AVAudioPlayerHostObject { audio_file_id: file, ..old(self)@.player(this) },
                ),
                None => r == nil && final(self)@ == old(self)@,
            },
    {
        match file {
            Some(_) => {
                let p: AVAudioPlayerHostObject = self.player(this);
                self.set_player(this, AVAudioPlayerHostObject { audio_file_id: file, ..p });
                this
            },
            None => nil,
        }
    }

    /// `[player setDelegate:]`
    pub fn set_delegate(&mut self, this: id, delegate: id)
        ensures
            final(self)@ == old(self)@.with_player(
                this,
                AVAudioPlayerHostObject { delegate, ..old(self)@.player(this) },
            ),
    {
        let p: AVAudioPlayerHostObject = self.player(this);
        self.set_player(this, AVAudioPlayerHostObject { delegate, ..p });
    }

    /// `[player setMeteringEnabled:]`
    pub fn set_metering_enabled(&mut self, this: id, enabled: bool)
        ensures
            final(self)@ == old(self)@.with_player(
                this,
                AVAudioPlayerHostObject { metering_enabled: enabled, ..old(self)@.player(this) },
            ),
    {
        let p: AVAudioPlayerHostObject = self.player(this);
        self.set_player(this, AVAudioPlayerHostObject { metering_enabled: enabled, ..p });
    }

    /// `[player volume]`
    pub fn volume(&self, this: id) -> (level: Level)
        ensures
            level == match self@.player(this).audio_queue {
                Some(queue) => Level::Ask { queue },
                None => Level::Known { level: self@.player(this).volume },
            },
    {
        let p: AVAudioPlayerHostObject = self.player(this);
        match p.audio_queue {
            Some(queue) => Level::Ask { queue },
            None => Level::Known { level: p.volume },
        }
    }

    /// `[player setVolume:]`. Returns the queue, whose volume is to be set too.
    pub fn set_volume(&mut self, this: id, volume: u32) -> (queue: Option<AudioQueueRef>)
        ensures
            queue == old(self)@.player(this).audio_queue,
            final(self)@ == old(self)@.with_player(
                this,
                AVAudioPlayerHostObject { volume, ..old(self)@.player(this) },
            ),
    {
        let p: AVAudioPlayerHostObject = self.player(this);
        self.set_player(this, AVAudioPlayerHostObject { volume, ..p });
        p.audio_queue
    }

    /// `[player pan]`
    pub fn pan(&self, this: id) -> (level: Level)
        ensures
            level == match self@.player(this).audio_queue {
                Some(queue) => Level::Ask { queue },
                None => Level::Known { level: self@.player(this).pan },
            },
    {
        let p: AVAudioPlayerHostObject = self.player(this);
        match p.audio_queue {
            Some(queue) => Level::Ask { queue },
            None => Level::Known { level: p.pan },
        }
    }

    /// `[player setPan:]`. Returns the pan that was set, and the queue, whose pan
    /// is to be set too.
    pub fn set_pan(&mut self, this: id, pan: u32) -> (r: (u32, Option<AudioQueueRef>))
        ensures
            r == (clamped(pan), old(self)@.player(this).audio_queue),
            final(self)@ == old(self)@.with_player(
                this,
                AVAudioPlayerHostObject { pan: clamped(pan), ..old(self)@.player(this) },
            ),
    {
        let pan: u32 = clamp(pan);
        let p: AVAudioPlayerHostObject = self.player(this);
        self.set_player(this, AVAudioPlayerHostObject { pan, ..p });
        (pan, p.audio_queue)
    }

    /// `[player play]`, once it was prepared. Returns the queue that is to be
    /// started; without one nothing can be played.
    pub fn play(&mut self, this: id) -> (queue: Option<AudioQueueRef>)
        ensures
            queue == old(self)@.player(this).audio_queue,
            final(self)@ == (if queue is Some {
                old(self)@.with_player(
                    this,
                    AVAudioPlayerHostObject { is_playing: true, ..old(self)@.player(this) },
                )
            } else {
                old(self)@
            }),
    {
        let p: AVAudioPlayerHostObject = self.player(this);
        if p.audio_queue.is_some() {
            self.set_player(this, AVAudioPlayerHostObject { is_playing: true, ..p });
        }
        p.audio_queue
    }

    /// The rest of `[player play]`, once the queue was started, with what came of
    /// that. Returns whether it plays.
    pub fn started(&mut self, this: id, status: i32) -> (r: bool)
        ensures
            r == (status == 0),
            final(self)@ == (if r {
                old(self)@
            } else {
                old(self)@.with_player(
                    this,
                    AVAudioPlayerHostObject { is_playing: false, ..old(self)@.player(this) },
                )
            }),
    {
        if status != 0 {
            let p: AVAudioPlayerHostObject = self.player(this);
            self.set_player(this, AVAudioPlayerHostObject { is_playing: false, ..p });
            return false;
        }
        true
    }

    /// `[player pause]`. Returns the queue that is to be paused.
    pub fn pause(&mut self, this: id) -> (queue: Option<AudioQueueRef>)
        ensures
            queue == old(self)@.player(this).audio_queue,
            final(self)@ == old(self)@.with_player(
                this,
                AVAudioPlayerHostObject { is_playing: false, ..old(self)@.player(this) },
            ),
    {
        let p: AVAudioPlayerHostObject = self.player(this);
        self.set_player(this, AVAudioPlayerHostObject { is_playing: false, ..p });
        p.audio_queue
    }

    /// `[player stop]`. Returns the queue that is to be disposed of, and the
    /// address of the buffers that are to be freed.
    pub fn stop(&mut self, this: id) -> (r: (Option<AudioQueueRef>, Option<u32>))
        ensures
            ({
                let p = old(self)@.player(this);
                if p.audio_queue is Some {
                    &&& r == (p.audio_queue, p.audio_queue_buffers)
                    &&& final(self)@ == old(self)@.with_player(this, stopped(p))
                } else {
                    r == (None::<AudioQueueRef>, None::<u32>) && final(self)@ == old(self)@
                }
            }),
    {
        let p: AVAudioPlayerHostObject = self.player(this);
        if p.audio_queue.is_none() {
            return (None, None);
        }
        let fresh: AVAudioPlayerHostObject = make_player(p.output_callback, ONE);
        self.set_player(
            this,
            AVAudioPlayerHostObject {
                audio_file_url: p.audio_file_url,
                num_of_loops: p.num_of_loops,
                audio_file_id: p.audio_file_id,
                delegate: p.delegate,
                metering_enabled: p.metering_enabled,
                ..fresh
            },
        );
        (p.audio_queue, p.audio_queue_buffers)
    }

    /// `[player setNumberOfLoops:]`
    pub fn set_number_of_loops(&mut self, this: id, number_of_loops: i32)
        ensures
            final(self)@ == old(self)@.with_player(
                this,
                AVAudioPlayerHostObject {
                    num_of_loops: number_of_loops,
                    ..old(self)@.player(this)
                },
            ),
    {
        let p: AVAudioPlayerHostObject = self.player(this);
        self.set_player(this, AVAudioPlayerHostObject { num_of_loops: number_of_loops, ..p });
    }

    /// The rest of `[player dealloc]`, once it was stopped. Returns the URL that
    /// is to be released, and the file that is to be closed.
    pub fn dealloc_player(&mut self, this: id) -> (r: (id, Option<AudioFileID>))
        ensures
            r == (old(self)@.player(this).audio_file_url, old(self)@.player(this).audio_file_id),
            final(self)@ == (AudioState {
                players: old(self)@.players.remove(this),
                ..old(self)@
            }),
    {
        let p: AVAudioPlayerHostObject = self.player(this);
        self.players.remove(&this);
        (p.audio_file_url, p.audio_file_id)
    }

    /// `[player setCurrentTime:]`, with the packet at which that is, which is
    /// known where the format and the file are.
    pub fn set_current_time(&mut self, this: id, time: u64, packet: i64)
        ensures
            ({
                let p = old(self)@.player(this);
                final(self)@ == old(self)@.with_player(
                    this,
                    AVAudioPlayerHostObject {
                        set_current_time: time,
                        current_packet: if p.audio_desc is Some && p.audio_file_id is Some {
                            packet
                        } else {
                            p.current_packet
                        },
                        ..p
                    },
                )
            }),
    {
        let p: AVAudioPlayerHostObject = self.player(this);
        let current_packet: i64 = if p.audio_desc.is_some() && p.audio_file_id.is_some() {
            packet
        } else {
            p.current_packet
        };
        self.set_player(
            this,
            AVAudioPlayerHostObject { set_current_time: time, current_packet, ..p },
        );
    }

    /// `[player numberOfChannels]`: 1 until the format is known.
    pub fn number_of_channels(&self, this: id) -> (n: u32)
        ensures
            n == match self@.player(this).audio_desc {
                Some(desc) => desc.channels_per_frame,
                None => 1,
            },
    {
        match self.player(this).audio_desc {
            Some(desc) => desc.channels_per_frame,
            None => 1,
        }
    }

    /// The recorder with this object.
    pub fn recorder(&self, this: id) -> (r: AVAudioRecorderHostObject)
        ensures
            r == self@.recorder(this),
    {
        match self.recorders.get(&this) {
            Some(r) => *r,
            None => AVAudioRecorderHostObject {
                url: nil,
                is_recording: false,
                metering_enabled: false,
                delegate: nil,
            },
        }
    }

    fn set_recorder(&mut self, this: id, r: AVAudioRecorderHostObject)
        ensures
            final(self)@ == old(self)@.with_recorder(this, r),
    {
        if self.recorders.contains_key(&this) {
            self.recorders.insert(this, r);
        }
    }

    /// `[AVAudioRecorder alloc]`, once the object is there.
    pub fn alloc_recorder(&mut self, this: id)
        ensures
            final(self)@ == (AudioState {
                recorders: old(self)@.recorders.insert(this, blank_recorder()),
                ..old(self)@
            }),
    {
        self.recorders.insert(
            this,
            AVAudioRecorderHostObject {
                url: nil,
                is_recording: false,
                metering_enabled: false,
                delegate: nil,
            },
        );
    }

    /// `[recorder initWithURL:settings:error:]`. Without a URL there is no
    /// recorder. The URL is to be retained, and no error is given in any case.
    pub fn init_recorder(&mut self, this: id, url: id) -> (r: id)
        ensures
            if url == nil {
                r == nil && final(self)@ == old(self)@
            } else {
                r == this && final(self)@ == old(self)@.with_recorder(
                    this,
                    AVAudioRecorderHostObject { url, ..old(self)@.recorder(this) },
                )
            },
    {
        if url == nil {
            return nil;
        }
        let r: AVAudioRecorderHostObject = self.recorder(this);
        self.set_recorder(this, AVAudioRecorderHostObject { url, ..r });
        this
    }

    /// `[recorder record]`, `[recorder pause]` and `[recorder stop]`. Nothing is
    /// recorded.
    pub fn set_recording(&mut self, this: id, is_recording: bool)
        ensures
            final(self)@ == old(self)@.with_recorder(
                this,
                AVAudioRecorderHostObject { is_recording, ..old(self)@.recorder(this) },
            ),
    {
        let r: AVAudioRecorderHostObject = self.recorder(this);
        self.set_recorder(this, AVAudioRecorderHostObject { is_recording, ..r });
    }

    /// `[recorder setMeteringEnabled:]`
    pub fn set_recorder_metering_enabled(&mut self, this: id, enabled: bool)
        ensures
            final(self)@ == old(self)@.with_recorder(
                this,
                AVAudioRecorderHostObject {
                    metering_enabled: enabled,
                    ..old(self)@.recorder(this)
                },
            ),
    {
        let r: AVAudioRecorderHostObject = self.recorder(this);
        self.set_recorder(this, AVAudioRecorderHostObject { metering_enabled: enabled, ..r });
    }

    /// `[recorder setDelegate:]`
    pub fn set_recorder_delegate(&mut self, this: id, delegate: id)
        ensures
            final(self)@ == old(self)@.with_recorder(
                this,
                AVAudioRecorderHostObject { delegate, ..old(self)@.recorder(this) },
            ),
    {
        let r: AVAudioRecorderHostObject = self.recorder(this);
        self.set_recorder(this, AVAudioRecorderHostObject { delegate, ..r });
    }

    /// `[recorder dealloc]`. Returns the URL that is to be released, unless it is
    /// nil.
    pub fn dealloc_recorder(&mut self, this: id) -> (url: id)
        ensures
            url == old(self)@.recorder(this).url,
            final(self)@ == (AudioState {
                recorders: old(self)@.recorders.remove(this),
                ..old(self)@
            }),
    {
        let r: AVAudioRecorderHostObject = self.recorder(this);
        self.recorders.remove(&this);
        r.url
    }
}

/// The number of packets in the data of a file that is being written.
pub fn written_packets(length: u64, bytes_per_packet: u32) -> (n: u64)
    ensures
        n == if bytes_per_packet > 0 {
            length / (bytes_per_packet as u64)
        } else {
            0
        },
{
    if bytes_per_packet > 0 {
        length / (bytes_per_packet as u64)
    } else {
        0
    }
}

/// The largest size of a buffer.
pub const MAX_BUFFER_SIZE: u32 = 0x50000;

/// The smallest size of a buffer.
pub const MIN_BUFFER_SIZE: u32 = 0x4000;

/// The size of the largest packet. It is never zero.
pub open spec fn packet_size(desc: AudioStreamBasicDescription, max_packet_size: u32) -> u32 {
    if max_packet_size > 0 {
        max_packet_size
    } else if desc.bytes_per_packet > 0 {
        desc.bytes_per_packet
    } else {
        1024
    }
}

/// The size of a buffer for so many packets, or for as many as possible where
/// packets have no fixed duration.
pub open spec fn wanted_buffer_size(
    desc: AudioStreamBasicDescription,
    max_packet_size: u32,
    packets: u32,
) -> int {
    let size = packet_size(desc, max_packet_size);
    if desc.frames_per_packet != 0 {
        packets * size
    } else if size < MAX_BUFFER_SIZE {
        MAX_BUFFER_SIZE as int
    } else {
        size as int
    }
}

/// The size of a buffer, within bounds. Only a single packet can make it exceed
/// the upper one.
pub open spec fn buffer_size(
    desc: AudioStreamBasicDescription,
    max_packet_size: u32,
    packets: u32,
) -> int {
    let wanted = wanted_buffer_size(desc, max_packet_size, packets);
    if wanted > MAX_BUFFER_SIZE && wanted > packet_size(desc, max_packet_size) {
        MAX_BUFFER_SIZE as int
    } else if wanted < MIN_BUFFER_SIZE {
        MIN_BUFFER_SIZE as int
    } else {
        wanted
    }
}

/// Whether a buffer for so many packets has a size at all.
pub fn buffer_fits(desc: AudioStreamBasicDescription, max_packet_size: u32, packets: u32) -> (b:
    bool)
    ensures
        b == (wanted_buffer_size(desc, max_packet_size, packets) <= u32::MAX),
{
    let size: u32 = if max_packet_size > 0 {
        max_packet_size
    } else if desc.bytes_per_packet > 0 {
        desc.bytes_per_packet
    } else {
        1024
    };
    desc.frames_per_packet == 0 || packets.checked_mul(size).is_some()
}

/// The size of a buffer, and the number of packets to read into it. `packets` is
/// how many packets the wanted duration takes.
pub fn derive_buffer_size(
    desc: AudioStreamBasicDescription,
    max_packet_size: u32,
    packets: u32,
) -> (r: (u32, u32))
    requires
        wanted_buffer_size(desc, max_packet_size, packets) <= u32::MAX,
    ensures
        r.0 == buffer_size(desc, max_packet_size, packets),
        r.1 == buffer_size(desc, max_packet_size, packets) / (packet_size(
            desc,
            max_packet_size,
        ) as int),
{
    let size: u32 = if max_packet_size > 0 {
        max_packet_size
    } else if desc.bytes_per_packet > 0 {
        desc.bytes_per_packet
    } else {
        1024
    };
    let mut buffer: u32 = if desc.frames_per_packet != 0 {
        proof {
            assert(packets * size >= 0) by (nonlinear_arith);
        }
        packets * size
    } else if size < MAX_BUFFER_SIZE {
        MAX_BUFFER_SIZE
    } else {
        size
    };
    if buffer > MAX_BUFFER_SIZE && buffer > size {
        buffer = MAX_BUFFER_SIZE;
    } else if buffer < MIN_BUFFER_SIZE {
        buffer = MIN_BUFFER_SIZE;
    }
    (buffer, buffer / size)
}

/// The packets that are read into a buffer fit there, and no further one would.
/// The buffer has at least the smallest size.
pub proof fn law_packets_fit(
    desc: AudioStreamBasicDescription,
    max_packet_size: u32,
    packets: u32,
)
    ensures
        ({
            let size = packet_size(desc, max_packet_size) as int;
            let buffer = buffer_size(desc, max_packet_size, packets);
            &&& size > 0
            &&& buffer >= MIN_BUFFER_SIZE
            &&& buffer <= MAX_BUFFER_SIZE || buffer == size
            &&& 0 <= (buffer / size) * size <= buffer < (buffer / size + 1) * size
        }),
{
    let size = packet_size(desc, max_packet_size) as int;
    let buffer = buffer_size(desc, max_packet_size, packets);
    let wanted = wanted_buffer_size(desc, max_packet_size, packets);
    assert(packets * size >= 0) by (nonlinear_arith)
        requires
            size > 0,
    ;
    assert(0 <= (buffer / size) * size <= buffer < (buffer / size + 1) * size)
        by (nonlinear_arith)
        requires
            size > 0,
            buffer >= 0,
    ;
    if desc.frames_per_packet != 0 {
        assert(packets * size == 0 || packets * size >= size) by (nonlinear_arith)
            requires
                size > 0,
        ;
    }
}

/// A player that was stopped keeps its file, its loops, its delegate and its
/// metering, and is as new otherwise; stopping it again changes nothing.
pub proof fn law_stopped(p: AVAudioPlayerHostObject)
    ensures
        stopped(p).audio_queue is None,
        !stopped(p).is_playing,
        stopped(p).audio_file_url == p.audio_file_url,
        stopped(p).audio_file_id == p.audio_file_id,
        stopped(p).num_of_loops == p.num_of_loops,
        stopped(p).delegate == p.delegate,
        stopped(p).metering_enabled == p.metering_enabled,
        stopped(stopped(p)) == stopped(p),
{
}

/// A pan that was set is in the range from -1.0 to 1.0, unless it is not a
/// number; one in that range is kept.
pub proof fn law_pan_in_range(bits: u32)
    ensures
        clamped(bits) % 0x8000_0000 <= ONE || bits % 0x8000_0000 > 0x7F80_0000,
        bits % 0x8000_0000 <= ONE ==> clamped(bits) == bits,
        clamped(clamped(bits)) == clamped(bits),
{
}

} // verus!
