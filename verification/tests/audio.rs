//! Audio players.
use touchhle::environment::{Environment, FrameworkState, LibcState};
use touchhle::frameworks::avfoundation::audio_output::{
    _touchHLE_AVAudioPlayerOutputBufferHelper, OutputAction, OutputReply,
};
use touchhle::frameworks::avfoundation::audio_prepare::{
    prepare_to_play, PrepareAction, PrepareReply,
};
use touchhle::frameworks::avfoundation::av_audio_player::{
    self, buffer_fits, derive_buffer_size, written_packets, AudioStreamBasicDescription, Level, MAX_BUFFER_SIZE,
    MIN_BUFFER_SIZE, MINUS_ONE, ONE,
};
use touchhle::frameworks::{opengles, uikit::ui_touch};
use touchhle::guest_console::Console;
use touchhle::libc::errno;
use touchhle::mem::Mem;
use touchhle::objc::classes::{nil, Class, ClassTemplate, ObjC};
use touchhle::objc::runtime::register_host_selector;

const PLAYER: u32 = 0x400;
const DESC: AudioStreamBasicDescription = AudioStreamBasicDescription {
    sample_rate: 0,
    bytes_per_packet: 4,
    frames_per_packet: 1,
    channels_per_frame: 2,
};

fn environment() -> (Environment, Class) {
    let template = |name: &str, superclass: Option<&str>| ClassTemplate {
        name: name.as_bytes().to_vec(),
        superclass: superclass.map(|s| s.as_bytes().to_vec()),
        class_methods: Vec::new(),
        instance_methods: Vec::new(),
    };
    let templates = vec![template("NSObject", None), template("AVAudioPlayer", Some("NSObject"))];
    let mut env = Environment {
        mem: Mem::new(0x10000),
        objc: ObjC::new(templates),
        libc_state: LibcState { errno: errno::State::default(), ctype_locale: 0 },
        framework_state: FrameworkState {
            ui_touch: ui_touch::State::default(),
            opengles: opengles::State::default(),
            av_audio_player: av_audio_player::State::default(),
        },
        console: Console::new(),
        current_thread: 0,
    };
    let class = env.objc.link_class("AVAudioPlayer", false, &mut env.mem);
    env.framework_state.av_audio_player.alloc_player(PLAYER, 0x7001);
    (env, class)
}

/// A player that plays with queue 8.
fn playing(num_packets: u32) -> (Environment, Class) {
    let (mut env, class) = environment();
    let audio = &mut env.framework_state.av_audio_player;
    assert_eq!(audio.init_with_contents_of_url(PLAYER, 0x500, 3, 0), PLAYER);
    let (mut prepare, mut action) = prepare_to_play(&env, PLAYER);
    loop {
        let reply = match action {
            PrepareAction::DataFormat { file } => {
                assert_eq!(file, 3);
                PrepareReply::Format { desc: DESC }
            }
            PrepareAction::NewOutput { desc, callback, player } => {
                assert_eq!((desc, callback, player), (DESC, 0x7001, PLAYER));
                PrepareReply::Queue { queue: 8 }
            }
            PrepareAction::SetVolume { volume, .. } => {
                assert_eq!(volume, ONE);
                PrepareReply::Done
            }
            PrepareAction::SetCurrentTime { time, .. } => {
                assert_eq!(time, 0);
                PrepareReply::Done
            }
            PrepareAction::PacketSizes { file, desc } => {
                assert_eq!((file, desc), (3, DESC));
                PrepareReply::Sizes { max_packet_size: 4, packets: 0x2000 }
            }
            PrepareAction::AllocateBuffer { queue, size, at } => {
                assert_eq!((queue, size), (8, 0x8000));
                env.mem.write_u32(at, at + 0x1000);
                PrepareReply::Done
            }
            PrepareAction::Output { action } => PrepareReply::Output {
                reply: match action {
                    OutputAction::ClassOf { .. } => OutputReply::Object { object: class },
                    OutputAction::ReadPackets { count, .. } => {
                        assert_eq!(count, 0x2000);
                        OutputReply::Packets { num_packets, num_bytes: 4 * num_packets }
                    }
                    OutputAction::Enqueue { num_bytes, .. } => {
                        assert_eq!(num_bytes, 4 * num_packets);
                        OutputReply::Done
                    }
                    OutputAction::StopQueue { .. } => OutputReply::Done,
                    _ => panic!("unexpected"),
                },
            },
            PrepareAction::Finish => break,
        };
        action = prepare.resume(&mut env, reply).unwrap();
    }
    (env, class)
}

#[test]
fn sizes_of_buffers() {
    // Half a second of packets.
    assert_eq!(derive_buffer_size(DESC, 4, 22050), (88200, 22050));
    // Too few and too many.
    assert_eq!(derive_buffer_size(DESC, 4, 10), (MIN_BUFFER_SIZE, MIN_BUFFER_SIZE / 4));
    assert_eq!(derive_buffer_size(DESC, 4, 1_000_000), (MAX_BUFFER_SIZE, MAX_BUFFER_SIZE / 4));
    // The size of a packet comes from the format, or is made up.
    assert_eq!(derive_buffer_size(DESC, 0, 22050), (88200, 22050));
    let unknown = AudioStreamBasicDescription { bytes_per_packet: 0, ..DESC };
    assert_eq!(derive_buffer_size(unknown, 0, 100), (102400, 100));
    // Packets without a fixed duration.
    let variable = AudioStreamBasicDescription { frames_per_packet: 0, ..DESC };
    assert_eq!(derive_buffer_size(variable, 1000, 0), (MAX_BUFFER_SIZE, 327));
    assert_eq!(derive_buffer_size(variable, 0x60000, 0), (0x60000, 1));
    assert_eq!(derive_buffer_size(DESC, 0x60000, 1), (0x60000, 1));
    assert_eq!(derive_buffer_size(DESC, 0x60000, 2), (MAX_BUFFER_SIZE, 0));
}

#[test]
fn buffers_that_fit() {
    assert!(buffer_fits(DESC, 4, 0x3FFF_FFFF));
    assert!(!buffer_fits(DESC, 4, 0x4000_0000));
    let variable = AudioStreamBasicDescription { frames_per_packet: 0, ..DESC };
    assert!(buffer_fits(variable, 4, u32::MAX));
    let unknown = AudioStreamBasicDescription { bytes_per_packet: 0, ..DESC };
    assert!(buffer_fits(unknown, 0, 0x3F_FFFF));
    assert!(!buffer_fits(unknown, 0, 0x40_0000));
}

#[test]
fn packets_of_files() {
    assert_eq!(written_packets(100, 8), 12);
    assert_eq!(written_packets(100, 0), 0);
}

#[test]
fn players_are_prepared() {
    let (env, _) = playing(0x1000);
    let p = env.framework_state.av_audio_player.player(PLAYER);
    assert_eq!(p.audio_queue, Some(8));
    assert_eq!(p.audio_desc, Some(DESC));
    assert_eq!(p.num_packets_to_read, 0x2000);
    assert_eq!(p.current_packet, 3 * 0x1000);
    assert!(!p.is_playing);
    let buffers = p.audio_queue_buffers.unwrap();
    assert_eq!(env.mem.read_u32(buffers + 8), buffers + 8 + 0x1000);
    assert_eq!(env.framework_state.av_audio_player.number_of_channels(PLAYER), 2);
    // Once is enough.
    let (mut prepare, action) = prepare_to_play(&env, PLAYER);
    assert_eq!(action, PrepareAction::Finish);
    let mut env = env;
    assert_eq!(prepare.resume(&mut env, PrepareReply::Done), None);
    // Without a file there is nothing to prepare.
    assert_eq!(prepare_to_play(&env, 0x999).1, PrepareAction::Finish);
}

#[test]
fn players_play_pause_and_stop() {
    let (mut env, _) = playing(0x1000);
    let audio = &mut env.framework_state.av_audio_player;
    assert_eq!(audio.play(PLAYER), Some(8));
    assert!(audio.player(PLAYER).is_playing);
    assert!(audio.started(PLAYER, 0));
    assert!(audio.player(PLAYER).is_playing);
    assert_eq!(audio.pause(PLAYER), Some(8));
    assert!(!audio.player(PLAYER).is_playing);
    audio.play(PLAYER);
    assert!(!audio.started(PLAYER, -50));
    assert!(!audio.player(PLAYER).is_playing);
    audio.set_number_of_loops(PLAYER, 4);
    audio.set_delegate(PLAYER, 0x600);
    audio.set_metering_enabled(PLAYER, true);
    let buffers = audio.player(PLAYER).audio_queue_buffers;
    assert_eq!(audio.stop(PLAYER), (Some(8), buffers));
    let p = audio.player(PLAYER);
    assert_eq!((p.audio_queue, p.audio_desc, p.current_packet), (None, None, 0));
    assert_eq!((p.audio_file_id, p.audio_file_url), (Some(3), 0x500));
    assert_eq!((p.num_of_loops, p.delegate, p.metering_enabled), (4, 0x600, true));
    assert_eq!(p.volume, ONE);
    assert_eq!(audio.stop(PLAYER), (None, None));
    assert_eq!(audio.play(PLAYER), None);
    assert_eq!(audio.number_of_channels(PLAYER), 1);
    assert_eq!(audio.dealloc_player(PLAYER), (0x500, Some(3)));
    assert_eq!(audio.player(PLAYER).audio_file_id, None);
}

#[test]
fn files_that_cannot_be_opened() {
    let (mut env, _) = environment();
    let audio = &mut env.framework_state.av_audio_player;
    assert_eq!(audio.init_with_contents_of_url(PLAYER, 0x500, 0, -43), nil);
    audio.alloc_player(0x410, 0);
    assert_eq!(audio.init_with_data(0x410, None), nil);
    assert_eq!(audio.player(0x410).audio_file_id, None);
    assert_eq!(audio.init_with_data(0x410, Some(9)), 0x410);
    assert_eq!(audio.player(0x410).audio_file_id, Some(9));
}

#[test]
fn levels() {
    let (mut env, _) = environment();
    let audio = &mut env.framework_state.av_audio_player;
    assert_eq!(audio.volume(PLAYER), Level::Known { level: ONE });
    assert_eq!(audio.set_volume(PLAYER, 0.25f32.to_bits()), None);
    assert_eq!(audio.volume(PLAYER), Level::Known { level: 0.25f32.to_bits() });
    assert_eq!(audio.pan(PLAYER), Level::Known { level: 0 });
    for (pan, wanted) in [(-3.0f32, -1.0f32), (3.0, 1.0), (0.5, 0.5), (-0.5, -0.5), (-0.0, -0.0)] {
        assert_eq!(audio.set_pan(PLAYER, pan.to_bits()), (wanted.to_bits(), None));
        assert_eq!(pan.clamp(-1.0, 1.0).to_bits(), wanted.to_bits());
    }
    assert_eq!(audio.set_pan(PLAYER, f32::INFINITY.to_bits()).0, ONE);
    assert_eq!(audio.set_pan(PLAYER, f32::NEG_INFINITY.to_bits()).0, MINUS_ONE);
    assert_eq!(audio.set_pan(PLAYER, f32::NAN.to_bits()).0, f32::NAN.to_bits());
    let (mut env, _) = playing(1);
    let audio = &mut env.framework_state.av_audio_player;
    assert_eq!(audio.volume(PLAYER), Level::Ask { queue: 8 });
    assert_eq!(audio.pan(PLAYER), Level::Ask { queue: 8 });
    assert_eq!(audio.set_volume(PLAYER, ONE), Some(8));
    assert_eq!(audio.set_pan(PLAYER, ONE), (ONE, Some(8)));
}

#[test]
fn times() {
    let (mut env, _) = environment();
    let audio = &mut env.framework_state.av_audio_player;
    audio.set_current_time(PLAYER, 77, 5);
    assert_eq!(audio.player(PLAYER).set_current_time, 77);
    assert_eq!(audio.player(PLAYER).current_packet, 0);
    let (mut env, _) = playing(1);
    let audio = &mut env.framework_state.av_audio_player;
    audio.set_current_time(PLAYER, 77, 5);
    assert_eq!(audio.player(PLAYER).current_packet, 5);
}

#[test]
fn buffers_are_filled() {
    let (mut env, class) = playing(0x1000);
    env.framework_state.av_audio_player.play(PLAYER);
    let (mut output, action) = _touchHLE_AVAudioPlayerOutputBufferHelper(&env, PLAYER, 8, 0x9000);
    assert_eq!(action, OutputAction::ClassOf { object: PLAYER });
    assert_eq!(output.resume(&mut env, OutputReply::Done), None);
    assert_eq!(
        output.resume(&mut env, OutputReply::Object { object: class }),
        Some(OutputAction::ReadPackets { file: 3, packet: 0x3000, count: 0x2000, buffer: 0x9000 })
    );
    assert_eq!(
        output.resume(&mut env, OutputReply::Packets { num_packets: 7, num_bytes: 28 }),
        Some(OutputAction::Enqueue { queue: 8, buffer: 0x9000, num_bytes: 28 })
    );
    assert_eq!(output.resume(&mut env, OutputReply::Done), Some(OutputAction::Finish));
    assert_eq!(env.framework_state.av_audio_player.player(PLAYER).current_packet, 0x3007);
}

#[test]
fn calls_for_what_is_no_player_are_ignored() {
    let (mut env, class) = playing(0x1000);
    let (_, action) = _touchHLE_AVAudioPlayerOutputBufferHelper(&env, nil, 8, 0x9000);
    assert_eq!(action, OutputAction::Finish);
    let root = env.objc.link_class("NSObject", false, &mut env.mem);
    for object in [nil, root] {
        let (mut output, _) = _touchHLE_AVAudioPlayerOutputBufferHelper(&env, PLAYER, 8, 0x9000);
        assert_eq!(
            output.resume(&mut env, OutputReply::Object { object }),
            Some(OutputAction::Finish)
        );
    }
    // It does not play, or plays with another queue, or is gone.
    let asked = |env: &mut Environment, player, queue| {
        let (mut output, _) = _touchHLE_AVAudioPlayerOutputBufferHelper(env, player, queue, 0x9000);
        output.resume(env, OutputReply::Object { object: class })
    };
    assert_eq!(asked(&mut env, PLAYER, 8), Some(OutputAction::Finish));
    env.framework_state.av_audio_player.play(PLAYER);
    assert!(matches!(asked(&mut env, PLAYER, 8), Some(OutputAction::ReadPackets { .. })));
    assert_eq!(asked(&mut env, PLAYER, 9), Some(OutputAction::Finish));
    assert_eq!(asked(&mut env, 0x999, 8), Some(OutputAction::Finish));
}

#[test]
fn the_end_of_a_file() {
    let end = OutputReply::Packets { num_packets: 0, num_bytes: 0 };
    let (mut env, class) = playing(0x1000);
    let audio = &mut env.framework_state.av_audio_player;
    audio.play(PLAYER);
    audio.set_number_of_loops(PLAYER, 1);
    audio.set_delegate(PLAYER, 0x600);
    let (mut output, _) = _touchHLE_AVAudioPlayerOutputBufferHelper(&env, PLAYER, 8, 0x9000);
    output.resume(&mut env, OutputReply::Object { object: class });
    // One loop is left, so it starts over.
    assert_eq!(output.resume(&mut env, end), Some(OutputAction::ClassOf { object: PLAYER }));
    assert_eq!(env.framework_state.av_audio_player.player(PLAYER).num_of_loops, 0);
    assert!(matches!(
        output.resume(&mut env, OutputReply::Object { object: class }),
        Some(OutputAction::ReadPackets { packet: 0, .. })
    ));
    assert_eq!(output.resume(&mut env, end), Some(OutputAction::StopQueue { queue: 8 }));
    let mut quiet = output;
    // The delegate is told if it knows the message.
    let sel = register_host_selector(&mut env, "audioPlayerDidFinishPlaying:successfully:");
    assert_eq!(
        output.resume(&mut env, OutputReply::Done),
        Some(OutputAction::RespondsToSelector { object: 0x600, sel })
    );
    assert!(!env.framework_state.av_audio_player.player(PLAYER).is_playing);
    assert_eq!(
        output.resume(&mut env, OutputReply::Flag { flag: true }),
        Some(OutputAction::DidFinishPlaying { delegate: 0x600, player: PLAYER })
    );
    assert_eq!(output.resume(&mut env, OutputReply::Done), Some(OutputAction::Finish));
    quiet.resume(&mut env, OutputReply::Done);
    assert_eq!(
        quiet.resume(&mut env, OutputReply::Flag { flag: false }),
        Some(OutputAction::Finish)
    );
}

#[test]
fn endless_loops() {
    let end = OutputReply::Packets { num_packets: 0, num_bytes: 0 };
    let (mut env, class) = playing(0x1000);
    let audio = &mut env.framework_state.av_audio_player;
    audio.play(PLAYER);
    audio.set_number_of_loops(PLAYER, -1);
    let (mut output, _) = _touchHLE_AVAudioPlayerOutputBufferHelper(&env, PLAYER, 8, 0x9000);
    for _ in 0..3 {
        output.resume(&mut env, OutputReply::Object { object: class });
        assert_eq!(output.resume(&mut env, end), Some(OutputAction::ClassOf { object: PLAYER }));
    }
    assert_eq!(env.framework_state.av_audio_player.player(PLAYER).num_of_loops, -1);
    assert_eq!(env.framework_state.av_audio_player.player(PLAYER).current_packet, 0);
}

#[test]
fn recorders() {
    let (mut env, _) = environment();
    let audio = &mut env.framework_state.av_audio_player;
    audio.alloc_recorder(0x700);
    assert_eq!(audio.init_recorder(0x700, nil), nil);
    assert_eq!(audio.init_recorder(0x700, 0x500), 0x700);
    audio.set_recording(0x700, true);
    audio.set_recorder_metering_enabled(0x700, true);
    audio.set_recorder_delegate(0x700, 0x600);
    let r = audio.recorder(0x700);
    assert_eq!((r.url, r.is_recording, r.metering_enabled, r.delegate), (0x500, true, true, 0x600));
    audio.set_recording(0x700, false);
    assert!(!audio.recorder(0x700).is_recording);
    assert_eq!(audio.dealloc_recorder(0x700), 0x500);
    assert_eq!(audio.recorder(0x700).url, nil);
}
