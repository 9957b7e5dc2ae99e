use xai_dict::config::{Config, Provider};
use xai_dict::pipeline::{default_source_hint, engine_for, Engine};
use xai_dict::session::{
    batch_part, finish_and_deliver, finish_batch, preload, start_recording, Begin, Commit,
    DualWorker, Finish, FinishError, Joined, Mode, Models, Next, PhraseWorker, Preload, StartError,
    StreamOutcome,
};
use xai_dict::stream_vad::SpeechLevel;

const ALL: Models = Models { qwen3: true, whisper: true, stream: true };

fn cfg() -> Config {
    Config::defaults(Some("/data"), Some(16))
}

fn loud(bytes: usize) -> Vec<u8> {
    (0..bytes).map(|i| if i % 2 == 0 { 0 } else { 0x10 }).collect()
}

fn level(rms_milli: u32) -> SpeechLevel {
    SpeechLevel { rms_milli, snr_milli: 2400, floor_milli: 0 }
}

#[test]
fn speech_is_louder_than_the_room() {
    let c = cfg();
    let with = |snr_milli: u32, floor_milli: u32| {
        let level = SpeechLevel { rms_milli: 520_000, snr_milli, floor_milli };
        start_recording(&c, ALL, level).unwrap().vad.speech_rms_milli
    };
    assert_eq!(with(2400, 0), 520_000);
    assert_eq!(with(2400, 216_000), 520_000);
    assert_eq!(with(2400, 300_000), 720_000);
    assert_eq!(with(2400, 300_001), 720_003);
    assert_eq!(with(1000, 900_000), 520_000);
    assert_eq!(with(1001, 900_000), 900_900);
    assert_eq!(with(u32::MAX, u32::MAX), u32::MAX);
}

#[test]
fn recording_modes() {
    let mut c = cfg();
    assert_eq!(start_recording(&c, ALL, level(520_000)).unwrap().mode, Mode::Dual);
    let none = Models { stream: false, ..ALL };
    assert_eq!(start_recording(&c, none, level(520_000)).unwrap().mode, Mode::Streaming);
    c.dual_model = false;
    assert_eq!(start_recording(&c, ALL, level(520_000)).unwrap().mode, Mode::Streaming);
    c.stream = false;
    assert_eq!(start_recording(&c, ALL, level(520_000)).unwrap().mode, Mode::Plain);
    c.stream = true;
    c.provider = Provider::Xai;
    assert_eq!(start_recording(&c, ALL, level(520_000)).unwrap().mode, Mode::Plain);
}

#[test]
fn recording_plan() {
    let mut c = cfg();
    c.input_device = "  usb mic ".into();
    let p = start_recording(&c, ALL, level(520_000)).unwrap();
    assert_eq!(p.device.as_deref(), Some("usb mic"));
    assert_eq!(p.vad.min_speech_ms, 300);
    assert_eq!(p.vad.min_silence_ms, 600);
    assert_eq!(p.vad.max_segment_ms, 12_000);
    assert_eq!(p.vad.speech_rms_milli, 520_000);
    assert_eq!(p.vad.frame_ms, 30);
    assert_eq!(f64::from_bits(p.snr), 2.4);
    assert_eq!((p.gates.min_peak, p.gates.min_rms_milli), (900, 280_000));
    assert_eq!(f64::from_bits(p.tune.agc_max_gain), 4.0);
    assert_eq!(p.tune.preedit_min_rms_milli, 0);
    c.near_field = false;
    c.input_device = " ".into();
    c.stream_min_speech_ms = 100;
    let p = start_recording(&c, ALL, level(320_000)).unwrap();
    assert_eq!(p.device, None);
    assert_eq!(p.vad.min_speech_ms, 250);
    assert_eq!((p.gates.min_peak, p.gates.min_rms_milli), (350, 150_000));
    assert_eq!(f64::from_bits(p.tune.agc_max_gain), 12.0);
}

#[test]
fn recording_needs_its_model() {
    let mut c = cfg();
    let none = Models { qwen3: false, whisper: false, stream: false };
    let e = start_recording(&c, none, level(0)).unwrap_err();
    assert_eq!(e, StartError::Qwen3NotReady);
    assert_eq!(
        e.message(&c),
        "Qwen3 model not ready: /data/xai-dict/models/sherpa-onnx-qwen3-asr-0.6B-int8-2026-03-25"
    );
    c.provider = Provider::Local;
    let e = start_recording(&c, none, level(0)).unwrap_err();
    assert_eq!(e, StartError::WhisperMissing);
    assert_eq!(e.message(&c), "whisper model not found: /data/xai-dict/models/ggml-small.bin");
    c.provider = Provider::Xai;
    assert!(start_recording(&c, none, level(0)).is_ok());
}

#[test]
fn what_is_loaded_ahead() {
    let mut c = cfg();
    assert_eq!(preload(&c, true), (true, Preload::Yes));
    assert_eq!(preload(&c, false), (true, Preload::Missing));
    c.dual_model = false;
    c.provider = Provider::Local;
    assert_eq!(preload(&c, true), (false, Preload::No));
}

#[test]
fn phrases_one_by_one() {
    let mut w = PhraseWorker::new();
    assert!(matches!(w.heard(Some("  ")), Next::Skip));
    assert!(matches!(w.heard(None), Next::Skip));
    assert_eq!(w.dropped, 2);
    let Next::Commit(t) = w.heard(Some(" hello ")) else { panic!() };
    assert_eq!(t, "hello");
    w.said(&t, Commit::Kept);
    assert!(w.first);
    w.said("world", Commit::OnScreen);
    assert!(!w.first);
    w.said("gone", Commit::Lost);
    let o = w.outcome();
    assert_eq!((o.committed.as_str(), o.phrases), ("hello world", 2));
}

#[test]
fn provisional_and_final_text() {
    let mut w = DualWorker::new(16_000, true);
    assert_eq!(w.begin(true), Begin::Listen);
    assert_eq!(w.guessed(" 今天 ", 80).as_deref(), Some("今天"));
    assert_eq!(w.first_preedit_ms, Some(80));
    assert_eq!(w.guessed("今天", 90), None);
    assert_eq!(w.guessed("今天天气", 100).as_deref(), Some("今天天气"));
    assert_eq!(w.first_preedit_ms, Some(80));
    let Next::Commit(t) = w.heard(Some(" 今天天气好 "), 64_000) else { panic!() };
    assert_eq!(t, "今天天气好");
    assert_eq!((w.shown.as_str(), w.last_partial.as_str(), w.pending_hits), ("", "", 0));
    w.said(&t, Commit::OnScreen);
    // Nothing heard: a short provisional text stands in.
    w.guessed("你好", 200);
    let Next::Commit(t) = w.heard(None, 16_000) else { panic!() };
    assert_eq!(t, "你好");
    assert_eq!(w.dropped, 1);
    w.said(&t, Commit::Lost);
    assert!(matches!(w.heard(Some(" "), 16_000), Next::Skip));
    let o = w.outcome();
    assert_eq!((o.committed.as_str(), o.phrases), ("今天天气好", 1));
}

#[test]
fn a_repeated_guess_is_shown() {
    let mut w = DualWorker::new(16_000, true);
    assert_eq!(w.guessed("今天天气", 10).as_deref(), Some("今天天气"));
    assert_eq!(w.guessed("完全不同", 20), None);
    assert_eq!(w.guessed("完全不同", 30).as_deref(), Some("完全不同"));
    assert_eq!(w.guessed("又是别的", 40), None);
    assert_eq!(w.guessed(" ", 50), None);
    assert_eq!(w.guessed("又是别的", 60), None);
    assert_eq!(w.guessed("又是别的", 70).as_deref(), Some("又是别的"));
}

#[test]
fn provisional_text_can_be_hidden() {
    let mut w = DualWorker::new(16_000, false);
    assert_eq!(w.guessed("你好", 1), None);
    assert_eq!(w.last_partial, "你好");
    assert_eq!(w.first_preedit_ms, None);
}

#[test]
fn streaming_recogniser_is_restarted_twice() {
    let mut w = DualWorker::new(16_000, true);
    assert_eq!(w.begin(false), Begin::Recover);
    assert_eq!(w.begin_again(true), Begin::Listen);
    assert!(w.failed());
    w.recovered(false);
    assert!(w.failed());
    w.recovered(true);
    assert!(!w.failed());
    assert_eq!((w.restarts, w.dropped), (2, 3));
    let mut w = DualWorker::new(16_000, true);
    assert_eq!(w.begin_again(false), Begin::PhrasesOnly);
}

fn done(t: &str) -> Joined {
    Joined::Done(StreamOutcome { committed: t.into(), phrases: 1 })
}

#[test]
fn endings() {
    let pcm = loud(32_000);
    assert!(matches!(finish_and_deliver(false, Joined::NoWorker, 16_000, &pcm), Finish::Batch));
    let f = finish_and_deliver(true, done("你好"), 16_000, &pcm);
    assert!(matches!(f, Finish::Return(t) if t == "你好"));
    let f = finish_and_deliver(true, Joined::Crashed, 16_000, &pcm);
    assert!(matches!(f, Finish::Fail(FinishError::WorkerCrashed)));
    assert!(matches!(finish_and_deliver(true, done(""), 16_000, &pcm), Finish::Batch));
    assert!(matches!(finish_and_deliver(true, Joined::NoWorker, 16_000, &pcm), Finish::Batch));
    let f = finish_and_deliver(true, done(""), 16_000, &pcm[..15_998]);
    assert!(matches!(f, Finish::Fail(FinishError::TooShort)));
    let f = finish_and_deliver(true, done(""), 16_000, &vec![0u8; 16_000]);
    assert!(matches!(f, Finish::Fail(FinishError::NoSignal { peak: 0 })));
}

#[test]
fn recordings_as_a_whole() {
    let pcm: Vec<u8> = (0..2_000).map(|i| i as u8).collect();
    assert_eq!(batch_part(10, &pcm), &pcm[2_000 - 1_200..]);
    assert_eq!(batch_part(16_000, &pcm), &pcm[..]);
    assert_eq!(finish_batch("你好".into(), 0, 16_000, 0), Ok("你好".into()));
    assert_eq!(finish_batch(String::new(), 47_999, 16_000, 900), Err(FinishError::TooShort));
    assert_eq!(finish_batch(String::new(), 48_000, 16_000, 199), Err(FinishError::Weak { peak: 199 }));
    assert_eq!(
        finish_batch(String::new(), 48_000, 16_000, 200),
        Err(FinishError::NoSpeech { peak: 200 })
    );
}

#[test]
fn who_recognises() {
    let mut c = cfg();
    assert_eq!(engine_for(&c, true), Engine::Qwen3);
    assert_eq!(engine_for(&c, false), Engine::NotReady);
    c.provider = Provider::Local;
    assert_eq!(engine_for(&c, false), Engine::Whisper { to_simplified: true });
    c.language = "en".into();
    assert_eq!(engine_for(&c, false), Engine::Whisper { to_simplified: false });
    c.provider = Provider::Xai;
    assert_eq!(engine_for(&c, false), Engine::Xai);
    assert_eq!(default_source_hint(Some(" alsa_input.usb \n")), "，当前输入=alsa_input.usb");
    assert_eq!(default_source_hint(Some("\n")), "");
    assert_eq!(default_source_hint(None), "");
}
