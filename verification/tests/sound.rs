use xai_dict::capture::{align, measured};
use xai_dict::pipeline::{
    check_segment, check_take, CaptureTune, DualEvent, LiveCapture, Outlet, SegmentError, TakeError,
};
use xai_dict::stream_vad::{
    is_loud, vad_fits, PhraseGates, Segmenter, SpeechLevel, VadConfig,
};
use xai_dict::wav::{pcm16_levels, pcm16_normalize, write_pcm16_mono_wav, Normalize};

fn tone(samples: usize, amp: i16) -> Vec<u8> {
    let mut out = Vec::with_capacity(samples * 2);
    for i in 0..samples {
        let s = if (i / 40) % 2 == 0 { amp } else { -amp };
        out.extend_from_slice(&s.to_le_bytes());
    }
    out
}

fn silence(samples: usize) -> Vec<u8> {
    vec![0u8; samples * 2]
}

fn vad() -> VadConfig {
    VadConfig {
        sample_rate: 16_000,
        frame_ms: 30,
        speech_rms_milli: 500_000,
        min_silence_ms: 300,
        min_speech_ms: 200,
        max_segment_ms: 10_000,
    }
}

#[test]
fn segments_on_silence() {
    let mut s = Segmenter::new(VadConfig {
        sample_rate: 16_000,
        frame_ms: 30,
        speech_rms_milli: 500_000,
        min_silence_ms: 300,
        min_speech_ms: 200,
        max_segment_ms: 10_000,
    });
    // 0.5s speech + 0.5s silence
    let segs = s.push(&tone(8000, 8000));
    assert!(segs.is_empty(), "no segment until silence");
    let segs = s.push(&silence(8000));
    assert_eq!(segs.len(), 1);
    assert!(segs[0].pcm.len() > 1000);
}

#[test]
fn segment_ends_where_silence_begins() {
    let mut s = Segmenter::new(vad());
    // 17 whole frames of speech, the last one a third full.
    s.push(&tone(8000, 8000));
    let segs = s.push(&silence(8000));
    assert_eq!(segs[0].pcm.len(), 17 * 960);
}

#[test]
fn short_and_quiet_sound_makes_no_segment() {
    let mut s = Segmenter::new(vad());
    let mut segs = s.push(&tone(1600, 8000));
    segs.extend(s.push(&silence(8000)));
    assert!(segs.is_empty());
    let mut s = Segmenter::new(vad());
    let mut segs = s.push(&tone(8000, 300));
    segs.extend(s.push(&silence(8000)));
    assert!(segs.is_empty());
    assert!(s.flush().is_none());
}

#[test]
fn long_speech_is_cut() {
    let mut cfg = vad();
    cfg.max_segment_ms = 600;
    let mut s = Segmenter::new(cfg);
    let segs = s.push(&tone(16_000, 8000));
    assert_eq!(segs.len(), 1);
    assert_eq!(segs[0].pcm.len(), 20 * 960);
    let last = s.flush().unwrap();
    assert_eq!(last.pcm.len(), 32_000 - 20 * 960);
    assert!(s.flush().is_none());
}

#[test]
fn chunks_of_any_size_give_the_same_segments() {
    let mut all = tone(8000, 8000);
    all.extend(silence(8000));
    all.extend(tone(9000, 7000));
    all.extend(silence(9000));
    let mut whole = Segmenter::new(vad());
    let want: Vec<Vec<u8>> = whole.push(&all).into_iter().map(|s| s.pcm).collect();
    assert_eq!(want.len(), 2);
    for n in [1usize, 7, 960, 3200] {
        let mut s = Segmenter::new(vad());
        let mut got = Vec::new();
        for c in all.chunks(n) {
            got.extend(s.push(c).into_iter().map(|s| s.pcm));
        }
        assert_eq!(got, want);
    }
}

#[test]
fn vad_defaults() {
    let d = VadConfig::default();
    assert_eq!((d.sample_rate, d.frame_ms, d.speech_rms_milli), (16_000, 30, 700_000));
    assert_eq!((d.min_silence_ms, d.min_speech_ms, d.max_segment_ms), (480, 320, 3_500));
    assert!(vad_fits(&d));
    let huge = VadConfig { sample_rate: u32::MAX, max_segment_ms: u32::MAX, ..d };
    assert!(!vad_fits(&huge));
}

#[test]
fn levels() {
    let mut pcm = Vec::new();
    for s in [3i16, -4, i16::MIN, 0] {
        pcm.extend_from_slice(&s.to_le_bytes());
    }
    let l = pcm16_levels(&pcm);
    assert_eq!(l.peak, 32768);
    assert_eq!(l.energy, 9 + 16 + (1u128 << 30));
    assert_eq!(l.count, 4);
    let l = pcm16_levels(&[7]);
    assert_eq!((l.peak, l.energy, l.count), (0, 0, 0));
}

#[test]
fn normalising() {
    assert_eq!(pcm16_normalize(&tone(100, 79)), Normalize::Keep);
    assert_eq!(pcm16_normalize(&tone(100, 80)), Normalize::Gain { num: 40, den: 1 });
    assert_eq!(pcm16_normalize(&tone(100, 400)), Normalize::Gain { num: 16_000, den: 400 });
    assert_eq!(pcm16_normalize(&tone(100, 16_000)), Normalize::Keep);
    assert_eq!(pcm16_normalize(&tone(100, 15_000)), Normalize::Keep);
    assert_eq!(pcm16_normalize(&tone(100, 32_000)), Normalize::Gain { num: 16_000, den: 32_000 });
    assert_eq!(pcm16_normalize(&[]), Normalize::Keep);
}

#[test]
fn normalising_clips_nothing() {
    for amp in [80i16, 400, 3000, 20_000, 32_767] {
        if let Normalize::Gain { num, den } = pcm16_normalize(&tone(100, amp)) {
            assert!(amp as u64 * num as u64 <= 16_000 * den as u64);
        }
    }
}

#[test]
fn normalising_twice_is_once() {
    let with_peak = |peak: i16| -> Vec<u8> {
        [peak, -peak, peak / 3, 7, 0].iter().flat_map(|s| s.to_le_bytes()).collect()
    };
    let applied = |pcm: &[u8]| -> Vec<u8> {
        match pcm16_normalize(pcm) {
            Normalize::Keep => pcm.to_vec(),
            Normalize::Gain { num, den } => pcm
                .chunks_exact(2)
                .flat_map(|b| {
                    let s = i16::from_le_bytes([b[0], b[1]]) as f64;
                    ((s * (num as f64 / den as f64)).round() as i16).to_le_bytes()
                })
                .collect(),
        }
    };
    for peak in [0i16, 79, 400, 401, 999, 7_777, 15_999, 16_000, 17_000, 18_001, 32_767] {
        let once = applied(&with_peak(peak));
        assert_eq!(pcm16_normalize(&once), Normalize::Keep);
    }
    assert_eq!(pcm16_levels(&applied(&with_peak(401))).peak, 16_000);
    // Between 80 and 399 the first gain is cut.
    let once = applied(&with_peak(399));
    assert_eq!(pcm16_levels(&once).peak, 15_960);
    let once = applied(&with_peak(100));
    assert_eq!(pcm16_normalize(&once), Normalize::Gain { num: 16_000, den: 4_000 });
}

#[test]
fn the_room_raises_the_threshold() {
    let heard = |floor_milli: u32| {
        let level = SpeechLevel { rms_milli: 500_000, snr_milli: 2_000, floor_milli };
        let mut s = Segmenter::new(VadConfig { speech_rms_milli: level.threshold(), ..vad() });
        s.push(&tone(8000, 800));
        s.push(&silence(8000)).len()
    };
    assert_eq!((heard(0), heard(400_000), heard(400_001)), (1, 1, 0));
}

#[test]
fn where_events_go() {
    let plain = PhraseGates::default();
    let outlet = |divided: bool, dual: bool| {
        LiveCapture::start_inner(divided.then_some(vad()), plain, dual, 0).outlet()
    };
    assert_eq!((outlet(false, false), outlet(true, false)), (Outlet::Nowhere, Outlet::Phrases));
    assert_eq!((outlet(false, true), outlet(true, true)), (Outlet::Dual, Outlet::Dual));
    let mut c = LiveCapture::start_inner(None, plain, true, 0);
    assert!(c.collect(&[1]).is_empty());
    assert!(matches!(&c.collect(&[2, 3])[..], [DualEvent::Chunk(b)] if b[..] == [1, 2]));
    assert!(c.end().is_empty());
    assert_eq!(c.finish(), [1, 2, 3]);
}

#[test]
fn wav_bytes() {
    let pcm = [1u8, 2, 3, 4];
    let f = write_pcm16_mono_wav(16_000, &pcm);
    let mut want = b"RIFF".to_vec();
    want.extend_from_slice(&40u32.to_le_bytes());
    want.extend_from_slice(b"WAVEfmt ");
    want.extend_from_slice(&16u32.to_le_bytes());
    want.extend_from_slice(&1u16.to_le_bytes());
    want.extend_from_slice(&1u16.to_le_bytes());
    want.extend_from_slice(&16_000u32.to_le_bytes());
    want.extend_from_slice(&32_000u32.to_le_bytes());
    want.extend_from_slice(&2u16.to_le_bytes());
    want.extend_from_slice(&16u16.to_le_bytes());
    want.extend_from_slice(b"data");
    want.extend_from_slice(&4u32.to_le_bytes());
    want.extend_from_slice(&pcm);
    assert_eq!(f, want);
}

#[test]
fn capture_in_two_ways_keeps_samples_whole() {
    let mut all = tone(8000, 8000);
    all.extend(silence(8000));
    all.push(9);
    let mut c = LiveCapture::start_dual(vad());
    let mut chunks = Vec::new();
    let mut segments = 0;
    for part in all.chunks(333) {
        let events = c.collect(part);
        for (i, e) in events.iter().enumerate() {
            match e {
                DualEvent::Chunk(b) => {
                    assert_eq!(i, 0);
                    assert_eq!(b.len() % 2, 0);
                    chunks.extend_from_slice(b);
                }
                DualEvent::Segment(s) => {
                    segments += 1;
                    assert!(chunks.len() >= s.pcm.len());
                }
            }
        }
    }
    assert_eq!(chunks, all[..all.len() - 1]);
    assert_eq!(segments, 1);
    assert!(c.end().is_empty());
    assert_eq!(c.finish(), all);
}

#[test]
fn loudness_is_the_rms() {
    assert!(is_loud(8_000_000, &tone(100, 8000)));
    assert!(!is_loud(8_000_001, &tone(100, 8000)));
    assert!(is_loud(0, &silence(3)) && !is_loud(1, &silence(3)));
    assert!(is_loud(0, &[]) && !is_loud(1, &[]));
}

#[test]
fn phrases_have_to_be_loud_enough() {
    let mut sound = tone(4800, 600);
    sound.extend(silence(8000));
    let count = |min_peak: i32, min_rms_milli: u32| {
        Segmenter::gated(vad(), PhraseGates { min_peak, min_rms_milli }).push(&sound).len()
    };
    assert_eq!(PhraseGates::default(), PhraseGates { min_peak: 400, min_rms_milli: 0 });
    assert_eq!(Segmenter::new(vad()).push(&sound).len(), 1);
    assert_eq!((count(600, 600_000), count(601, 0), count(0, 600_001)), (1, 0, 0));
    let gates = PhraseGates { min_peak: 900, min_rms_milli: 280_000 };
    assert!(LiveCapture::start_streaming_gated(vad(), gates).collect(&sound).is_empty());
}

#[test]
fn segments_are_whole_frames_of_speech() {
    // A pause of nine frames does not close the phrase, one of ten does.
    let mut sound = silence(480 * 2);
    sound.extend(tone(480 * 10, 8000));
    sound.extend(silence(480 * 9));
    sound.extend(tone(480 * 3, 8000));
    sound.extend(silence(480 * 10));
    sound.extend(tone(480 * 8, 8000));
    sound.extend(silence(480 * 12));
    let mut s = Segmenter::new(vad());
    let mut segs = Vec::new();
    for part in sound.chunks(777) {
        segs.extend(s.push(part));
    }
    assert_eq!(segs.len(), 2);
    assert_eq!(segs[0].pcm, sound[2 * 960..24 * 960]);
    assert_eq!(segs[1].pcm, sound[34 * 960..42 * 960]);
}

#[test]
fn quiet_chunks_may_be_held_back() {
    let tune = |milli: u32| CaptureTune { preedit_min_rms_milli: milli, ..CaptureTune::default() };
    let start = |milli: u32| {
        LiveCapture::start_dual_gated(vad(), PhraseGates::default(), tune(milli))
    };
    let mut c = start(700_000);
    assert!(c.collect(&tone(100, 699)).is_empty());
    assert_eq!(c.collect(&tone(100, 700)).len(), 1);
    assert_eq!(start(0).collect(&silence(1)).len(), 1);
    assert_eq!(LiveCapture::start_dual(vad()).collect(&silence(1)).len(), 1);
}

#[test]
fn phrases_are_slices_of_the_chunks_before() {
    let mut all = tone(4800, 8000);
    all.extend(silence(8000));
    all.extend(tone(4800, 6000));
    let mut c = LiveCapture::start_dual(vad());
    let (mut before, mut from) = (Vec::new(), 0);
    let mut events: Vec<DualEvent> = all.chunks(1001).flat_map(|part| c.collect(part)).collect();
    events.extend(c.end());
    assert!(matches!(events.last(), Some(DualEvent::Segment(_))));
    let mut phrases = 0;
    for e in events {
        match e {
            DualEvent::Chunk(b) => before.extend(b),
            DualEvent::Segment(s) => {
                let n = s.pcm.len();
                let at = (from..=before.len() - n).find(|i| before[*i..*i + n] == s.pcm[..]);
                from = at.unwrap() + n;
                phrases += 1;
            }
        }
    }
    assert_eq!((phrases, before.len()), (2, all.len()));
}

#[test]
fn capture_by_phrases_and_plain() {
    let all = tone(8000, 8000);
    let mut c = LiveCapture::start_streaming(vad());
    assert!(c.collect(&all).is_empty());
    let last = c.end();
    assert_eq!(last.len(), 1);
    assert!(matches!(&last[0], DualEvent::Segment(s) if s.pcm == all));
    let mut c = LiveCapture::start();
    assert!(c.collect(&all).is_empty());
    assert!(c.end().is_empty());
    assert_eq!(c.finish(), all);
}

#[test]
fn what_is_fit_to_be_recognised() {
    assert_eq!(check_segment(16_000, &tone(3999, 8000)), Err(SegmentError::TooShort));
    assert_eq!(check_segment(16_000, &tone(4000, 119)), Err(SegmentError::Silent));
    assert_eq!(check_segment(16_000, &tone(4000, 120)), Ok(()));
    assert_eq!(check_take(16_000, &tone(6399, 8000)), Err(TakeError::TooShort));
    assert_eq!(check_take(16_000, &tone(6400, 7)), Err(TakeError::NoSignal { peak: 7 }));
    assert_eq!(check_take(16_000, &tone(6400, 120)), Ok(()));
}

#[test]
fn capture_limits() {
    let t = CaptureTune::default();
    assert_eq!(f64::from_bits(t.agc_max_gain), 4.0);
    assert_eq!(t.preedit_min_rms_milli, 700_000);
}

#[test]
fn reads_are_aligned() {
    let mut carry = None;
    assert_eq!(align(&mut carry, &[1, 2, 3]), vec![1, 2]);
    assert_eq!(carry, Some(3));
    assert_eq!(align(&mut carry, &[4]), vec![3, 4]);
    assert_eq!(carry, None);
    assert_eq!(align(&mut carry, &[5]), Vec::<u8>::new());
    assert_eq!(carry, Some(5));
    assert_eq!(measured(vec![1, 2, 3]), Some(vec![1, 2]));
    assert_eq!(measured(vec![1]), None);
}
