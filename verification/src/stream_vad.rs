//! Energy-based voice activity detection: a PCM16 mono stream becomes speech segments.
//!
//! Used for type-as-you-speak: each finished phrase goes to recognition at once, without waiting
//! for the whole utterance.

use crate::wav::{energy_of, pcm16_levels, peak_of, samples, Levels};
use vstd::prelude::*;

verus! {

/// How a stream is cut into phrases.
#[derive(Debug, Clone, Copy)]
pub struct VadConfig {
    pub sample_rate: u32,
    /// Frame length for the RMS (ms).
    pub frame_ms: u32,
    /// An RMS of at least this many thousandths of a sample step is speech.
    pub speech_rms_milli: u32,
    /// How long silence must last to close a segment (ms).
    pub min_silence_ms: u32,
    /// Segments shorter than this are dropped (ms).
    pub min_speech_ms: u32,
    /// Longer continuous speech is cut (ms).
    pub max_segment_ms: u32,
}

impl Default for VadConfig {
    /// Tuned for 16 kHz dictation in phrases of one to three seconds.
    fn default() -> (r: Self)
        ensures
            r.sample_rate == 16_000,
            r.frame_ms == 30,
            r.speech_rms_milli == 700_000,
            r.min_silence_ms == 480,
            r.min_speech_ms == 320,
            r.max_segment_ms == 3_500,
    {
        VadConfig {
            sample_rate: 16_000,
            frame_ms: 30,
            speech_rms_milli: 700_000,
            min_silence_ms: 480,
            min_speech_ms: 320,
            max_segment_ms: 3_500,
        }
    }
}

/// What the limits of a `usize` ask of a configuration.
pub open spec fn fits(cfg: VadConfig) -> bool {
    &&& cfg.sample_rate * cfg.frame_ms <= usize::MAX
    &&& cfg.sample_rate * 2 <= usize::MAX
    &&& cfg.sample_rate * 2 * cfg.min_speech_ms <= usize::MAX
    &&& cfg.sample_rate * 2 * cfg.max_segment_ms <= usize::MAX
}

/// Whether the byte counts of a configuration fit in a `usize`.
pub fn vad_fits(cfg: &VadConfig) -> (r: bool)
    ensures
        r == fits(*cfg),
{
    let rate: u128 = cfg.sample_rate as u128;
    let most: u128 = usize::MAX as u128;
    proof {
        lemma_small(cfg.sample_rate, cfg.frame_ms);
        lemma_small(cfg.sample_rate, cfg.min_speech_ms);
        lemma_small(cfg.sample_rate, cfg.max_segment_ms);
    }
    rate * (cfg.frame_ms as u128) <= most && rate * 2 <= most && rate * 2 * (
    cfg.min_speech_ms as u128) <= most && rate * 2 * (cfg.max_segment_ms as u128) <= most
}

proof fn lemma_small(a: u32, b: u32)
    ensures
        0 <= a * b <= 0xffff_ffff * 0xffff_ffff,
        0 <= a * 2 * b <= 2 * 0xffff_ffff * 0xffff_ffff,
{
    assert(0 <= a * b <= 0xffff_ffff * 0xffff_ffff) by (nonlinear_arith);
    assert(a * 2 * b == 2 * (a * b)) by (nonlinear_arith);
}

/// One speech phrase.
#[derive(Debug, Clone)]
pub struct SpeechSegment {
    /// PCM16 mono bytes; a little trailing silence may be among them.
    pub pcm: Vec<u8>,
}

/// The PCM of each segment.
pub open spec fn pcms(v: Seq<SpeechSegment>) -> Seq<Seq<u8>> {
    v.map_values(|s: SpeechSegment| s.pcm@)
}

/// A segment whose peak stays below this is near-silence, unless set otherwise.
pub const MIN_PEAK: i32 = 400;

/// How loud a segment has to be.
#[derive(Debug, Clone, Copy, PartialEq, Eq, Structural)]
pub struct PhraseGates {
    /// A segment whose peak stays below this is dropped.
    pub min_peak: i32,
    /// A segment whose RMS stays below this many thousandths of a sample step is dropped.
    pub min_rms_milli: u32,
}

/// The gates where nothing is set: near-silence is dropped.
pub open spec fn plain_gates() -> PhraseGates {
    PhraseGates { min_peak: MIN_PEAK, min_rms_milli: 0 }
}

impl Default for PhraseGates {
    fn default() -> (r: Self)
        ensures
            r == plain_gates(),
    {
        PhraseGates { min_peak: MIN_PEAK, min_rms_milli: 0 }
    }
}

/// The lengths and the threshold that a configuration comes down to.
pub struct Gates {
    /// Bytes per frame.
    pub frame: nat,
    /// Silent frames that close a segment.
    pub min_silence: nat,
    /// Bytes that a segment needs.
    pub min_speech: nat,
    /// Bytes of continuous speech that force a cut.
    pub max_segment: nat,
    /// The RMS of speech, in thousandths.
    pub threshold: nat,
    /// The peak that a segment needs.
    pub min_peak: int,
    /// The RMS that a segment needs, in thousandths.
    pub min_rms: nat,
}

/// Where a segmenter stands between frames.
pub enum Listening {
    Silence,
    /// Speech began at byte `start`; the last `silence` frames were silent.
    Speech { start: nat, silence: nat },
}

/// What a segmenter has heard and where it stands.
pub struct Vad {
    pub gates: Gates,
    pub heard: Seq<u8>,
    pub cursor: nat,
    pub phase: Listening,
}

/// The number of frames that a silence of `ms` takes, at least one.
pub open spec fn silence_frames(ms: nat, frame_ms: nat) -> nat {
    let frames = if frame_ms > 0 {
        (ms + frame_ms - 1) as nat / frame_ms
    } else if ms == 0 {
        0
    } else {
        u32::MAX as nat
    };
    if frames < 1 {
        1
    } else {
        frames
    }
}

/// The gates of a configuration where segments only have to be louder than near-silence.
pub open spec fn gates_of(cfg: VadConfig) -> Gates {
    gates_with(cfg, plain_gates())
}

/// The gates of a configuration where segments have to be as loud as `pg` says.
pub open spec fn gates_with(cfg: VadConfig, pg: PhraseGates) -> Gates {
    let frame = 2 * (cfg.sample_rate as nat * cfg.frame_ms as nat / 1000);
    let longest = cfg.sample_rate as nat * 2 * cfg.max_segment_ms as nat / 1000;
    Gates {
        frame: if frame < 2 {
            2
        } else {
            frame
        },
        min_silence: silence_frames(cfg.min_silence_ms as nat, cfg.frame_ms as nat),
        min_speech: cfg.sample_rate as nat * 2 * cfg.min_speech_ms as nat / 1000,
        max_segment: if longest < frame * 2 {
            frame * 2
        } else {
            longest
        },
        threshold: cfg.speech_rms_milli as nat,
        min_peak: pg.min_peak as int,
        min_rms: pg.min_rms_milli as nat,
    }
}

/// Whether the RMS of `pcm` is at least `milli` thousandths of a sample step; it is zero where there
/// is no sample.
pub open spec fn loud(milli: nat, pcm: Seq<u8>) -> bool {
    if pcm.len() < 2 {
        milli == 0
    } else {
        energy_of(samples(pcm)) * 1_000_000 >= milli * milli * (pcm.len() / 2)
    }
}

/// Whether a frame is speech: its RMS reaches the threshold.
pub open spec fn voiced(g: Gates, frame: Seq<u8>) -> bool {
    loud(g.threshold, frame)
}

/// Whether the bytes from `start` to `end` make a segment: long enough, and with the peak and the
/// RMS that it needs.
pub open spec fn kept(g: Gates, heard: Seq<u8>, start: int, end: int) -> bool {
    &&& end > start
    &&& end - start >= g.min_speech
    &&& peak_of(samples(heard.subrange(start, end))) >= g.min_peak
    &&& loud(g.min_rms, heard.subrange(start, end))
}

/// Tells whether the RMS of `pcm` is at least `milli` thousandths of a sample step.
pub fn is_loud(milli: u32, pcm: &[u8]) -> (r: bool)
    ensures
        r == loud(milli as nat, pcm@),
{
    if pcm.len() < 2 {
        return milli == 0;
    }
    let levels: Levels = pcm16_levels(pcm);
    proof {
        lemma_energy_bound(samples(pcm@));
        let t = milli as u128;
        let n = levels.count as u128;
        assert(pcm.len() <= 0xffff_ffff_ffff_ffff);
        assert(t * t <= 0xffff_fffe_0000_0001) by (nonlinear_arith)
            requires
                t <= 0xffff_ffff,
        ;
        assert(t * t * n <= 0xffff_fffe_0000_0001 * 0x7fff_ffff_ffff_ffff) by (nonlinear_arith)
            requires
                t * t <= 0xffff_fffe_0000_0001,
                n <= 0x7fff_ffff_ffff_ffff,
        ;
    }
    levels.energy * 1_000_000 >= milli as u128 * milli as u128 * levels.count as u128
}

/// From what loudness on sound is speech, all in thousandths.
#[derive(Debug, Clone, Copy, PartialEq, Eq, Structural)]
pub struct SpeechLevel {
    /// The least RMS of speech, however quiet the room is.
    pub rms_milli: u32,
    /// How many times louder than the room speech is; a ratio of one asks nothing.
    pub snr_milli: u32,
    /// The RMS of the room without speech; zero where it was not measured.
    pub floor_milli: u32,
}

/// The RMS, in thousandths, that a ratio asks over the noise of a room: their product, rounded up.
pub open spec fn over_noise(snr_milli: nat, floor_milli: nat) -> nat {
    if snr_milli == 1000 {
        0
    } else {
        (snr_milli * floor_milli + 999) / 1000
    }
}

/// Whether the RMS of `pcm` is at least `snr_milli` thousandths of `floor_milli`, which itself is in
/// thousandths of a sample step.
pub open spec fn stands_out(snr_milli: nat, floor_milli: nat, pcm: Seq<u8>) -> bool {
    let least = snr_milli * floor_milli;
    if pcm.len() < 2 {
        least == 0
    } else {
        energy_of(samples(pcm)) * 1_000_000 * 1_000_000 >= least * least * (pcm.len() / 2)
    }
}

impl SpeechLevel {
    /// The RMS from which sound is speech: the least one, or what the ratio asks if that is more.
    /// Beyond `u32` no sound reaches it.
    pub open spec fn gate(self) -> nat {
        let over = over_noise(self.snr_milli as nat, self.floor_milli as nat);
        if over > u32::MAX {
            u32::MAX as nat
        } else if over > self.rms_milli {
            over
        } else {
            self.rms_milli as nat
        }
    }

    /// The RMS from which sound is speech, in thousandths.
    pub fn threshold(&self) -> (r: u32)
        ensures
            r == self.gate(),
    {
        if self.snr_milli == 1000 {
            return self.rms_milli;
        }
        let (snr, floor) = (self.snr_milli as u64, self.floor_milli as u64);
        assert(snr * floor <= 0xffff_ffff * 0xffff_ffff) by (nonlinear_arith)
            requires
                snr <= 0xffff_ffff,
                floor <= 0xffff_ffff,
        ;
        let over: u64 = (snr * floor + 999) / 1000;
        if over > 0xffff_ffff {
            0xffff_ffff
        } else if over > self.rms_milli as u64 {
            over as u32
        } else {
            self.rms_milli
        }
    }
}

/// What one frame does: the new phase, and the range that it closes, if it closes one.
pub open spec fn frame_step(g: Gates, heard: Seq<u8>, c: nat, phase: Listening) -> (
    Listening,
    Option<(int, int)>,
) {
    let end = c + g.frame;
    let speech = voiced(g, heard.subrange(c as int, end as int));
    match phase {
        Listening::Silence => if speech {
            (Listening::Speech { start: c, silence: 0 }, None)
        } else {
            (Listening::Silence, None)
        },
        Listening::Speech { start, silence } => if speech {
            if end - start >= g.max_segment {
                (Listening::Silence, Some((start as int, end as int)))
            } else {
                (Listening::Speech { start, silence: 0 }, None)
            }
        } else if silence + 1 >= g.min_silence {
            (Listening::Silence, Some((start as int, c - silence * g.frame)))
        } else {
            (Listening::Speech { start, silence: silence + 1 }, None)
        },
    }
}

/// The ranges that a closed range contributes: itself, where it makes a segment.
pub open spec fn kept_cut(g: Gates, heard: Seq<u8>, cut: Option<(int, int)>) -> Seq<(int, int)> {
    match cut {
        Some((start, end)) => if kept(g, heard, start, end) {
            seq![(start, end)]
        } else {
            seq![]
        },
        None => seq![],
    }
}

/// Runs over all whole frames from `c` on: where it stops, in which phase, and the segments.
pub open spec fn scan(g: Gates, heard: Seq<u8>, c: nat, phase: Listening) -> (
    nat,
    Listening,
    Seq<(int, int)>,
)
    decreases heard.len() - c,
{
    if g.frame == 0 || c + g.frame > heard.len() {
        (c, phase, seq![])
    } else {
        let (next, cut) = frame_step(g, heard, c, phase);
        let (end, last, rest) = scan(g, heard, c + g.frame, next);
        (end, last, kept_cut(g, heard, cut) + rest)
    }
}

/// The bytes of each range.
pub open spec fn slices(heard: Seq<u8>, ranges: Seq<(int, int)>) -> Seq<Seq<u8>> {
    ranges.map_values(|r: (int, int)| heard.subrange(r.0, r.1))
}

impl Vad {
    /// Nothing heard yet.
    pub open spec fn start(gates: Gates) -> Vad {
        Vad { gates, heard: Seq::empty(), cursor: 0, phase: Listening::Silence }
    }

    /// Speech shorter than this is never cut by force.
    pub open spec fn limit(self) -> nat {
        if self.gates.max_segment > self.gates.frame {
            self.gates.max_segment
        } else {
            self.gates.frame + 1
        }
    }

    /// What holds between calls: the cursor lies within what was heard, and open speech began at
    /// least one frame before its silence and has not reached the forced cut.
    pub open spec fn wf(self) -> bool {
        &&& self.gates.frame >= 2
        &&& self.gates.min_silence >= 1
        &&& self.cursor <= self.heard.len()
        &&& match self.phase {
            Listening::Silence => true,
            Listening::Speech { start, silence } => {
                &&& start + (silence + 1) * self.gates.frame <= self.cursor
                &&& silence < self.gates.min_silence
                &&& self.cursor - silence * self.gates.frame - start < self.limit()
            },
        }
    }

    /// What pushing a chunk leads to, and the segments that it completes.
    pub open spec fn pushed(self, chunk: Seq<u8>) -> (Vad, Seq<Seq<u8>>) {
        let heard = self.heard + chunk;
        let (cursor, phase, ranges) = scan(self.gates, heard, self.cursor, self.phase);
        (Vad { gates: self.gates, heard, cursor, phase }, slices(heard, ranges))
    }

    /// What stopping leads to, and the segment that was still open.
    pub open spec fn flushed(self) -> (Vad, Option<Seq<u8>>) {
        match self.phase {
            Listening::Silence => (self, None),
            Listening::Speech { start, .. } => {
                let end = self.heard.len() as int;
                (
                    Vad { cursor: self.heard.len(), phase: Listening::Silence, ..self },
                    if kept(self.gates, self.heard, start as int, end) {
                        Some(self.heard.subrange(start as int, end))
                    } else {
                        None
                    },
                )
            },
        }
    }
}

/// The state after one frame.
spec fn after_frame(v: Vad) -> Vad {
    Vad {
        cursor: v.cursor + v.gates.frame,
        phase: frame_step(v.gates, v.heard, v.cursor, v.phase).0,
        ..v
    }
}

proof fn lemma_frame(v: Vad)
    requires
        v.wf(),
        v.cursor + v.gates.frame <= v.heard.len(),
    ensures
        after_frame(v).wf(),
        frame_step(v.gates, v.heard, v.cursor, v.phase).1 matches Some((start, end)) ==> {
            &&& v.phase matches Listening::Speech { start: begun, .. }
            &&& start == begun
            &&& start < end <= v.cursor + v.gates.frame
            &&& end - start < v.limit() + v.gates.min_silence * v.gates.frame
            &&& frame_step(v.gates, v.heard, v.cursor, v.phase).0 is Silence
        },
{
    let f = v.gates.frame;
    if let Listening::Speech { start, silence } = v.phase {
        let m = v.gates.min_silence;
        assert((silence + 1) * f == silence * f + f) by (nonlinear_arith);
        assert((silence + 1 + 1) * f == silence * f + f + f) by (nonlinear_arith);
        assert(0 <= silence * f && silence * f + f <= m * f) by (nonlinear_arith)
            requires
                silence + 1 <= m,
                f >= 0,
                silence >= 0,
        ;
        assert((0 + 1) * f == f) by (nonlinear_arith);
    } else {
        assert((0 + 1) * f == f) by (nonlinear_arith);
    }
}

/// Scanning keeps the invariant.
proof fn lemma_scan_wf(v: Vad)
    requires
        v.wf(),
    ensures
        ({
            let (cursor, phase, ranges) = scan(v.gates, v.heard, v.cursor, v.phase);
            &&& Vad { cursor, phase, ..v }.wf()
            &&& v.cursor <= cursor
            &&& v.heard.len() < cursor + v.gates.frame
        }),
    decreases v.heard.len() - v.cursor,
{
    if v.cursor + v.gates.frame <= v.heard.len() {
        lemma_frame(v);
        lemma_scan_wf(after_frame(v));
    }
}

/// Online segmenter: push PCM chunks, get the completed speech segments.
pub struct Segmenter {
    threshold: u32,
    loudness: PhraseGates,
    /// All PCM so far.
    buf: Vec<u8>,
    /// Where the next frame starts.
    cursor: usize,
    speaking: bool,
    start_byte: usize,
    /// Silent frames in a row while still in speech.
    silence: u32,
    frame_bytes: usize,
    min_silence_frames: u32,
    min_speech_bytes: usize,
    max_segment_bytes: usize,
}

impl View for Segmenter {
    type V = Vad;

    closed spec fn view(&self) -> Vad {
        Vad {
            gates: Gates {
                frame: self.frame_bytes as nat,
                min_silence: self.min_silence_frames as nat,
                min_speech: self.min_speech_bytes as nat,
                max_segment: self.max_segment_bytes as nat,
                threshold: self.threshold as nat,
                min_peak: self.loudness.min_peak as int,
                min_rms: self.loudness.min_rms_milli as nat,
            },
            heard: self.buf@,
            cursor: self.cursor as nat,
            phase: if self.speaking {
                Listening::Speech { start: self.start_byte as nat, silence: self.silence as nat }
            } else {
                Listening::Silence
            },
        }
    }
}

impl Segmenter {
    /// A segmenter that has heard nothing and drops near-silence. The products of rate and
    /// durations must fit in a `usize`.
    pub fn new(cfg: VadConfig) -> (r: Self)
        requires
            fits(cfg),
        ensures
            r@ == Vad::start(gates_of(cfg)),
            r@.wf(),
    {
        Self::gated(cfg, PhraseGates { min_peak: MIN_PEAK, min_rms_milli: 0 })
    }

    /// A segmenter that has heard nothing and drops segments that are less loud than `loudness`
    /// asks.
    pub fn gated(cfg: VadConfig, loudness: PhraseGates) -> (r: Self)
        requires
            fits(cfg),
        ensures
            r@ == Vad::start(gates_with(cfg, loudness)),
            r@.wf(),
    {
        let rate: u64 = cfg.sample_rate as u64;
        proof {
            lemma_product(cfg.sample_rate, cfg.frame_ms);
        }
        let frame_samples: u64 = (rate * cfg.frame_ms as u64) / 1000;
        let frame: usize = frame_samples as usize * 2;
        let frames: u64 = if cfg.frame_ms > 0 {
            (cfg.min_silence_ms as u64 + cfg.frame_ms as u64 - 1) / cfg.frame_ms as u64
        } else if cfg.min_silence_ms == 0 {
            0
        } else {
            u32::MAX as u64
        };
        proof {
            if cfg.frame_ms > 0 {
                lemma_ceil(cfg.min_silence_ms as int, cfg.frame_ms as int);
            }
        }
        let min_speech: usize = (cfg.sample_rate as usize * 2 * cfg.min_speech_ms as usize) / 1000;
        let longest: usize = (cfg.sample_rate as usize * 2 * cfg.max_segment_ms as usize) / 1000;
        Segmenter {
            threshold: cfg.speech_rms_milli,
            loudness,
            buf: Vec::new(),
            cursor: 0,
            speaking: false,
            start_byte: 0,
            silence: 0,
            frame_bytes: if frame < 2 {
                2
            } else {
                frame
            },
            min_silence_frames: if frames < 1 {
                1
            } else {
                frames as u32
            },
            min_speech_bytes: min_speech,
            max_segment_bytes: if longest < frame * 2 {
                frame * 2
            } else {
                longest
            },
        }
    }

    /// Takes a chunk in and returns the segments that it completes.
    pub fn push(&mut self, chunk: &[u8]) -> (r: Vec<SpeechSegment>)
        requires
            old(self)@.wf(),
            old(self)@.heard.len() + chunk@.len() <= usize::MAX,
        ensures
            final(self)@.wf(),
            (final(self)@, pcms(r@)) == old(self)@.pushed(chunk@),
    {
        self.buf.extend_from_slice(chunk);
        proof {
            assert(self@.heard =~= old(self)@.heard + chunk@);
        }
        self.poll()
    }

    /// Closes any open speech as a final segment.
    pub fn flush(&mut self) -> (r: Option<SpeechSegment>)
        requires
            old(self)@.wf(),
        ensures
            final(self)@.wf(),
            final(self)@ == old(self)@.flushed().0,
            r is Some <==> old(self)@.flushed().1 is Some,
            r matches Some(seg) ==> old(self)@.flushed().1 == Some(seg.pcm@),
    {
        if self.speaking {
            let end: usize = self.buf.len();
            self.speaking = false;
            self.cursor = end;
            let start: usize = self.start_byte;
            proof {
                lemma_start(old(self)@);
            }
            self.make_segment(start, end)
        } else {
            None
        }
    }

    fn poll(&mut self) -> (r: Vec<SpeechSegment>)
        requires
            old(self)@.wf(),
        ensures
            final(self)@.wf(),
            ({
                let v = old(self)@;
                let (cursor, phase, ranges) = scan(v.gates, v.heard, v.cursor, v.phase);
                &&& final(self)@ == Vad { cursor, phase, ..v }
                &&& pcms(r@) == slices(v.heard, ranges)
            }),
    {
        let mut out: Vec<SpeechSegment> = Vec::new();
        let ghost v0 = self@;
        let ghost mut done: Seq<(int, int)> = seq![];
        let ghost all = scan(v0.gates, v0.heard, v0.cursor, v0.phase);
        proof {
            assert(done + all.2 =~= all.2);
            assert(pcms(out@) =~= slices(v0.heard, done));
        }
        while self.buf.len() - self.cursor >= self.frame_bytes
            invariant
                self@.wf(),
                self@.gates == v0.gates,
                self@.heard == v0.heard,
                all == scan(v0.gates, v0.heard, v0.cursor, v0.phase),
                ({
                    let rest = scan(v0.gates, v0.heard, self@.cursor, self@.phase);
                    &&& all.0 == rest.0
                    &&& all.1 == rest.1
                    &&& all.2 == done + rest.2
                }),
                pcms(out@) == slices(v0.heard, done),
            decreases self@.heard.len() - self@.cursor,
        {
            let ghost v = self@;
            let frame_end: usize = self.cursor + self.frame_bytes;
            let frame = vstd::slice::slice_subrange(self.buf.as_slice(), self.cursor, frame_end);
            let is_speech: bool = is_loud(self.threshold, frame);
            proof {
                lemma_frame(v);
            }
            let ghost (next, cut) = frame_step(v.gates, v.heard, v.cursor, v.phase);
            let ghost rest = scan(v.gates, v.heard, v.cursor + v.gates.frame, next);
            let ghost before = out@;
            let ghost add = kept_cut(v.gates, v.heard, cut);
            if !self.speaking {
                if is_speech {
                    self.speaking = true;
                    self.start_byte = self.cursor;
                    self.silence = 0;
                }
                proof {
                    assert(slices(v0.heard, add) =~= seq![]);
                }
            } else {
                let start: usize = self.start_byte;
                if is_speech {
                    self.silence = 0;
                    // Long monologues are cut so that recognition stays quick.
                    if frame_end - start >= self.max_segment_bytes {
                        self.cut_into(start, frame_end, &mut out);
                        self.speaking = false;
                    }
                } else {
                    let sf: u32 = self.silence + 1;
                    if sf >= self.min_silence_frames {
                        // The phrase ends before this run of silence.
                        proof {
                            lemma_silence_bytes(v);
                        }
                        let quiet: usize = self.silence as usize * self.frame_bytes;
                        let end: usize = self.cursor - quiet;
                        self.cut_into(start, end, &mut out);
                        self.speaking = false;
                    } else {
                        self.silence = sf;
                    }
                }
            }
            self.cursor = frame_end;
            proof {
                assert(self@ == after_frame(v));
                assert(pcms(out@) =~= pcms(before) + slices(v0.heard, add));
                let now = done + add;
                assert(slices(v0.heard, now) =~= slices(v0.heard, done) + slices(v0.heard, add));
                assert(now + rest.2 =~= done + (add + rest.2));
                done = now;
            }
        }
        proof {
            assert(done + seq![] =~= done);
        }
        out
    }

    fn cut_into(&self, start: usize, end: usize, out: &mut Vec<SpeechSegment>)
        requires
            start <= end <= self@.heard.len(),
        ensures
            pcms(final(out)@) == pcms(old(out)@) + slices(
                self@.heard,
                kept_cut(self@.gates, self@.heard, Some((start as int, end as int))),
            ),
    {
        let made: Option<SpeechSegment> = self.make_segment(start, end);
        if let Some(seg) = made {
            out.push(seg);
        }
        proof {
            assert(pcms(out@) =~= pcms(old(out)@) + slices(
                self@.heard,
                kept_cut(self@.gates, self@.heard, Some((start as int, end as int))),
            ));
        }
    }

    fn make_segment(&self, start: usize, end: usize) -> (r: Option<SpeechSegment>)
        requires
            start <= end <= self@.heard.len(),
        ensures
            r is Some <==> kept(self@.gates, self@.heard, start as int, end as int),
            r matches Some(seg) ==> seg.pcm@ == self@.heard.subrange(start as int, end as int),
    {
        if end <= start {
            return None;
        }
        let len: usize = end - start;
        if len < self.min_speech_bytes {
            return None;
        }
        let slice = vstd::slice::slice_subrange(self.buf.as_slice(), start, end);
        if pcm16_levels(slice).peak < self.loudness.min_peak {
            return None;
        }
        if !is_loud(self.loudness.min_rms_milli, slice) {
            return None;
        }
        Some(SpeechSegment { pcm: vstd::slice::slice_to_vec(slice) })
    }
}

proof fn lemma_start(v: Vad)
    requires
        v.wf(),
    ensures
        v.phase matches Listening::Speech { start, .. } ==> start <= v.cursor,
{
    if let Listening::Speech { start, silence } = v.phase {
        let f = v.gates.frame;
        assert((silence + 1) * f >= 0) by (nonlinear_arith)
            requires
                f >= 0,
                silence >= 0,
        ;
    }
}

proof fn lemma_silence_bytes(v: Vad)
    requires
        v.wf(),
    ensures
        v.phase matches Listening::Speech { start, silence } ==> start <= v.cursor - silence
            * v.gates.frame && 0 <= silence * v.gates.frame,
{
    if let Listening::Speech { start, silence } = v.phase {
        let f = v.gates.frame;
        assert((silence + 1) * f == silence * f + f) by (nonlinear_arith);
        assert(0 <= silence * f) by (nonlinear_arith)
            requires
                f >= 0,
                silence >= 0,
        ;
    }
}

proof fn lemma_product(a: u32, b: u32)
    ensures
        0 <= a * b <= 0xffff_fffe_0000_0001,
{
    assert(0 <= a * b <= 0xffff_fffe_0000_0001) by (nonlinear_arith)
        requires
            0 <= a <= 0xffff_ffff,
            0 <= b <= 0xffff_ffff,
    ;
}

proof fn lemma_ceil(a: int, b: int)
    requires
        0 <= a <= u32::MAX,
        0 < b,
    ensures
        0 <= (a + b - 1) / b <= u32::MAX,
{
    if a == 0 {
        assert((b - 1) / b == 0) by (nonlinear_arith)
            requires
                0 < b,
        ;
    } else {
        assert(0 <= (a + b - 1) / b <= a) by (nonlinear_arith)
            requires
                0 < a,
                0 < b,
        ;
    }
}

proof fn lemma_energy_bound(xs: Seq<int>)
    requires
        forall|i: int| 0 <= i < xs.len() ==> -32768 <= #[trigger] xs[i] <= 32767,
    ensures
        0 <= energy_of(xs) <= xs.len() * 0x4000_0000,
    decreases xs.len(),
{
    if xs.len() > 0 {
        let x = xs.last();
        assert(xs[xs.len() - 1] == x);
        assert forall|i: int| 0 <= i < xs.drop_last().len() implies -32768
            <= #[trigger] xs.drop_last()[i] <= 32767 by {
            assert(xs.drop_last()[i] == xs[i]);
        }
        lemma_energy_bound(xs.drop_last());
        assert(0 <= x * x <= 0x4000_0000) by (nonlinear_arith)
            requires
                -32768 <= x <= 32767,
        ;
    }
}

/// A loudness of zero asks nothing: all sound reaches it.
pub proof fn zero_is_always_reached(pcm: Seq<u8>)
    ensures
        loud(0, pcm),
{
    lemma_energy_bound(samples(pcm));
    assert(0 * 0 * (pcm.len() / 2) == 0) by (nonlinear_arith);
}

proof fn lemma_louder(less: nat, more: nat, pcm: Seq<u8>)
    requires
        less <= more,
        loud(more, pcm),
    ensures
        loud(less, pcm),
{
    if pcm.len() >= 2 {
        let n = (pcm.len() / 2) as int;
        assert(less * less * n <= more * more * n) by (nonlinear_arith)
            requires
                0 <= less <= more,
                n >= 0,
        ;
    }
}

proof fn lemma_never_that_loud(pcm: Seq<u8>)
    ensures
        !loud(u32::MAX as nat, pcm),
{
    lemma_energy_bound(samples(pcm));
    if pcm.len() >= 2 {
        let n = (pcm.len() / 2) as int;
        let m = u32::MAX as int;
        let e = energy_of(samples(pcm));
        assert(e * 1_000_000 < m * m * n) by (nonlinear_arith)
            requires
                e <= n * 0x4000_0000,
                n >= 1,
                m == 0xffff_ffff,
        ;
    }
}

/// Sound is speech exactly if it has the least RMS of speech and what the ratio asks over the noise of
/// the room. Speech then is at least that many times louder than the room, unless the ratio is one;
/// such a ratio, or a room that was not measured, changes nothing.
pub proof fn speech_stands_out(level: SpeechLevel, pcm: Seq<u8>)
    ensures
        loud(level.gate(), pcm) <==> loud(level.rms_milli as nat, pcm) && loud(
            over_noise(level.snr_milli as nat, level.floor_milli as nat),
            pcm,
        ),
        loud(level.gate(), pcm) && level.snr_milli != 1000 ==> stands_out(
            level.snr_milli as nat,
            level.floor_milli as nat,
            pcm,
        ),
        level.snr_milli == 1000 || level.floor_milli == 0 ==> level.gate() == level.rms_milli,
{
    let over = over_noise(level.snr_milli as nat, level.floor_milli as nat);
    lemma_never_that_loud(pcm);
    if loud(over, pcm) && over > u32::MAX {
        lemma_louder(u32::MAX as nat, over, pcm);
    }
    if level.floor_milli == 0 {
        assert(level.snr_milli as nat * 0 == 0) by (nonlinear_arith);
    }
    if loud(level.gate(), pcm) {
        lemma_louder(level.rms_milli as nat, level.gate(), pcm);
        lemma_louder(over, level.gate(), pcm);
        if level.snr_milli != 1000 {
            let least = level.snr_milli as nat * level.floor_milli as nat;
            assert(least <= over * 1000);
            if pcm.len() >= 2 {
                let n = (pcm.len() / 2) as int;
                let e = energy_of(samples(pcm));
                assert(e * 1_000_000 * 1_000_000 >= least * least * n) by (nonlinear_arith)
                    requires
                        e * 1_000_000 >= over * over * n,
                        0 <= least <= over * 1000,
                        n >= 0,
                ;
            }
        }
    }
}

/// Where the next segment can start at the earliest.
pub open spec fn open_from(v: Vad) -> nat {
    match v.phase {
        Listening::Silence => v.cursor,
        Listening::Speech { start, .. } => start,
    }
}

/// What holds of the ranges of the segments: each lies in what was heard from `from` on up to
/// `to`, is long enough, loud enough and not longer than the forced cut and one closing silence
/// allow, and none overlaps an earlier one.
pub open spec fn ranges_sound(v: Vad, ranges: Seq<(int, int)>, from: int, to: int) -> bool {
    &&& forall|i: int|
        0 <= i < ranges.len() ==> {
            let (start, end) = #[trigger] ranges[i];
            &&& from <= start < end <= to
            &&& kept(v.gates, v.heard, start, end)
            &&& end - start < v.limit() + v.gates.min_silence * v.gates.frame
        }
    &&& forall|i: int, j: int|
        0 <= i < j < ranges.len() ==> (#[trigger] ranges[i]).1 <= (#[trigger] ranges[j]).0
}

proof fn lemma_ranges(v: Vad)
    requires
        v.wf(),
    ensures
        ({
            let (cursor, phase, ranges) = scan(v.gates, v.heard, v.cursor, v.phase);
            let after = Vad { cursor, phase, ..v };
            &&& ranges_sound(v, ranges, open_from(v) as int, open_from(after) as int)
            &&& open_from(v) <= open_from(after) <= cursor
        }),
    decreases v.heard.len() - v.cursor,
{
    lemma_start(v);
    if v.cursor + v.gates.frame <= v.heard.len() {
        lemma_frame(v);
        let w = after_frame(v);
        lemma_ranges(w);
        lemma_start(w);
        let (_, cut) = frame_step(v.gates, v.heard, v.cursor, v.phase);
        let (cursor, phase, rest) = scan(w.gates, w.heard, w.cursor, w.phase);
        let ranges = kept_cut(v.gates, v.heard, cut) + rest;
        let to = open_from(Vad { cursor, phase, ..v }) as int;
        if ranges.len() == rest.len() {
            assert(ranges =~= rest);
        } else {
            assert(ranges[0] == cut->0);
            assert forall|i: int| 0 < i < ranges.len() implies #[trigger] ranges[i] == rest[
                i - 1
            ] by {}
            assert(ranges_sound(v, ranges, open_from(v) as int, to));
        }
    }
}

/// The segments that a chunk completes lie apart and in order in what was heard, none starts
/// before speech was open, and each is long enough, loud enough and not too long.
pub proof fn segments_are_sound(v: Vad, chunk: Seq<u8>)
    requires
        v.wf(),
    ensures
        ({
            let after = v.pushed(chunk).0;
            let ranges = scan(v.gates, v.heard + chunk, v.cursor, v.phase).2;
            &&& after.wf()
            &&& v.pushed(chunk).1 == slices(after.heard, ranges)
            &&& ranges_sound(after, ranges, open_from(v) as int, open_from(after) as int)
            &&& open_from(v) <= open_from(after) <= after.cursor <= after.heard.len()
            &&& after.heard.len() < after.cursor + after.gates.frame
        }),
{
    let grown = Vad { heard: v.heard + chunk, ..v };
    assert(grown.wf());
    lemma_ranges(grown);
    lemma_scan_wf(grown);
    lemma_start(v.pushed(chunk).0);
}

proof fn lemma_scan_extend(v: Vad, more: Seq<u8>)
    requires
        v.wf(),
    ensures
        ({
            let longer = v.heard + more;
            let (c1, p1, r1) = scan(v.gates, v.heard, v.cursor, v.phase);
            let (c2, p2, r2) = scan(v.gates, longer, c1, p1);
            scan(v.gates, longer, v.cursor, v.phase) == (c2, p2, r1 + r2)
        }),
    decreases v.heard.len() - v.cursor,
{
    let g = v.gates;
    let longer = v.heard + more;
    let (c1, p1, r1) = scan(g, v.heard, v.cursor, v.phase);
    let (c2, p2, r2) = scan(g, longer, c1, p1);
    if v.cursor + g.frame <= v.heard.len() {
        let c = v.cursor as int;
        let end = c + g.frame;
        assert(longer.subrange(c, end) =~= v.heard.subrange(c, end));
        lemma_frame(v);
        let (next, cut) = frame_step(g, v.heard, v.cursor, v.phase);
        assert(frame_step(g, longer, v.cursor, v.phase) == (next, cut));
        if let Some((a, b)) = cut {
            lemma_start(v);
            assert(longer.subrange(a, b) =~= v.heard.subrange(a, b));
        }
        let first = kept_cut(g, v.heard, cut);
        assert(kept_cut(g, longer, cut) == first);
        lemma_scan_extend(after_frame(v), more);
        let (_, _, rest) = scan(g, v.heard, v.cursor + g.frame, next);
        assert(first + (rest + r2) =~= (first + rest) + r2);
    } else {
        assert(r1 + r2 =~= r2);
    }
}

/// How a stream is split into chunks does not matter: pushing two chunks one after the other
/// leads to the same state and the same segments as pushing them as one, and whatever is pushed
/// later, or a stop, gives the same.
pub proof fn chunking_does_not_matter(v: Vad, a: Seq<u8>, b: Seq<u8>, later: Seq<u8>)
    requires
        v.wf(),
    ensures
        ({
            let (v1, first) = v.pushed(a);
            let (v2, second) = v1.pushed(b);
            &&& v.pushed(a + b) == (v2, first + second)
            &&& v.pushed(a + b).0.pushed(later) == v2.pushed(later)
            &&& v.pushed(a + b).0.flushed() == v2.flushed()
        }),
{
    let grown = Vad { heard: v.heard + a, ..v };
    let longer = grown.heard + b;
    assert(longer =~= v.heard + (a + b));
    lemma_scan_extend(grown, b);
    lemma_ranges(grown);
    lemma_scan_wf(grown);
    let (c1, p1, r1) = scan(grown.gates, grown.heard, grown.cursor, grown.phase);
    let r2 = scan(grown.gates, longer, c1, p1).2;
    assert(slices(longer, r1 + r2) =~= slices(longer, r1) + slices(longer, r2));
    assert forall|i: int| 0 <= i < r1.len() implies #[trigger] slices(longer, r1)[i] == slices(
        grown.heard,
        r1,
    )[i] by {
        let (start, end) = r1[i];
        assert(longer.subrange(start, end) =~= grown.heard.subrange(start, end));
    }
    assert(slices(longer, r1) =~= slices(grown.heard, r1));
}

/// Stopping leaves nothing open: what was heard is kept, a second stop gives nothing, and the
/// segment that the first gives reaches from where speech began to the end, and is long enough and
/// loud enough.
pub proof fn flush_closes(v: Vad)
    requires
        v.wf(),
    ensures
        ({
            let (after, last) = v.flushed();
            &&& after.wf()
            &&& after.phase is Silence
            &&& after.heard == v.heard
            &&& after.flushed() == (after, None::<Seq<u8>>)
            &&& last matches Some(pcm) ==> {
                &&& v.phase is Speech
                &&& pcm.len() >= v.gates.min_speech
                &&& peak_of(samples(pcm)) >= v.gates.min_peak
                &&& loud(v.gates.min_rms, pcm)
                &&& pcm == v.heard.skip(open_from(v) as int)
            }
        }),
{
    lemma_start(v);
    if let Listening::Speech { start, .. } = v.phase {
        let end = v.heard.len() as int;
        assert(v.heard.subrange(start as int, end) =~= v.heard.skip(start as int));
    }
}

/// Sound that never reaches the threshold makes no segment and opens no speech.
pub proof fn silence_makes_no_segment(v: Vad, chunk: Seq<u8>)
    requires
        v.wf(),
        v.phase is Silence,
        forall|c: int|
            v.cursor <= c && c + v.gates.frame <= (v.heard + chunk).len() ==> !voiced(
                v.gates,
                #[trigger] (v.heard + chunk).subrange(c, c + v.gates.frame),
            ),
    ensures
        v.pushed(chunk).1 == Seq::<Seq<u8>>::empty(),
        v.pushed(chunk).0.phase is Silence,
{
    let heard = v.heard + chunk;
    lemma_quiet(v.gates, heard, v.cursor);
    assert(slices(heard, seq![]) =~= Seq::<Seq<u8>>::empty());
}

proof fn lemma_quiet(g: Gates, heard: Seq<u8>, c: nat)
    requires
        forall|k: int|
            c <= k && k + g.frame <= heard.len() ==> !voiced(
                g,
                #[trigger] heard.subrange(k, k + g.frame),
            ),
    ensures
        scan(g, heard, c, Listening::Silence).1 is Silence,
        scan(g, heard, c, Listening::Silence).2 == Seq::<(int, int)>::empty(),
    decreases heard.len() - c,
{
    if g.frame > 0 && c + g.frame <= heard.len() {
        assert(!voiced(g, heard.subrange(c as int, c as int + g.frame)));
        lemma_quiet(g, heard, c + g.frame);
    }
}

/// Frame number `k` from byte `start` on.
pub open spec fn frame_from(g: Gates, heard: Seq<u8>, start: int, k: int) -> Seq<u8> {
    heard.subrange(start + k * g.frame, start + k * g.frame + g.frame)
}

/// Whether frame number `k` from byte `start` on is speech.
pub open spec fn speech_at(g: Gates, heard: Seq<u8>, start: int, k: int) -> bool {
    voiced(g, frame_from(g, heard, start, k))
}

/// Whether the frames from number `i` on, counted from byte `start`, are silent for as long as it
/// takes to close a segment.
pub open spec fn closing_silence(g: Gates, heard: Seq<u8>, start: int, i: int) -> bool {
    forall|k: int| i <= k < i + g.min_silence ==> !speech_at(g, heard, start, k)
}

/// Whether the `n` frames from byte `start` on are a phrase: the first and the last are speech, and
/// no silence among them is long enough to close a segment.
pub open spec fn is_phrase(g: Gates, heard: Seq<u8>, start: int, n: int) -> bool {
    &&& n >= 1
    &&& 0 <= start && start + n * g.frame <= heard.len()
    &&& speech_at(g, heard, start, 0)
    &&& speech_at(g, heard, start, n - 1)
    &&& forall|i: int|
        0 <= i && i + g.min_silence <= n ==> !#[trigger] closing_silence(g, heard, start, i)
}

/// Whether the bytes from `start` to `end` are whole frames, and these are a phrase.
pub open spec fn whole_phrase(g: Gates, heard: Seq<u8>, start: int, end: int) -> bool {
    let n = (end - start) / g.frame as int;
    end == start + n * g.frame && is_phrase(g, heard, start, n)
}

/// Whether open speech, without the silence at its end, is a phrase so far.
pub open spec fn mid_phrase(v: Vad) -> bool {
    match v.phase {
        Listening::Silence => true,
        Listening::Speech { start, silence } => whole_phrase(
            v.gates,
            v.heard,
            start as int,
            v.cursor - silence * v.gates.frame,
        ),
    }
}

proof fn lemma_frame_count(start: int, end: int, frame: int, n: int)
    requires
        frame > 0,
        end == start + n * frame,
    ensures
        (end - start) / frame == n,
{
    vstd::arithmetic::div_mod::lemma_div_multiples_vanish(n, frame);
    assert(n * frame == frame * n) by (nonlinear_arith);
}

/// A phrase stays one when a silence that is too short to close it and a frame of speech follow.
proof fn lemma_phrase_grows(g: Gates, heard: Seq<u8>, start: int, n: int, silence: int)
    requires
        is_phrase(g, heard, start, n),
        0 <= silence < g.min_silence,
        start + (n + silence + 1) * g.frame <= heard.len(),
        speech_at(g, heard, start, n + silence),
    ensures
        is_phrase(g, heard, start, n + silence + 1),
{
    let m = n + silence + 1;
    assert forall|i: int| 0 <= i && i + g.min_silence <= m implies !#[trigger] closing_silence(
        g,
        heard,
        start,
        i,
    ) by {
        if i + g.min_silence == m {
            assert(speech_at(g, heard, start, n + silence));
        } else if i + g.min_silence > n {
            assert(speech_at(g, heard, start, n - 1));
        }
    }
}

proof fn lemma_phrase_step(v: Vad)
    requires
        v.wf(),
        mid_phrase(v),
        v.cursor + v.gates.frame <= v.heard.len(),
    ensures
        mid_phrase(after_frame(v)),
        frame_step(v.gates, v.heard, v.cursor, v.phase).1 matches Some((start, end))
            ==> whole_phrase(v.gates, v.heard, start, end),
{
    let g = v.gates;
    let f = g.frame as int;
    let c = v.cursor as int;
    assert(0 * f == 0) by (nonlinear_arith);
    assert(1 * f == f) by (nonlinear_arith);
    match v.phase {
        Listening::Silence => {
            if voiced(g, v.heard.subrange(c, c + f)) {
                assert(speech_at(g, v.heard, c, 0));
                assert(is_phrase(g, v.heard, c, 1));
                lemma_frame_count(c, c + f, f, 1);
            }
        },
        Listening::Speech { start, silence } => {
            let s = start as int;
            let quiet = silence * f;
            let n = (c - quiet - s) / f;
            let m = n + silence + 1;
            assert(s + (n + silence) * f == c) by (nonlinear_arith)
                requires
                    c - quiet == s + n * f,
                    quiet == silence * f,
            ;
            assert(s + m * f == c + f) by (nonlinear_arith)
                requires
                    s + (n + silence) * f == c,
                    m == n + silence + 1,
            ;
            assert((silence + 1) * f == quiet + f) by (nonlinear_arith)
                requires
                    quiet == silence * f,
            ;
            if voiced(g, v.heard.subrange(c, c + f)) {
                assert(speech_at(g, v.heard, s, n + silence));
                lemma_phrase_grows(g, v.heard, s, n, silence as int);
                lemma_frame_count(s, c + f, f, m);
            }
        },
    }
}

/// What comes later does not change a phrase.
proof fn lemma_phrase_extend(g: Gates, heard: Seq<u8>, more: Seq<u8>, start: int, n: int)
    requires
        is_phrase(g, heard, start, n),
    ensures
        is_phrase(g, heard + more, start, n),
{
    let f = g.frame as int;
    let longer = heard + more;
    assert forall|k: int| 0 <= k < n implies #[trigger] speech_at(g, longer, start, k)
        == speech_at(g, heard, start, k) by {
        assert(0 <= k * f && k * f + f <= n * f) by (nonlinear_arith)
            requires
                0 <= k,
                k + 1 <= n,
                f >= 0,
        ;
        assert(frame_from(g, longer, start, k) =~= frame_from(g, heard, start, k));
    }
    assert forall|i: int| 0 <= i && i + g.min_silence <= n implies !#[trigger] closing_silence(
        g,
        longer,
        start,
        i,
    ) by {
        assert(!closing_silence(g, heard, start, i));
        let k = choose|k: int| i <= k < i + g.min_silence && speech_at(g, heard, start, k);
        assert(speech_at(g, longer, start, k));
    }
}

proof fn lemma_scan_phrases(v: Vad)
    requires
        v.wf(),
        mid_phrase(v),
    ensures
        ({
            let (cursor, phase, ranges) = scan(v.gates, v.heard, v.cursor, v.phase);
            &&& mid_phrase(Vad { cursor, phase, ..v })
            &&& forall|i: int|
                0 <= i < ranges.len() ==> whole_phrase(
                    v.gates,
                    v.heard,
                    (#[trigger] ranges[i]).0,
                    ranges[i].1,
                )
        }),
    decreases v.heard.len() - v.cursor,
{
    if v.cursor + v.gates.frame <= v.heard.len() {
        lemma_frame(v);
        lemma_phrase_step(v);
        let w = after_frame(v);
        lemma_scan_phrases(w);
        let (_, cut) = frame_step(v.gates, v.heard, v.cursor, v.phase);
        let first = kept_cut(v.gates, v.heard, cut);
        let rest = scan(w.gates, w.heard, w.cursor, w.phase).2;
        let ranges = first + rest;
        assert forall|i: int| 0 <= i < ranges.len() implies whole_phrase(
            v.gates,
            v.heard,
            (#[trigger] ranges[i]).0,
            ranges[i].1,
        ) by {
            if i >= first.len() {
                assert(ranges[i] == rest[i - first.len()]);
            }
        }
    }
}

/// Every segment that a chunk completes is a phrase: whole frames, of which the first and the last
/// are speech, so that the silence that closed it is cut off, and among which no silence is long
/// enough to have closed it before.
pub proof fn segments_are_phrases(v: Vad, chunk: Seq<u8>)
    requires
        v.wf(),
        mid_phrase(v),
    ensures
        ({
            let after = v.pushed(chunk).0;
            let ranges = scan(v.gates, v.heard + chunk, v.cursor, v.phase).2;
            &&& mid_phrase(after)
            &&& v.pushed(chunk).1 == slices(after.heard, ranges)
            &&& forall|i: int|
                0 <= i < ranges.len() ==> whole_phrase(
                    v.gates,
                    after.heard,
                    (#[trigger] ranges[i]).0,
                    ranges[i].1,
                )
        }),
{
    let grown = Vad { heard: v.heard + chunk, ..v };
    if let Listening::Speech { start, silence } = v.phase {
        let n = (v.cursor - silence * v.gates.frame - start) / v.gates.frame as int;
        lemma_phrase_extend(v.gates, v.heard, chunk, start as int, n);
    }
    assert(grown.wf());
    lemma_scan_phrases(grown);
}

/// Chunks, one after another, as one.
pub open spec fn all_of(chunks: Seq<Seq<u8>>) -> Seq<u8>
    decreases chunks.len(),
{
    if chunks.len() == 0 {
        seq![]
    } else {
        all_of(chunks.drop_last()) + chunks.last()
    }
}

impl Vad {
    /// What pushing chunks one after another leads to, and the segments that they complete.
    pub open spec fn pushed_all(self, chunks: Seq<Seq<u8>>) -> (Vad, Seq<Seq<u8>>)
        decreases chunks.len(),
    {
        if chunks.len() == 0 {
            (self, seq![])
        } else {
            let (v, segments) = self.pushed_all(chunks.drop_last());
            let (w, more) = v.pushed(chunks.last());
            (w, segments + more)
        }
    }
}

/// Pushing chunks one after another is pushing all of them as one.
pub proof fn pushes_add_up(v: Vad, chunks: Seq<Seq<u8>>)
    requires
        v.wf(),
        v.heard.len() < v.cursor + v.gates.frame,
    ensures
        v.pushed_all(chunks) == v.pushed(all_of(chunks)),
    decreases chunks.len(),
{
    if chunks.len() == 0 {
        assert(v.heard + all_of(chunks) =~= v.heard);
        assert(slices(v.heard, seq![]) =~= seq![]);
    } else {
        pushes_add_up(v, chunks.drop_last());
        chunking_does_not_matter(v, all_of(chunks.drop_last()), chunks.last(), seq![]);
    }
}

/// However a stream comes in, the segments of all its chunks are slices of it, in order and apart;
/// each is a phrase, long enough and as loud as it needs to be, and shorter than the forced cut and
/// one closing silence together.
pub proof fn streams_are_divided_into_phrases(
    cfg: VadConfig,
    loudness: PhraseGates,
    chunks: Seq<Seq<u8>>,
)
    ensures
        ({
            let g = gates_with(cfg, loudness);
            let (v, segments) = Vad::start(g).pushed_all(chunks);
            let ranges = scan(g, all_of(chunks), 0, Listening::Silence).2;
            &&& v.gates == g && v.heard == all_of(chunks)
            &&& segments == slices(v.heard, ranges)
            &&& ranges_sound(v, ranges, 0, v.heard.len() as int)
            &&& forall|i: int|
                0 <= i < ranges.len() ==> whole_phrase(
                    g,
                    v.heard,
                    (#[trigger] ranges[i]).0,
                    ranges[i].1,
                )
            &&& cfg.sample_rate * cfg.frame_ms >= 1000 ==> v.limit() == g.max_segment
        }),
{
    let g = gates_with(cfg, loudness);
    let v = Vad::start(g);
    let all = all_of(chunks);
    assert(v.heard + all =~= all);
    pushes_add_up(v, chunks);
    segments_are_sound(v, all);
    segments_are_phrases(v, all);
    let after = v.pushed(all).0;
    assert(cfg.sample_rate as nat * cfg.frame_ms as nat == cfg.sample_rate * cfg.frame_ms);
}

/// Stopping keeps what was still open, from where speech began to the end of the sound and however
/// much silence came last, exactly if that is long enough, reaches the peak and is loud enough.
pub proof fn stopping_keeps_open_speech(v: Vad, start: nat, silence: nat)
    requires
        v.wf(),
        v.phase == (Listening::Speech { start, silence }),
    ensures
        ({
            let open = v.heard.skip(start as int);
            let (after, last) = v.flushed();
            &&& open.len() >= v.gates.min_speech && peak_of(samples(open)) >= v.gates.min_peak && loud(
                v.gates.min_rms,
                open,
            ) <==> last is Some
            &&& last is Some ==> last == Some(open)
            &&& after.phase is Silence && after.cursor == v.heard.len() && after.heard == v.heard
        }),
{
    lemma_silence_bytes(v);
    lemma_start(v);
    assert((silence + 1) * v.gates.frame >= v.gates.frame) by (nonlinear_arith)
        requires
            v.gates.frame >= 0,
            silence >= 0,
    ;
    assert(v.heard.subrange(start as int, v.heard.len() as int) =~= v.heard.skip(start as int));
}

/// Where nothing was open, stopping gives nothing and changes nothing.
pub proof fn stopping_in_silence_gives_nothing(v: Vad)
    requires
        v.phase is Silence,
    ensures
        v.flushed() == (v, None::<Seq<u8>>),
{
}

/// The lengths and levels that are set are what is asked of sound: a frame is as many whole samples as
/// last no longer than set, a closing silence is the least number of frames that last as long as set,
/// and so many bytes of sound last as long as the shortest phrase and the longest one. A frame never
/// is empty, one frame of silence is the least, and the longest phrase is never under two frames.
pub proof fn gates_are_as_set(cfg: VadConfig, pg: PhraseGates)
    requires
        cfg.sample_rate * cfg.frame_ms >= 1000,
    ensures
        ({
            let g = gates_with(cfg, pg);
            let per_second = 2 * cfg.sample_rate;
            &&& g.frame % 2 == 0 && g.frame >= 2
            &&& 500 * g.frame <= cfg.sample_rate * cfg.frame_ms < 500 * g.frame + 1000
            &&& g.min_silence >= 1
            &&& g.min_silence * cfg.frame_ms >= cfg.min_silence_ms
            &&& g.min_silence > 1 ==> (g.min_silence - 1) * cfg.frame_ms < cfg.min_silence_ms
            &&& 1000 * g.min_speech <= per_second * cfg.min_speech_ms < 1000 * g.min_speech + 1000
            &&& g.max_segment >= 2 * g.frame
            &&& g.max_segment == 2 * g.frame || 1000 * g.max_segment <= per_second
                * cfg.max_segment_ms
            &&& per_second * cfg.max_segment_ms < 1000 * g.max_segment + 1000
            &&& g.threshold == cfg.speech_rms_milli
            &&& g.min_peak == pg.min_peak
            &&& g.min_rms == pg.min_rms_milli
        }),
{
    let (r, f) = (cfg.sample_rate as int, cfg.frame_ms as int);
    let ms = cfg.min_silence_ms as int;
    assert(r * f >= 1000);
    assert(f > 0) by (nonlinear_arith)
        requires
            r * f >= 1000,
            f >= 0,
    ;
    let g = gates_with(cfg, pg);
    let (q, lo, hi) = (r * f / 1000, 2 * r * cfg.min_speech_ms, 2 * r * cfg.max_segment_ms);
    assert(g.frame == 2 * q);
    let m = (ms + f - 1) / f;
    assert(m * f >= ms && (m - 1) * f < ms && m >= 0) by (nonlinear_arith)
        requires
            m == (ms + f - 1) / f,
            f > 0,
            ms >= 0,
    ;
    assert(1 * f == f) by (nonlinear_arith);
    assert(r * 2 * cfg.min_speech_ms == 2 * r * cfg.min_speech_ms) by (nonlinear_arith);
    assert(r * 2 * cfg.max_segment_ms == 2 * r * cfg.max_segment_ms) by (nonlinear_arith);
    assert(g.min_silence == if m < 1 {
        1
    } else {
        m
    });
    assert(g.min_speech == lo / 1000);
    assert(g.max_segment == if hi / 1000 < 4 * q {
        4 * q
    } else {
        hi / 1000
    });
    let n = g.min_silence as int;
    assert(n * f >= ms && (n > 1 ==> (n - 1) * f < ms)) by (nonlinear_arith)
        requires
            m * f >= ms,
            (m - 1) * f < ms,
            m >= 0,
            f > 0,
            n == if m < 1 {
                1
            } else {
                m
            },
    ;
}

proof fn lemma_energy_joined(xs: Seq<int>, ys: Seq<int>)
    ensures
        energy_of(xs + ys) == energy_of(xs) + energy_of(ys),
    decreases ys.len(),
{
    if ys.len() == 0 {
        assert(xs + ys =~= xs);
    } else {
        assert((xs + ys).drop_last() =~= xs + ys.drop_last());
        lemma_energy_joined(xs, ys.drop_last());
    }
}

proof fn lemma_even_energy(xs: Seq<int>, a: int)
    requires
        forall|i: int| 0 <= i < xs.len() ==> #[trigger] xs[i] == a || xs[i] == -a,
    ensures
        energy_of(xs) == a * a * xs.len(),
    decreases xs.len(),
{
    if xs.len() > 0 {
        let less = xs.drop_last();
        assert forall|i: int| 0 <= i < less.len() implies #[trigger] less[i] == a || less[i] == -a by {
            assert(less[i] == xs[i]);
        }
        lemma_even_energy(less, a);
        let x = xs[xs.len() - 1];
        let n = xs.len() as int;
        assert(x * x == a * a) by (nonlinear_arith)
            requires
                x == a || x == -a,
        ;
        assert(a * a * n == a * a * (n - 1) + a * a) by (nonlinear_arith);
    } else {
        assert(a * a * 0 == 0) by (nonlinear_arith);
    }
}

proof fn lemma_samples_joined(x: Seq<u8>, y: Seq<u8>)
    requires
        x.len() % 2 == 0,
    ensures
        samples(x + y) == samples(x) + samples(y),
{
    assert(samples(x + y) =~= samples(x) + samples(y));
}

/// Loudness is the root of the mean of the squares: sound that swings between `a` and `-a`, followed by
/// as much or as little silence as one likes, is as loud as its squares, shared out among all of its
/// samples, say. Without the silence it is exactly `a`.
pub proof fn loudness_is_the_root_mean_square(a: int, tone: Seq<u8>, silence: Seq<u8>, milli: nat)
    requires
        0 <= a,
        tone.len() % 2 == 0,
        tone.len() >= 2,
        silence.len() % 2 == 0,
        forall|i: int|
            0 <= i < samples(tone).len() ==> #[trigger] samples(tone)[i] == a || samples(tone)[i]
                == -a,
        forall|i: int| 0 <= i < samples(silence).len() ==> #[trigger] samples(silence)[i] == 0,
    ensures
        loud(milli, tone) <==> milli <= 1000 * a,
        loud(milli, tone + silence) <==> milli * milli * (tone.len() + silence.len()) <= 1_000_000 * a
            * a * tone.len(),
{
    let (xs, zs) = (samples(tone), samples(silence));
    lemma_even_energy(xs, a);
    lemma_even_energy(zs, 0);
    lemma_samples_joined(tone, silence);
    lemma_energy_joined(xs, zs);
    let (m, n, k) = (milli as int, xs.len() as int, zs.len() as int);
    let e = a * a * n;
    assert(0 * 0 * k == 0) by (nonlinear_arith);
    assert(energy_of(xs) == e && energy_of(xs + zs) == e);
    assert((e * 1_000_000 >= m * m * n) <==> m <= 1000 * a) by (nonlinear_arith)
        requires
            e == a * a * n,
            n >= 1,
            m >= 0,
            a >= 0,
    ;
    assert((e * 1_000_000 >= m * m * (n + k)) <==> m * m * (2 * n + 2 * k) <= 1_000_000 * a * a * (2
        * n)) by (nonlinear_arith)
        requires
            e == a * a * n,
    ;
    assert((tone + silence).len() / 2 == n + k);
}

/// What is louder than asked for is loud, what is less loud is not: whatever reaches a loudness reaches
/// any smaller one, and what has no sample reaches none but zero.
pub proof fn louder_reaches_more(less: nat, more: nat, pcm: Seq<u8>)
    requires
        less <= more,
    ensures
        loud(more, pcm) ==> loud(less, pcm),
        pcm.len() < 2 ==> (loud(more, pcm) <==> more == 0),
{
    if loud(more, pcm) {
        lemma_louder(less, more, pcm);
    }
}

/// Open speech stays open or is cut from where it began to a later place.
proof fn lemma_open_is_cut(v: Vad)
    requires
        v.wf(),
        v.phase is Speech,
    ensures
        ({
            let (cursor, phase, ranges) = scan(v.gates, v.heard, v.cursor, v.phase);
            let start = v.phase->start as int;
            let said = v.cursor - v.phase->silence * v.gates.frame;
            ||| phase is Speech && phase->start == start
            ||| exists|end: int|
                said <= end <= v.heard.len() && (#[trigger] kept(v.gates, v.heard, start, end)
                    ==> ranges.contains((start, end)))
        }),
    decreases v.heard.len() - v.cursor,
{
    lemma_silence_bytes(v);
    lemma_start(v);
    let g = v.gates;
    if v.cursor + g.frame <= v.heard.len() {
        let (start, silence) = (v.phase->start, v.phase->silence);
        lemma_frame(v);
        let w = after_frame(v);
        let (_, cut) = frame_step(g, v.heard, v.cursor, v.phase);
        let first = kept_cut(g, v.heard, cut);
        let rest = scan(g, w.heard, w.cursor, w.phase).2;
        let ranges = first + rest;
        if let Some((a, b)) = cut {
            if kept(g, v.heard, a, b) {
                assert(ranges[0] == (a, b));
            }
            assert(a == start);
            assert(v.cursor - silence * g.frame <= b <= v.heard.len());
            assert(kept(g, v.heard, start as int, b) ==> ranges.contains((start as int, b)));
        } else {
            lemma_open_is_cut(w);
            assert(ranges =~= rest);
            assert((silence + 1) * g.frame == silence * g.frame + g.frame) by (nonlinear_arith);
            assert(0 * g.frame == 0) by (nonlinear_arith);
            assert(w.phase is Speech && w.phase->start == start);
            let phase = scan(g, w.heard, w.cursor, w.phase).1;
            assert(scan(g, v.heard, v.cursor, v.phase).1 == phase);
            if !(phase is Speech && phase->start == start) {
                let said = w.cursor - w.phase->silence * g.frame;
                let end = choose|end: int|
                    said <= end <= v.heard.len() && (#[trigger] kept(g, v.heard, start as int, end)
                        ==> rest.contains((start as int, end)));
                assert(v.cursor - silence * g.frame <= end);
                assert(kept(g, v.heard, start as int, end) ==> ranges.contains((start as int, end)));
            }
        }
    }
}

/// Whether what lies from byte `c` to byte `to` is in speech that is open in `phase`, or in a stretch
/// that is among `ranges` if it is kept.
spec fn covered(v: Vad, phase: Listening, ranges: Seq<(int, int)>, c: int, to: int) -> bool {
    ||| phase is Speech && phase->start <= c
    ||| exists|start: int, end: int|
        0 <= start <= c && to <= end <= v.heard.len() && (#[trigger] kept(
            v.gates,
            v.heard,
            start,
            end,
        ) ==> ranges.contains((start, end)))
}

proof fn lemma_covered(v: Vad, k: nat)
    requires
        v.wf(),
        v.cursor + k * v.gates.frame + v.gates.frame <= v.heard.len(),
        speech_at(v.gates, v.heard, v.cursor as int, k as int),
    ensures
        ({
            let (cursor, phase, ranges) = scan(v.gates, v.heard, v.cursor, v.phase);
            let c = v.cursor + k * v.gates.frame as int;
            covered(v, phase, ranges, c, c + v.gates.frame)
        }),
    decreases k,
{
    let g = v.gates;
    let f = g.frame as int;
    assert(0 <= k * f) by (nonlinear_arith)
        requires
            f >= 0,
            k >= 0,
    ;
    lemma_frame(v);
    lemma_start(v);
    let w = after_frame(v);
    let (_, cut) = frame_step(g, v.heard, v.cursor, v.phase);
    let first = kept_cut(g, v.heard, cut);
    let (_, phase, rest) = scan(g, w.heard, w.cursor, w.phase);
    let ranges = first + rest;
    let c = v.cursor + k * f;
    assert(scan(g, v.heard, v.cursor, v.phase).2 == ranges);
    assert(scan(g, v.heard, v.cursor, v.phase).1 == phase);
    if k == 0 {
        assert(0 * f == 0) by (nonlinear_arith);
        assert(frame_from(g, v.heard, v.cursor as int, 0) == v.heard.subrange(
            v.cursor as int,
            v.cursor + f,
        ));
        if let Some((a, b)) = cut {
            if kept(g, v.heard, a, b) {
                assert(ranges[0] == (a, b));
            }
            assert(0 <= a <= c && b == c + f);
            assert(kept(g, v.heard, a, b) ==> ranges.contains((a, b)));
        } else {
            assert(w.phase is Speech && w.phase->silence == 0);
            lemma_open_is_cut(w);
            assert(ranges =~= rest);
            let begun = w.phase->start as int;
            if !(phase is Speech && phase->start == begun) {
                let end = choose|end: int|
                    w.cursor - w.phase->silence * g.frame <= end <= v.heard.len() && (#[trigger] kept(
                        g,
                        v.heard,
                        begun,
                        end,
                    ) ==> rest.contains((begun, end)));
                assert(kept(g, v.heard, begun, end) ==> ranges.contains((begun, end)));
            }
        }
        assert(covered(v, phase, ranges, c, c + f));
    } else {
        assert((k - 1) * f + f == k * f) by (nonlinear_arith);
        assert(frame_from(g, v.heard, v.cursor as int, k as int) == frame_from(
            g,
            w.heard,
            w.cursor as int,
            k - 1,
        ));
        lemma_covered(w, (k - 1) as nat);
        assert(c == w.cursor + (k - 1) * f);
        assert(w.gates == g && w.heard == v.heard);
        assert(covered(w, phase, rest, c, c + f));
        if !(phase is Speech && phase->start <= c) {
            let (a, b) = choose|start: int, end: int|
                0 <= start <= c && c + f <= end <= v.heard.len() && (#[trigger] kept(
                    g,
                    v.heard,
                    start,
                    end,
                ) ==> rest.contains((start, end)));
            if rest.contains((a, b)) {
                let i = choose|i: int| 0 <= i < rest.len() && rest[i] == (a, b);
                assert(ranges[first.len() + i] == (a, b));
                assert(ranges.contains((a, b)));
            }
            assert(0 <= a <= c && c + f <= b <= v.heard.len());
            if kept(v.gates, v.heard, a, b) {
                assert(ranges.contains((a, b)));
                assert(covered(v, phase, ranges, c, c + f));
            } else {
                assert(covered(v, phase, ranges, c, c + f));
            }
        }
    }
}

/// No speech is lost: every frame of speech, the `k`th from where listening stands, lies in speech that
/// is still open, or in a stretch that comes out as a segment if only it is long enough, reaches the
/// peak and is loud enough.
pub proof fn no_speech_is_lost(v: Vad, chunk: Seq<u8>, k: nat)
    requires
        v.wf(),
        v.cursor + k * v.gates.frame + v.gates.frame <= v.heard.len() + chunk.len(),
        speech_at(v.gates, v.heard + chunk, v.cursor as int, k as int),
    ensures
        ({
            let (after, segments) = v.pushed(chunk);
            let heard = v.heard + chunk;
            let c = v.cursor + k * v.gates.frame;
            ||| after.phase is Speech && after.phase->start <= c
            ||| exists|start: int, end: int|
                #![trigger heard.subrange(start, end)]
                0 <= start <= c && c + v.gates.frame <= end <= heard.len() && (end - start
                    >= v.gates.min_speech && peak_of(samples(heard.subrange(start, end)))
                    >= v.gates.min_peak && loud(v.gates.min_rms, heard.subrange(start, end))
                    ==> segments.contains(heard.subrange(start, end)))
        }),
{
    let heard = v.heard + chunk;
    let grown = Vad { heard, ..v };
    assert(grown.wf());
    lemma_covered(grown, k);
    let c = (v.cursor + k * v.gates.frame) as int;
    let (_, phase, ranges) = scan(v.gates, heard, v.cursor, v.phase);
    let segments = v.pushed(chunk).1;
    assert(grown.gates == v.gates && grown.cursor == v.cursor && grown.phase == v.phase);
    if !(phase is Speech && phase->start <= c) {
        let (a, b) = choose|start: int, end: int|
            0 <= start <= c && c + v.gates.frame <= end <= heard.len() && (#[trigger] kept(
                v.gates,
                heard,
                start,
                end,
            ) ==> ranges.contains((start, end)));
        if ranges.contains((a, b)) {
            let i = choose|i: int| 0 <= i < ranges.len() && ranges[i] == (a, b);
            assert(segments[i] == heard.subrange(a, b));
            assert(segments.contains(heard.subrange(a, b)));
        } else {
            assert(!kept(v.gates, heard, a, b));
        }
        let said = heard.subrange(a, b);
        assert(b - a >= v.gates.min_speech && peak_of(samples(said)) >= v.gates.min_peak && loud(
            v.gates.min_rms,
            said,
        ) ==> segments.contains(said));
    }
}

/// Whether the silent frames at the end of open speech are silent.
spec fn quiet_end(v: Vad) -> bool {
    v.phase matches Listening::Speech { start, silence } ==> silent_from(
        v.gates,
        v.heard,
        v.cursor - silence * v.gates.frame,
        silence,
    )
}

/// Whether the `n` frames from byte `at` on are all there and all silent.
pub open spec fn silent_from(g: Gates, heard: Seq<u8>, at: int, n: nat) -> bool {
    &&& 0 <= at && at + n * g.frame <= heard.len()
    &&& forall|k: int| 0 <= k < n ==> !#[trigger] speech_at(g, heard, at, k)
}

proof fn lemma_quiet_step(v: Vad)
    requires
        v.wf(),
        quiet_end(v),
        v.cursor + v.gates.frame <= v.heard.len(),
    ensures
        quiet_end(after_frame(v)),
        frame_step(v.gates, v.heard, v.cursor, v.phase).1 matches Some((start, end)) ==> end - start
            >= v.gates.max_segment || silent_from(v.gates, v.heard, end, v.gates.min_silence),
{
    let g = v.gates;
    let f = g.frame as int;
    assert(0 * f == 0) by (nonlinear_arith);
    lemma_silence_bytes(v);
    lemma_start(v);
    if let Listening::Speech { start, silence } = v.phase {
        let at = v.cursor - silence * f;
        assert((silence + 1) * f == silence * f + f) by (nonlinear_arith);
        if !voiced(g, v.heard.subrange(v.cursor as int, v.cursor + f)) {
            assert forall|k: int| 0 <= k < silence + 1 implies !#[trigger] speech_at(
                g,
                v.heard,
                at,
                k,
            ) by {
                if k == silence {
                    assert(frame_from(g, v.heard, at, k) == v.heard.subrange(
                        v.cursor as int,
                        v.cursor + f,
                    ));
                }
            }
            assert(silent_from(g, v.heard, at, (silence + 1) as nat));
        }
    }
}

proof fn lemma_reasons(v: Vad)
    requires
        v.wf(),
        quiet_end(v),
    ensures
        ({
            let ranges = scan(v.gates, v.heard, v.cursor, v.phase).2;
            forall|i: int|
                0 <= i < ranges.len() ==> (#[trigger] ranges[i]).1 - ranges[i].0
                    >= v.gates.max_segment || silent_from(
                    v.gates,
                    v.heard,
                    ranges[i].1,
                    v.gates.min_silence,
                )
        }),
    decreases v.heard.len() - v.cursor,
{
    if v.cursor + v.gates.frame <= v.heard.len() {
        lemma_frame(v);
        lemma_quiet_step(v);
        let w = after_frame(v);
        lemma_reasons(w);
        let (_, cut) = frame_step(v.gates, v.heard, v.cursor, v.phase);
        let first = kept_cut(v.gates, v.heard, cut);
        let rest = scan(w.gates, w.heard, w.cursor, w.phase).2;
        let ranges = first + rest;
        assert forall|i: int| 0 <= i < ranges.len() implies (#[trigger] ranges[i]).1 - ranges[i].0
            >= v.gates.max_segment || silent_from(
            v.gates,
            v.heard,
            ranges[i].1,
            v.gates.min_silence,
        ) by {
            if i >= first.len() {
                assert(ranges[i] == rest[i - first.len()]);
            }
        }
    }
}

proof fn lemma_reasons_from_the_start(cfg: VadConfig, loudness: PhraseGates, all: Seq<u8>)
    ensures
        ({
            let g = gates_with(cfg, loudness);
            let ranges = scan(g, all, 0, Listening::Silence).2;
            forall|i: int|
                0 <= i < ranges.len() ==> (#[trigger] ranges[i]).1 - ranges[i].0 >= g.max_segment
                    || silent_from(g, all, ranges[i].1, g.min_silence)
        }),
{
    let g = gates_with(cfg, loudness);
    let w = Vad { heard: all, ..Vad::start(g) };
    assert(w.gates == g && w.heard == all && w.cursor == 0 && w.phase is Silence);
    lemma_reasons(w);
}

/// A phrase only ends for a reason: it is as long as one may be, or it is followed by a silence that
/// lasts as long as set. And such a silence does end it: where the last frames are silent for that
/// long, no speech is open.
pub proof fn phrases_end_for_a_reason(cfg: VadConfig, loudness: PhraseGates, chunks: Seq<Seq<u8>>)
    ensures
        ({
            let g = gates_with(cfg, loudness);
            let (v, segments) = Vad::start(g).pushed_all(chunks);
            let ranges = scan(g, all_of(chunks), 0, Listening::Silence).2;
            &&& segments == slices(v.heard, ranges)
            &&& forall|i: int|
                0 <= i < ranges.len() ==> (#[trigger] ranges[i]).1 - ranges[i].0 >= g.max_segment
                    || silent_from(g, v.heard, ranges[i].1, g.min_silence)
            &&& v.heard.len() - g.frame < v.cursor <= v.heard.len()
            &&& silent_from(g, v.heard, v.cursor - g.min_silence * g.frame, g.min_silence)
                ==> v.phase is Silence
        }),
{
    let g = gates_with(cfg, loudness);
    let start = Vad::start(g);
    let all = all_of(chunks);
    assert(start.heard + all =~= all);
    pushes_add_up(start, chunks);
    segments_are_sound(start, all);
    segments_are_phrases(start, all);
    let v = start.pushed(all).0;
    let f = g.frame as int;
    let m = g.min_silence as int;
    let tail = v.cursor - m * f;
    if let Listening::Speech { start: begun, silence } = v.phase {
        if silent_from(g, v.heard, tail, g.min_silence) {
            let end = v.cursor - silence * f;
            let n = (end - begun) / f;
            let k = m - silence - 1;
            assert(begun + (n - 1) * f == tail + k * f) by (nonlinear_arith)
                requires
                    begun + n * f == end,
                    end == v.cursor - silence * f,
                    tail == v.cursor - m * f,
                    k == m - silence - 1,
            ;
            assert(frame_from(g, v.heard, begun as int, n - 1) == frame_from(g, v.heard, tail, k));
            assert(speech_at(g, v.heard, begun as int, n - 1));
            assert(!speech_at(g, v.heard, tail, k));
        }
    }
    let ranges = scan(g, all, 0, Listening::Silence).2;
    assert(v == start.pushed_all(chunks).0);
    assert(start.pushed_all(chunks).1 == slices(v.heard, ranges));
    assert(v.heard == all && v.gates == g);
    lemma_reasons_from_the_start(cfg, loudness, all);
    assert(v.heard.len() - g.frame < v.cursor <= v.heard.len());
    assert(silent_from(g, v.heard, v.cursor - g.min_silence * g.frame, g.min_silence)
        ==> v.phase is Silence);
}

/// Speech never stays open once it is as long as a phrase may be, not counting the silence it ends with.
pub proof fn speech_is_cut_at_its_longest(cfg: VadConfig, loudness: PhraseGates, chunks: Seq<Seq<u8>>)
    requires
        cfg.sample_rate * cfg.frame_ms >= 1000,
    ensures
        ({
            let g = gates_with(cfg, loudness);
            let v = Vad::start(g).pushed_all(chunks).0;
            v.phase matches Listening::Speech { start, silence } ==> v.cursor - silence * g.frame - start
                < g.max_segment
        }),
{
    let g = gates_with(cfg, loudness);
    let start = Vad::start(g);
    let all = all_of(chunks);
    assert(start.heard + all =~= all);
    pushes_add_up(start, chunks);
    segments_are_sound(start, all);
    gates_are_as_set(cfg, loudness);
    let v = start.pushed_all(chunks).0;
    assert(v == start.pushed(all).0);
    assert(v.wf() && v.gates == g);
    assert(v.limit() == g.max_segment);
}

} // verus!
