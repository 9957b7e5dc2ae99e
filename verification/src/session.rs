//! One dictation: how it is recorded, how its phrases reach the screen, and how it ends.

use crate::config::{Bits, Config, Provider, Settings};
use crate::phrase::{self, Preedit};
use crate::pipeline::CaptureTune;
use crate::stream_vad::{PhraseGates, SpeechLevel, VadConfig};
use crate::{config, stream_vad, text, wav};
use vstd::prelude::*;

verus! {

/// Which models are there.
#[derive(Debug, Clone, Copy, PartialEq, Eq, Structural)]
pub struct Models {
    pub qwen3: bool,
    pub whisper: bool,
    pub stream: bool,
}

/// How a recording is recognised.
#[derive(Debug, Clone, Copy, PartialEq, Eq, Structural)]
pub enum Mode {
    /// As a whole, at the end.
    Plain,
    /// Phrase by phrase.
    Streaming,
    /// Phrase by phrase, with provisional text before.
    Dual,
}

/// Why a recording cannot start.
#[derive(Debug, Clone, Copy, PartialEq, Eq, Structural)]
pub enum StartError {
    Qwen3NotReady,
    WhisperMissing,
}

/// How a recording is made.
#[derive(Debug, Clone)]
pub struct StartPlan {
    pub mode: Mode,
    pub vad: VadConfig,
    /// The peak and the loudness a phrase needs.
    pub gates: PhraseGates,
    /// How many times louder than the room speech is to be.
    pub snr: Bits,
    pub tune: CaptureTune,
    /// The microphone, unless it is the system's default.
    pub device: Option<String>,
}

/// Why a recording with these settings and models cannot start.
pub open spec fn start_fault(s: Settings, m: Models) -> Option<StartError> {
    match s.provider {
        Provider::Qwen3 => if m.qwen3 {
            None
        } else {
            Some(StartError::Qwen3NotReady)
        },
        Provider::Local => if m.whisper {
            None
        } else {
            Some(StartError::WhisperMissing)
        },
        Provider::Xai => None,
    }
}

/// How a recording with these settings and models is recognised.
pub open spec fn mode_for(s: Settings, m: Models) -> Mode {
    if !s.stream || s.provider == Provider::Xai {
        Mode::Plain
    } else if s.dual_model && m.stream {
        Mode::Dual
    } else {
        Mode::Streaming
    }
}

/// How speech is told from silence; `speech_rms_milli` is the loudness from which sound is speech.
pub open spec fn vad_for(s: Settings, speech_rms_milli: u32) -> VadConfig {
    let least = if s.near_field {
        300u32
    } else {
        250u32
    };
    VadConfig {
        sample_rate: s.sample_rate,
        frame_ms: 30,
        speech_rms_milli,
        min_silence_ms: s.stream_min_silence_ms,
        min_speech_ms: if s.stream_min_speech_ms > least {
            s.stream_min_speech_ms
        } else {
            least
        },
        max_segment_ms: s.stream_max_segment_ms,
    }
}

/// The peak and the loudness that a phrase needs: more of both where only the near speaker counts.
pub open spec fn gates_for(s: Settings) -> PhraseGates {
    if s.near_field {
        PhraseGates { min_peak: 900, min_rms_milli: 280_000 }
    } else {
        PhraseGates { min_peak: 350, min_rms_milli: 150_000 }
    }
}

/// The microphone that is set, if one is.
pub open spec fn device_for(s: Settings) -> Option<Seq<char>> {
    if text::trimmed(s.input_device).len() == 0 {
        None
    } else {
        Some(text::trimmed(s.input_device))
    }
}

/// Plans a recording. `level` holds the least loudness of speech and the ratio that are set, and the
/// noise of the room.
pub fn start_recording(cfg: &Config, m: Models, level: SpeechLevel) -> (r: Result<
    StartPlan,
    StartError,
>)
    ensures
        match start_fault(cfg@, m) {
            Some(e) => r == Err::<StartPlan, StartError>(e),
            None => r matches Ok(p) && {
                &&& p.mode == mode_for(cfg@, m)
                &&& p.vad == vad_for(cfg@, level.gate() as u32)
                &&& p.snr == config::or_default(
                    cfg@.vad_snr,
                    cfg@.near_field,
                    config::TWO_POINT_FOUR,
                    config::ONE_POINT_SIX,
                )
                &&& p.gates == gates_for(cfg@)
                &&& p.tune.agc_max_gain == config::within_gain(
                    config::or_default(
                        cfg@.agc_max_gain,
                        cfg@.near_field,
                        config::FOUR,
                        config::TWELVE,
                    ),
                )
                &&& p.tune.preedit_min_rms_milli == 0
                &&& text::opt_string(p.device) == device_for(cfg@)
            },
        },
{
    match cfg.provider {
        Provider::Qwen3 => {
            if !m.qwen3 {
                return Err(StartError::Qwen3NotReady);
            }
        },
        Provider::Local => {
            if !m.whisper {
                return Err(StartError::WhisperMissing);
            }
        },
        Provider::Xai => {},
    }
    let by_phrase = cfg.stream && match cfg.provider {
        Provider::Qwen3 | Provider::Local => true,
        Provider::Xai => false,
    };
    let mode = if !by_phrase {
        Mode::Plain
    } else if cfg.dual_model && m.stream {
        Mode::Dual
    } else {
        Mode::Streaming
    };
    let least: u32 = if cfg.near_field {
        300
    } else {
        250
    };
    let vad = VadConfig {
        sample_rate: cfg.sample_rate,
        frame_ms: 30,
        speech_rms_milli: level.threshold(),
        min_silence_ms: cfg.stream_min_silence_ms,
        min_speech_ms: if cfg.stream_min_speech_ms > least {
            cfg.stream_min_speech_ms
        } else {
            least
        },
        max_segment_ms: cfg.stream_max_segment_ms,
    };
    let name = text::trim(cfg.input_device.as_str());
    let device = if name.unicode_len() == 0 {
        None
    } else {
        Some(name.to_string())
    };
    Ok(
        StartPlan {
            mode,
            vad,
            gates: PhraseGates {
                min_peak: cfg.effective_min_segment_peak(),
                min_rms_milli: if cfg.near_field {
                    280_000
                } else {
                    150_000
                },
            },
            snr: cfg.effective_vad_snr(),
            tune: CaptureTune {
                agc_max_gain: cfg.effective_agc_max_gain(),
                preedit_min_rms_milli: 0,
            },
            device,
        },
    )
}

/// In a recording that is planned so, a frame only is speech if it has the least loudness of speech
/// and is as many times louder than the room as the ratio says, unless that is one.
pub proof fn bystanders_are_not_heard(
    s: Settings,
    level: SpeechLevel,
    gates: PhraseGates,
    frame: Seq<u8>,
)
    requires
        stream_vad::voiced(stream_vad::gates_with(vad_for(s, level.gate() as u32), gates), frame),
    ensures
        stream_vad::loud(level.rms_milli as nat, frame),
        level.snr_milli != 1000 ==> stream_vad::stands_out(
            level.snr_milli as nat,
            level.floor_milli as nat,
            frame,
        ),
{
    stream_vad::speech_stands_out(level, frame);
}

impl StartError {
    /// What is shown if a recording cannot start.
    pub fn message(self, cfg: &Config) -> (r: String)
        ensures
            r@ == match self {
                StartError::Qwen3NotReady => "Qwen3 model not ready: "@ + cfg@.qwen3_model_dir,
                StartError::WhisperMissing => "whisper model not found: "@ + cfg@.local_model,
            },
    {
        match self {
            StartError::Qwen3NotReady => text::cat(
                "Qwen3 model not ready: ",
                cfg.qwen3_model_dir.as_str(),
            ),
            StartError::WhisperMissing => text::cat(
                "whisper model not found: ",
                cfg.local_model.as_str(),
            ),
        }
    }
}

/// Whether the streaming recogniser is loaded ahead.
#[derive(Debug, Clone, Copy, PartialEq, Eq, Structural)]
pub enum Preload {
    No,
    Yes,
    /// It is asked for and its model is not there: phrases only.
    Missing,
}

/// Which recognisers are loaded when the daemon comes up: Qwen3-ASR, and the streaming one.
pub fn preload(cfg: &Config, stream_ready: bool) -> (r: (bool, Preload))
    ensures
        r.0 == (cfg@.provider == Provider::Qwen3),
        r.1 == if !(cfg@.dual_model && cfg@.stream) {
            Preload::No
        } else if stream_ready {
            Preload::Yes
        } else {
            Preload::Missing
        },
{
    let qwen3 = match cfg.provider {
        Provider::Qwen3 => true,
        _ => false,
    };
    let stream = if !(cfg.dual_model && cfg.stream) {
        Preload::No
    } else if stream_ready {
        Preload::Yes
    } else {
        Preload::Missing
    };
    (qwen3, stream)
}

/// What became of a phrase that was to be put on screen.
#[derive(Debug, Clone, Copy, PartialEq, Eq, Structural)]
pub enum Commit {
    /// It is on screen.
    OnScreen,
    /// It is not, but counts as said.
    Kept,
    /// It is lost.
    Lost,
}

/// What is to be done with a phrase.
#[derive(Debug, Clone)]
pub enum Next {
    /// Nothing came of it.
    Skip,
    /// Put this on screen.
    Commit(String),
}

/// What a [`Next`] holds: the text for the screen, if there is one.
pub open spec fn to_commit(n: Next) -> Option<Seq<char>> {
    match n {
        Next::Skip => None,
        Next::Commit(t) => Some(t@),
    }
}

/// What a dictation put on screen.
#[derive(Debug, Clone)]
pub struct StreamOutcome {
    pub committed: String,
    pub phrases: u32,
}

/// The text and the count of phrases once `piece` came to an end as `how` says.
pub open spec fn said(committed: Seq<char>, phrases: int, piece: Seq<char>, how: Commit) -> (
    Seq<char>,
    int,
) {
    match how {
        Commit::Lost => (committed, phrases),
        _ => (phrase::appended(committed, piece), phrases + 1),
    }
}

/// Recognition phrase by phrase.
#[derive(Debug, Clone)]
pub struct PhraseWorker {
    pub committed: String,
    pub phrases: u32,
    pub dropped: u32,
    /// Whether no phrase is on screen yet.
    pub first: bool,
}

/// What a [`PhraseWorker`] holds.
#[verifier::ext_equal]
pub struct Phrases {
    pub committed: Seq<char>,
    pub phrases: int,
    pub dropped: int,
    pub first: bool,
}

impl View for PhraseWorker {
    type V = Phrases;

    open spec fn view(&self) -> Phrases {
        Phrases {
            committed: self.committed@,
            phrases: self.phrases as int,
            dropped: self.dropped as int,
            first: self.first,
        }
    }
}

impl Phrases {
    /// Before the first phrase.
    pub open spec fn start() -> Phrases {
        Phrases { committed: Seq::empty(), phrases: 0, dropped: 0, first: true }
    }

    /// There is text exactly if a phrase was counted.
    pub open spec fn wf(self) -> bool {
        &&& self.phrases >= 0
        &&& self.phrases == 0 <==> self.committed.len() == 0
    }

    /// After a phrase was heard as `heard`, or could not be recognised, and the text for the
    /// screen.
    pub open spec fn heard(self, heard: Option<Seq<char>>) -> (Phrases, Option<Seq<char>>) {
        match heard {
            Some(t) if text::trimmed(t).len() > 0 => (self, Some(text::trimmed(t))),
            _ => (Phrases { dropped: self.dropped + 1, ..self }, None),
        }
    }

    /// After `piece` came to an end as `how` says.
    pub open spec fn said(self, piece: Seq<char>, how: Commit) -> Phrases {
        let (committed, phrases) = said(self.committed, self.phrases, piece, how);
        Phrases {
            committed,
            phrases,
            dropped: self.dropped,
            first: self.first && how != Commit::OnScreen,
        }
    }
}

impl PhraseWorker {
    /// Before the first phrase.
    pub fn new() -> (r: Self)
        ensures
            r@ == Phrases::start(),
            r@.wf(),
    {
        PhraseWorker { committed: String::new(), phrases: 0, dropped: 0, first: true }
    }

    /// A phrase was heard, or could not be recognised.
    pub fn heard(&mut self, heard: Option<&str>) -> (r: Next)
        requires
            old(self)@.heard(text::opt_str(heard)).0.dropped <= u32::MAX,
        ensures
            (final(self)@, to_commit(r)) == old(self)@.heard(text::opt_str(heard)),
    {
        match heard {
            Some(t) => {
                let t = text::trim(t);
                if t.unicode_len() > 0 {
                    return Next::Commit(t.to_string());
                }
            },
            None => {},
        }
        self.dropped = self.dropped + 1;
        Next::Skip
    }

    /// A phrase was put on screen, or could not be.
    pub fn said(&mut self, piece: &str, how: Commit)
        requires
            old(self)@.said(piece@, how).phrases <= u32::MAX,
        ensures
            final(self)@ == old(self)@.said(piece@, how),
    {
        match how {
            Commit::OnScreen => {
                phrase::append_phrase(&mut self.committed, piece);
                self.phrases = self.phrases + 1;
                self.first = false;
            },
            Commit::Kept => {
                phrase::append_phrase(&mut self.committed, piece);
                self.phrases = self.phrases + 1;
            },
            Commit::Lost => {},
        }
    }

    /// What the dictation put on screen.
    pub fn outcome(self) -> (r: StreamOutcome)
        ensures
            r.committed@ == self@.committed,
            r.phrases == self@.phrases,
    {
        StreamOutcome { committed: self.committed, phrases: self.phrases }
    }
}

/// How often the streaming recogniser is started anew in one dictation.
pub const MAX_RESTARTS: u32 = 2;

/// What follows on the start of the streaming recogniser.
#[derive(Debug, Clone, Copy, PartialEq, Eq, Structural)]
pub enum Begin {
    /// Listen.
    Listen,
    /// Start it anew.
    Recover,
    /// Do without it.
    PhrasesOnly,
}

/// Recognition phrase by phrase, with provisional text from a second recogniser.
#[derive(Debug, Clone)]
pub struct DualWorker {
    pub sample_rate: u32,
    /// Whether provisional text is shown.
    pub show_preedit: bool,
    pub committed: String,
    pub phrases: u32,
    pub dropped: u32,
    pub restarts: u32,
    /// The last provisional text, shown or not.
    pub last_partial: String,
    pub shown: String,
    pub pending: String,
    pub pending_hits: u8,
    /// When provisional text was first shown, in milliseconds after the start.
    pub first_preedit_ms: Option<u64>,
}

/// What a [`DualWorker`] holds.
#[verifier::ext_equal]
pub struct Dual {
    pub sample_rate: u32,
    pub show_preedit: bool,
    pub committed: Seq<char>,
    pub phrases: int,
    pub dropped: int,
    pub restarts: int,
    pub last_partial: Seq<char>,
    pub preedit: Preedit,
    pub first_preedit_ms: Option<u64>,
}

impl View for DualWorker {
    type V = Dual;

    open spec fn view(&self) -> Dual {
        Dual {
            sample_rate: self.sample_rate,
            show_preedit: self.show_preedit,
            committed: self.committed@,
            phrases: self.phrases as int,
            dropped: self.dropped as int,
            restarts: self.restarts as int,
            last_partial: self.last_partial@,
            preedit: Preedit {
                shown: self.shown@,
                pending: self.pending@,
                hits: self.pending_hits as int,
            },
            first_preedit_ms: self.first_preedit_ms,
        }
    }
}

impl Dual {
    /// Before the first sound.
    pub open spec fn start(sample_rate: u32, show_preedit: bool) -> Dual {
        Dual {
            sample_rate,
            show_preedit,
            committed: Seq::empty(),
            phrases: 0,
            dropped: 0,
            restarts: 0,
            last_partial: Seq::empty(),
            preedit: phrase::settled(Seq::empty()),
            first_preedit_ms: None,
        }
    }

    /// There is text exactly if a phrase was counted, a provisional text is held back for one
    /// read at most, and the streaming recogniser is not started anew for ever.
    pub open spec fn wf(self) -> bool {
        &&& self.phrases >= 0
        &&& self.phrases == 0 <==> self.committed.len() == 0
        &&& self.preedit.wf()
        &&& 0 <= self.restarts <= MAX_RESTARTS
    }

    /// After provisional text was read `elapsed_ms` after the start, and what is to be shown.
    pub open spec fn guessed(self, partial: Seq<char>, elapsed_ms: u64) -> (Dual, Option<Seq<char>>) {
        let raw = text::trimmed(partial);
        if !self.show_preedit {
            (Dual { last_partial: raw, ..self }, None)
        } else {
            let (preedit, show) = self.preedit.read(raw);
            (
                Dual {
                    last_partial: raw,
                    preedit,
                    first_preedit_ms: if self.first_preedit_ms is None && show is Some {
                        Some(elapsed_ms)
                    } else {
                        self.first_preedit_ms
                    },
                    ..self
                },
                show,
            )
        }
    }

    /// After the streaming recogniser failed, and whether it is to be started anew.
    pub open spec fn failed(self) -> (Dual, bool) {
        (Dual { dropped: self.dropped + 1, ..self }, self.restarts < MAX_RESTARTS)
    }

    /// After it was started anew, or could not be.
    pub open spec fn recovered(self, ok: bool) -> Dual {
        if ok {
            Dual { restarts: self.restarts + 1, ..self }
        } else {
            self
        }
    }

    /// After a phrase of `bytes` bytes was heard as `heard`, or could not be recognised, and the
    /// text for the screen. What was provisional is gone.
    pub open spec fn heard(self, heard: Option<Seq<char>>, bytes: int) -> (Dual, Option<Seq<char>>) {
        let qwen = match heard {
            Some(t) => text::trimmed(t),
            None => Seq::empty(),
        };
        let txt = phrase::dual_final(qwen, self.last_partial, bytes, self.sample_rate as int);
        (
            Dual {
                dropped: if heard is None {
                    self.dropped + 1
                } else {
                    self.dropped
                },
                last_partial: Seq::empty(),
                preedit: phrase::settled(Seq::empty()),
                ..self
            },
            if txt.len() == 0 {
                None
            } else {
                Some(txt)
            },
        )
    }

    /// After `piece` came to an end as `how` says.
    pub open spec fn said(self, piece: Seq<char>, how: Commit) -> Dual {
        let (committed, phrases) = said(self.committed, self.phrases, piece, how);
        Dual { committed, phrases, ..self }
    }
}

impl DualWorker {
    /// Before the first sound.
    pub fn new(sample_rate: u32, show_preedit: bool) -> (r: Self)
        ensures
            r@ == Dual::start(sample_rate, show_preedit),
            r@.wf(),
    {
        DualWorker {
            sample_rate,
            show_preedit,
            committed: String::new(),
            phrases: 0,
            dropped: 0,
            restarts: 0,
            last_partial: String::new(),
            shown: String::new(),
            pending: String::new(),
            pending_hits: 0,
            first_preedit_ms: None,
        }
    }

    /// What follows on the first start of the streaming recogniser.
    pub fn begin(&self, started: bool) -> (r: Begin)
        ensures
            r == if started {
                Begin::Listen
            } else {
                Begin::Recover
            },
    {
        if started {
            Begin::Listen
        } else {
            Begin::Recover
        }
    }

    /// What follows on the attempt to start it anew after a bad start.
    pub fn begin_again(&mut self, ok: bool) -> (r: Begin)
        requires
            old(self)@.recovered(ok).restarts <= u32::MAX,
        ensures
            final(self)@ == old(self)@.recovered(ok),
            r == if ok {
                Begin::Listen
            } else {
                Begin::PhrasesOnly
            },
    {
        if ok {
            self.restarts = self.restarts + 1;
            Begin::Listen
        } else {
            Begin::PhrasesOnly
        }
    }

    /// Provisional text was read. Says what is to be shown.
    pub fn guessed(&mut self, partial: &str, elapsed_ms: u64) -> (r: Option<String>)
        ensures
            (final(self)@, text::opt_string(r)) == old(self)@.guessed(partial@, elapsed_ms),
    {
        let raw = text::trim(partial);
        self.last_partial = raw.to_string();
        if !self.show_preedit {
            return None;
        }
        let show = phrase::preedit_update(
            &mut self.shown,
            &mut self.pending,
            &mut self.pending_hits,
            raw,
        );
        if self.first_preedit_ms.is_none() && show.is_some() {
            self.first_preedit_ms = Some(elapsed_ms);
        }
        show
    }

    /// The streaming recogniser failed. Says whether it is to be started anew.
    pub fn failed(&mut self) -> (r: bool)
        requires
            old(self).dropped < u32::MAX,
        ensures
            (final(self)@, r) == old(self)@.failed(),
    {
        self.dropped = self.dropped + 1;
        self.restarts < MAX_RESTARTS
    }

    /// It was started anew, or could not be.
    pub fn recovered(&mut self, ok: bool)
        requires
            old(self)@.recovered(ok).restarts <= u32::MAX,
        ensures
            final(self)@ == old(self)@.recovered(ok),
    {
        if ok {
            self.restarts = self.restarts + 1;
        }
    }

    /// A phrase of `bytes` bytes was heard, or could not be recognised.
    pub fn heard(&mut self, heard: Option<&str>, bytes: usize) -> (r: Next)
        requires
            old(self)@.heard(text::opt_str(heard), bytes as int).0.dropped <= u32::MAX,
        ensures
            (final(self)@, to_commit(r)) == old(self)@.heard(text::opt_str(heard), bytes as int),
    {
        let qwen = match heard {
            Some(t) => text::trim(t),
            None => {
                self.dropped = self.dropped + 1;
                proof {
                    reveal_strlit("");
                    assert(""@ =~= Seq::empty());
                }
                ""
            },
        };
        let txt = phrase::pick_dual_final(qwen, self.last_partial.as_str(), bytes, self.sample_rate);
        self.last_partial = String::new();
        self.shown = String::new();
        self.pending = String::new();
        self.pending_hits = 0;
        if txt.as_str().unicode_len() == 0 {
            Next::Skip
        } else {
            Next::Commit(txt)
        }
    }

    /// A phrase was put on screen, or could not be.
    pub fn said(&mut self, piece: &str, how: Commit)
        requires
            old(self)@.said(piece@, how).phrases <= u32::MAX,
        ensures
            final(self)@ == old(self)@.said(piece@, how),
    {
        match how {
            Commit::OnScreen | Commit::Kept => {
                phrase::append_phrase(&mut self.committed, piece);
                self.phrases = self.phrases + 1;
            },
            Commit::Lost => {},
        }
    }

    /// What the dictation put on screen.
    pub fn outcome(self) -> (r: StreamOutcome)
        ensures
            r.committed@ == self@.committed,
            r.phrases == self@.phrases,
    {
        StreamOutcome { committed: self.committed, phrases: self.phrases }
    }
}

/// What happens in a dictation with provisional text.
pub enum DualStep {
    Guessed(Seq<char>, u64),
    Failed(bool),
    Heard(Option<Seq<char>>, int, Commit),
}

impl Dual {
    /// The state after a step, a phrase being followed through to its end and a failure to the
    /// attempt to start anew.
    pub open spec fn stepped(self, step: DualStep) -> Dual {
        match step {
            DualStep::Guessed(t, ms) => self.guessed(t, ms).0,
            DualStep::Failed(ok) => {
                let (d, again) = self.failed();
                if again {
                    d.recovered(ok)
                } else {
                    d
                }
            },
            DualStep::Heard(t, bytes, how) => {
                let (d, next) = self.heard(t, bytes);
                match next {
                    Some(piece) => d.said(piece, how),
                    None => d,
                }
            },
        }
    }
}

/// Whatever happens in a dictation, the text on screen only grows, provisional text never becomes
/// final by itself, and what is always true of the state stays true.
pub proof fn dictation_only_grows(d: Dual, step: DualStep)
    requires
        d.wf(),
    ensures
        d.stepped(step).wf(),
        d.committed.is_prefix_of(d.stepped(step).committed),
        d.stepped(step).phrases >= d.phrases,
        !(step is Heard) ==> d.stepped(step).committed == d.committed,
{
    match step {
        DualStep::Guessed(t, ms) => {
            phrase::preedit_stays_wf(d.preedit, text::trimmed(t));
        },
        DualStep::Failed(ok) => {},
        DualStep::Heard(t, bytes, how) => {
            let (e, next) = d.heard(t, bytes);
            if let Some(piece) = next {
                phrase::appending_keeps_both(d.committed, piece);
            }
        },
    }
}

/// A rewrite of the provisional text that shares little with what is shown is held back when it is
/// first guessed and shown when the same guess comes again.
pub proof fn repeated_guesses_are_shown(d: Dual, t: Seq<char>, ms: u64, later: u64)
    requires
        d.wf(),
        d.show_preedit,
        text::trimmed(t).len() > 0,
        text::trimmed(t) != d.preedit.shown,
        !phrase::smooth(d.preedit.shown, text::trimmed(t)),
        text::trimmed(t) != d.preedit.pending,
    ensures
        d.guessed(t, ms).1 is None,
        d.guessed(t, ms).0.preedit.shown == d.preedit.shown,
        d.guessed(t, ms).0.guessed(t, later).1 == Some(text::trimmed(t)),
{
    text::trimming_is_idempotent(t);
}

/// A phrase ends all that was provisional, and what the final recogniser heard is what reaches
/// the screen.
pub proof fn phrases_clear_provisional_text(d: Dual, heard: Option<Seq<char>>, bytes: int)
    ensures
        d.heard(heard, bytes).0.preedit == phrase::settled(Seq::empty()),
        d.heard(heard, bytes).0.last_partial.len() == 0,
        heard matches Some(t) ==> text::trimmed(t).len() > 0 ==> d.heard(heard, bytes).1 == Some(
            text::trimmed(t),
        ),
{
    if let Some(t) = heard {
        text::trimming_is_idempotent(t);
    }
}

/// Phrase by phrase, the text on screen only grows, and there is text exactly if a phrase was
/// counted.
pub proof fn phrases_only_grow(p: Phrases, heard: Option<Seq<char>>, how: Commit)
    requires
        p.wf(),
    ensures
        ({
            let (q, next) = p.heard(heard);
            &&& q.wf()
            &&& q.committed == p.committed
            &&& next matches Some(piece) ==> {
                &&& q.said(piece, how).wf()
                &&& p.committed.is_prefix_of(q.said(piece, how).committed)
                &&& how == Commit::OnScreen ==> !q.said(piece, how).first
            }
        }),
{
    let (q, next) = p.heard(heard);
    if let Some(piece) = next {
        phrase::appending_keeps_both(q.committed, piece);
    }
}

/// How the recognition that went on during the recording came to its end.
#[derive(Debug, Clone)]
pub enum Joined {
    /// There was none.
    NoWorker,
    /// It broke down.
    Crashed,
    /// With this outcome.
    Done(StreamOutcome),
}

/// Why a dictation gives no text.
#[derive(Debug, Clone, Copy, PartialEq, Eq, Structural)]
pub enum FinishError {
    /// The recognition during the recording broke down; what it put on screen stays.
    WorkerCrashed,
    TooShort,
    /// Hardly any sound.
    NoSignal { peak: i32 },
    /// Little sound, and nothing recognised.
    Weak { peak: i32 },
    /// Nothing recognised.
    NoSpeech { peak: i32 },
}

/// How a dictation goes on once its recording has ended.
#[derive(Debug, Clone)]
pub enum Finish {
    /// It is done, and this is on screen.
    Return(String),
    Fail(FinishError),
    /// The recording is recognised as a whole.
    Batch,
}

/// What a [`Finish`] holds.
pub enum FinishView {
    Return(Seq<char>),
    Fail(FinishError),
    Batch,
}

impl View for Finish {
    type V = FinishView;

    open spec fn view(&self) -> FinishView {
        match *self {
            Finish::Return(t) => FinishView::Return(t@),
            Finish::Fail(e) => FinishView::Fail(e),
            Finish::Batch => FinishView::Batch,
        }
    }
}

/// The text on screen when the recognition during the recording came to its end.
pub open spec fn on_screen(joined: Joined) -> Seq<char> {
    match joined {
        Joined::Done(o) => o.committed@,
        _ => Seq::empty(),
    }
}

/// How a dictation goes on once its recording has ended.
pub open spec fn finish_of(streaming: bool, joined: Joined, sample_rate: u32, pcm: Seq<u8>) -> FinishView {
    let peak = wav::peak_of(wav::samples(pcm));
    if !streaming {
        FinishView::Batch
    } else if joined is Crashed {
        FinishView::Fail(FinishError::WorkerCrashed)
    } else if on_screen(joined).len() > 0 {
        FinishView::Return(on_screen(joined))
    } else if pcm.len() < sample_rate {
        FinishView::Fail(FinishError::TooShort)
    } else if peak < 120 {
        FinishView::Fail(FinishError::NoSignal { peak: peak as i32 })
    } else {
        FinishView::Batch
    }
}

/// Decides how a dictation goes on once its recording has ended.
pub fn finish_and_deliver(streaming: bool, joined: Joined, sample_rate: u32, pcm: &[u8]) -> (r:
    Finish)
    ensures
        r@ == finish_of(streaming, joined, sample_rate, pcm@),
{
    if !streaming {
        return Finish::Batch;
    }
    match joined {
        Joined::Crashed => return Finish::Fail(FinishError::WorkerCrashed),
        Joined::NoWorker => {},
        Joined::Done(o) => {
            if o.committed.as_str().unicode_len() > 0 {
                return Finish::Return(o.committed);
            }
        },
    }
    if (pcm.len() as u64) < sample_rate as u64 {
        return Finish::Fail(FinishError::TooShort);
    }
    let peak: i32 = wav::pcm16_levels(pcm).peak;
    if peak < 120 {
        return Finish::Fail(FinishError::NoSignal { peak });
    }
    Finish::Batch
}

/// Text is never put on screen twice: a recording is recognised as a whole only if none of it is
/// on screen, and never after its recognition broke down.
pub proof fn nothing_is_typed_twice(streaming: bool, joined: Joined, sample_rate: u32, pcm: Seq<u8>)
    ensures
        streaming && finish_of(streaming, joined, sample_rate, pcm) is Batch ==> on_screen(
            joined,
        ).len() == 0 && !(joined is Crashed),
        streaming && on_screen(joined).len() > 0 ==> finish_of(streaming, joined, sample_rate, pcm)
            == FinishView::Return(on_screen(joined)),
{
}

/// The part of a recording that is recognised as a whole: at most its last minute.
pub open spec fn last_minute(sample_rate: u32, pcm: Seq<u8>) -> Seq<u8> {
    let most = sample_rate * 2 * 60;
    if pcm.len() > most {
        pcm.skip(pcm.len() - most)
    } else {
        pcm
    }
}

/// The part of a recording that is recognised as a whole.
pub fn batch_part(sample_rate: u32, pcm: &[u8]) -> (r: &[u8])
    ensures
        r@ == last_minute(sample_rate, pcm@),
{
    let most: u64 = (sample_rate as u64) * 2 * 60;
    let n: usize = pcm.len();
    if n as u64 > most {
        let from: usize = n - most as usize;
        let r = vstd::slice::slice_subrange(pcm, from, n);
        assert(r@ =~= pcm@.skip(pcm@.len() - most));
        r
    } else {
        pcm
    }
}

/// What is wrong if nothing was recognised in a recording of `bytes` bytes.
pub open spec fn batch_fault(bytes: int, sample_rate: u32, peak: i32) -> FinishError {
    if bytes < 3 * sample_rate {
        FinishError::TooShort
    } else if peak < 200 {
        FinishError::Weak { peak }
    } else {
        FinishError::NoSpeech { peak }
    }
}

/// The outcome of recognising a recording of `bytes` bytes as a whole: the text, or why there is
/// none.
pub fn finish_batch(heard: String, bytes: usize, sample_rate: u32, peak: i32) -> (r: Result<
    String,
    FinishError,
>)
    ensures
        if heard@.len() == 0 {
            r == Err::<String, FinishError>(batch_fault(bytes as int, sample_rate, peak))
        } else {
            r == Ok::<String, FinishError>(heard)
        },
{
    if heard.as_str().unicode_len() == 0 {
        if (bytes as u64) < 3 * (sample_rate as u64) {
            Err(FinishError::TooShort)
        } else if peak < 200 {
            Err(FinishError::Weak { peak })
        } else {
            Err(FinishError::NoSpeech { peak })
        }
    } else {
        Ok(heard)
    }
}

/// A recording cannot start exactly if the recogniser that is set has no model on this machine; the
/// service needs none.
pub proof fn recordings_need_their_model(s: Settings, m: Models)
    ensures
        start_fault(s, m) == Some(StartError::Qwen3NotReady) <==> s.provider == Provider::Qwen3 && !m.qwen3,
        start_fault(s, m) == Some(StartError::WhisperMissing) <==> s.provider == Provider::Local
            && !m.whisper,
        s.provider == Provider::Xai ==> start_fault(s, m) is None,
        s.provider == Provider::Qwen3 && m.qwen3 ==> start_fault(s, m) is None,
        s.provider == Provider::Local && m.whisper ==> start_fault(s, m) is None,
{
}

/// Phrases are recognised one by one exactly if streaming is set and the recogniser is on this machine;
/// provisional text comes with them exactly if it is set too and its model is there.
pub proof fn phrases_are_streamed_where_they_can_be(s: Settings, m: Models)
    ensures
        ({
            let here = s.provider == Provider::Qwen3 || s.provider == Provider::Local;
            &&& mode_for(s, m) == Mode::Plain <==> !(s.stream && here)
            &&& mode_for(s, m) == Mode::Dual <==> s.stream && here && s.dual_model && m.stream
            &&& mode_for(s, m) == Mode::Streaming <==> s.stream && here && !(s.dual_model && m.stream)
        }),
{
}

/// Speech is told from silence as it is set, in frames of 30 milliseconds; only the least length of speech
/// is never below 300 milliseconds for the near speaker and 250 otherwise. A phrase needs more peak and
/// loudness where only the near speaker counts.
pub proof fn speech_is_told_as_set(s: Settings, rms: u32)
    ensures
        ({
            let v = vad_for(s, rms);
            let g = gates_for(s);
            &&& v.sample_rate == s.sample_rate && v.frame_ms == 30 && v.speech_rms_milli == rms
            &&& v.min_silence_ms == s.stream_min_silence_ms
            &&& v.max_segment_ms == s.stream_max_segment_ms
            &&& v.min_speech_ms >= s.stream_min_speech_ms
            &&& v.min_speech_ms == s.stream_min_speech_ms || v.min_speech_ms == if s.near_field {
                300u32
            } else {
                250u32
            }
            &&& s.near_field ==> v.min_speech_ms >= 300 && g.min_peak == 900 && g.min_rms_milli == 280_000
            &&& !s.near_field ==> v.min_speech_ms >= 250 && g.min_peak == 350 && g.min_rms_milli
                == 150_000
        }),
{
}

/// The microphone that is set is used, without the white space around its name, and the system's own where
/// none is.
pub proof fn the_set_microphone_is_used(s: Settings)
    ensures
        text::trimmed(s.input_device).len() > 0 ==> device_for(s) == Some(text::trimmed(s.input_device)),
        text::trimmed(s.input_device).len() == 0 ==> device_for(s) is None,
{
}

/// A phrase that is lost changes nothing; any other joins the text and is counted. Nothing but a phrase on
/// screen ends the wait for the first.
pub proof fn phrases_count_unless_they_are_lost(p: Phrases, d: Dual, piece: Seq<char>, how: Commit)
    ensures
        p.said(piece, Commit::Lost) == p,
        d.said(piece, Commit::Lost) == d,
        how != Commit::Lost ==> p.said(piece, how).committed == phrase::appended(p.committed, piece)
            && p.said(piece, how).phrases == p.phrases + 1 && p.said(piece, how).dropped == p.dropped,
        how != Commit::Lost ==> d.said(piece, how) == (Dual {
            committed: phrase::appended(d.committed, piece),
            phrases: d.phrases + 1,
            ..d
        }),
        p.said(piece, Commit::OnScreen).first == false,
        p.said(piece, Commit::Kept).first == p.first,
{
}

/// What was heard goes to the screen without the white space around it; what was not heard, or is blank,
/// is dropped and counted, and nothing else changes.
pub proof fn blank_phrases_are_dropped(p: Phrases, t: Seq<char>)
    ensures
        text::trimmed(t).len() > 0 ==> p.heard(Some(t)) == (p, Some(text::trimmed(t))),
        text::trimmed(t).len() == 0 ==> p.heard(Some(t)) == p.heard(None),
        p.heard(None) == (Phrases { dropped: p.dropped + 1, ..p }, None::<Seq<char>>),
{
}

/// A dictation goes through its phrases one by one: two stretches of it, one after the other, say the same
/// as both at once, and each phrase that is kept adds to the text what it adds alone.
pub proof fn phrases_are_said_in_order(p: Phrases, a: Seq<char>, b: Seq<char>)
    ensures
        ({
            let both = p.said(a, Commit::OnScreen).said(b, Commit::OnScreen);
            &&& both.committed == phrase::appended(phrase::appended(p.committed, a), b)
            &&& both.phrases == p.phrases + 2
            &&& p.said(a, Commit::Lost).said(b, Commit::OnScreen) == p.said(b, Commit::OnScreen)
        }),
{
}

/// Every guess is kept without the white space around it; it is only shown where guesses are, as the
/// provisional text says, and only the first that is shown sets the time.
pub proof fn guesses_are_kept(d: Dual, t: Seq<char>, ms: u64)
    ensures
        ({
            let (after, show) = d.guessed(t, ms);
            &&& after.last_partial == text::trimmed(t)
            &&& after.committed == d.committed && after.phrases == d.phrases && after.dropped == d.dropped
                && after.restarts == d.restarts && after.sample_rate == d.sample_rate
                && after.show_preedit == d.show_preedit
            &&& !d.show_preedit ==> show is None && after.preedit == d.preedit && after.first_preedit_ms
                == d.first_preedit_ms
            &&& d.show_preedit ==> (after.preedit, show) == d.preedit.read(text::trimmed(t))
            &&& d.first_preedit_ms is Some || show is None ==> after.first_preedit_ms
                == d.first_preedit_ms
            &&& d.first_preedit_ms is None && show is Some ==> after.first_preedit_ms == Some(ms)
        }),
{
}

/// The streaming recogniser is started anew twice in one dictation and not again; each failure counts, a
/// start that did not succeed does not.
pub proof fn the_recogniser_is_started_anew_twice(d: Dual)
    ensures
        d.failed().0 == (Dual { dropped: d.dropped + 1, ..d }),
        d.failed().1 <==> d.restarts < 2,
        d.recovered(false) == d,
        d.recovered(true) == (Dual { restarts: d.restarts + 1, ..d }),
        d.restarts == 0 ==> ({
            let once = d.failed().0.recovered(true);
            let twice = once.failed().0.recovered(true);
            once.failed().1 && !twice.failed().1
        }),
{
}

/// Where the final recogniser heard nothing, what was guessed last stands in for it as far as the phrase is
/// short; what it did hear always counts. A phrase only counts as dropped if it could not be recognised.
pub proof fn guesses_stand_in_for_the_final_text(d: Dual, heard: Option<Seq<char>>, t: Seq<char>, bytes: int)
    ensures
        d.heard(None, bytes).0.dropped == d.dropped + 1,
        d.heard(Some(t), bytes).0.dropped == d.dropped,
        d.heard(heard, bytes).0.committed == d.committed,
        d.heard(heard, bytes).0.phrases == d.phrases,
        d.heard(heard, bytes).0.restarts == d.restarts,
        text::trimmed(t).len() == 0 ==> d.heard(Some(t), bytes).1 == d.heard(None, bytes).1,
        d.heard(None, bytes).1 == ({
            let txt = phrase::dual_final(Seq::empty(), d.last_partial, bytes, d.sample_rate as int);
            if txt.len() == 0 {
                None
            } else {
                Some(txt)
            }
        }),
{
    if text::trimmed(t).len() == 0 {
        assert(text::trimmed(t) =~= Seq::<char>::empty());
    }
}

/// How a dictation ends: one that was not streamed is recognised as a whole; one whose recognition broke
/// down fails; what is on screen is returned; and without that a recording of less than half a second or
/// with a peak below 120 fails, and any other is recognised as a whole.
pub proof fn dictations_end_in_one_way(joined: Joined, rate: u32, pcm: Seq<u8>, o: StreamOutcome)
    ensures
        ({
            let peak = wav::peak_of(wav::samples(pcm));
            let silent = joined is NoWorker || (joined matches Joined::Done(x) && x.committed@.len() == 0);
            &&& finish_of(false, joined, rate, pcm) is Batch
            &&& finish_of(true, Joined::Crashed, rate, pcm) == FinishView::Fail(FinishError::WorkerCrashed)
            &&& o.committed@.len() > 0 ==> finish_of(true, Joined::Done(o), rate, pcm)
                == FinishView::Return(o.committed@)
            &&& silent && pcm.len() < rate ==> finish_of(true, joined, rate, pcm) == FinishView::Fail(
                FinishError::TooShort,
            )
            &&& silent && pcm.len() >= rate && peak < 120 ==> finish_of(true, joined, rate, pcm)
                == FinishView::Fail(FinishError::NoSignal { peak: peak as i32 })
            &&& silent && pcm.len() >= rate && peak >= 120 ==> finish_of(true, joined, rate, pcm) is Batch
        }),
{
}

/// Of a recording its end is recognised: all of it up to a minute, and exactly a minute of a longer one.
pub proof fn at_most_a_minute_is_recognised(rate: u32, pcm: Seq<u8>)
    ensures
        last_minute(rate, pcm).is_suffix_of(pcm),
        pcm.len() <= rate * 120 ==> last_minute(rate, pcm) == pcm,
        pcm.len() > rate * 120 ==> last_minute(rate, pcm).len() == rate * 120,
{
}

/// Where nothing was recognised, a recording under a second and a half was too short, one with a peak below
/// 200 too weak, and any other held no speech.
pub proof fn silence_has_a_reason(bytes: int, rate: u32, peak: i32)
    ensures
        bytes < 3 * rate <==> batch_fault(bytes, rate, peak) == FinishError::TooShort,
        bytes >= 3 * rate && peak < 200 <==> batch_fault(bytes, rate, peak) == (FinishError::Weak { peak }),
        bytes >= 3 * rate && peak >= 200 <==> batch_fault(bytes, rate, peak) == (FinishError::NoSpeech {
            peak,
        }),
{
}

/// A dictation starts without text, without a phrase counted or dropped, and with nothing provisional.
pub proof fn dictations_start_empty(sample_rate: u32, show_preedit: bool)
    ensures
        ({
            let p = Phrases::start();
            let d = Dual::start(sample_rate, show_preedit);
            &&& p.committed.len() == 0 && p.phrases == 0 && p.dropped == 0 && p.first
            &&& d.committed.len() == 0 && d.phrases == 0 && d.dropped == 0 && d.restarts == 0
            &&& d.last_partial.len() == 0 && d.first_preedit_ms is None
            &&& d.preedit.shown.len() == 0 && d.preedit.pending.len() == 0 && d.preedit.hits == 0
            &&& d.sample_rate == sample_rate && d.show_preedit == show_preedit
        }),
{
}

} // verus!
