//! Settings and what follows from them.
//!
//! The three fractional settings are held as the bits of an IEEE 754 double: for positive numbers
//! the order of the bits is the order of the numbers.

use crate::text;
use vstd::prelude::*;

verus! {

/// Who recognises the speech.
#[derive(Debug, Clone, Copy, PartialEq, Eq, Structural)]
pub enum Provider {
    /// Qwen3-ASR on this machine.
    Qwen3,
    /// whisper.cpp on this machine.
    Local,
    /// The xAI speech service.
    Xai,
}

impl Default for Provider {
    fn default() -> (r: Self)
        ensures
            r == Provider::Qwen3,
    {
        Provider::Qwen3
    }
}

/// The bits of a double.
pub type Bits = u64;

/// Infinity, the largest number.
pub const INFINITY: Bits = 0x7ff0_0000_0000_0000;

/// The number 1.
pub const ONE: Bits = 0x3ff0_0000_0000_0000;

/// The number 1.6.
pub const ONE_POINT_SIX: Bits = 0x3ff9_9999_9999_999a;

/// The number 2.4.
pub const TWO_POINT_FOUR: Bits = 0x4003_3333_3333_3333;

/// The number 4.
pub const FOUR: Bits = 0x4010_0000_0000_0000;

/// The number 12.
pub const TWELVE: Bits = 0x4028_0000_0000_0000;

/// The number 32.
pub const THIRTY_TWO: Bits = 0x4040_0000_0000_0000;

/// The number 320.
pub const THREE_TWENTY: Bits = 0x4074_0000_0000_0000;

/// The number 520.
pub const FIVE_TWENTY: Bits = 0x4080_4000_0000_0000;

/// Whether the bits are those of a number above zero.
pub open spec fn positive(b: Bits) -> bool {
    0 < b <= INFINITY
}

fn is_positive(b: Bits) -> (r: bool)
    ensures
        r == positive(b),
{
    0 < b && b <= INFINITY
}

/// All settings.
#[derive(Debug, Clone)]
pub struct Config {
    pub provider: Provider,
    /// Root of the xAI API, such as `https://api.x.ai`.
    pub api_base: String,
    pub stt_path: String,
    /// Language code, or `auto`.
    pub language: String,
    pub sample_rate: u32,
    pub interim_results: bool,
    pub endpointing_ms: u32,
    pub keyterms: Vec<String>,
    pub paste: bool,
    /// HTTP proxy for the xAI API; empty to look for one.
    pub proxy: String,
    /// Model file of whisper.cpp.
    pub local_model: String,
    /// Threads of the recognisers on this machine.
    pub local_threads: u32,
    /// Model directory of Qwen3-ASR.
    pub qwen3_model_dir: String,
    pub qwen3_max_new_tokens: u32,
    /// Words to prefer, separated by commas.
    pub qwen3_hotwords: String,
    /// `rightalt`, `leftalt` or `none`.
    pub hotkey: String,
    /// `toggle` or `ptt`.
    pub hotkey_mode: String,
    /// Microphone; empty for the system's default.
    pub input_device: String,
    /// Put phrases on screen while still recording.
    pub stream: bool,
    /// Silence that ends a phrase, in milliseconds.
    pub stream_min_silence_ms: u32,
    /// Length at which a phrase is cut, in milliseconds.
    pub stream_max_segment_ms: u32,
    /// Length under which a phrase is dropped, in milliseconds.
    pub stream_min_speech_ms: u32,
    /// Provisional text from a streaming recogniser, final text from Qwen3-ASR.
    pub dual_model: bool,
    /// Show the provisional text.
    pub dual_preedit: bool,
    /// Model directory of the streaming recogniser.
    pub stream_model_dir: String,
    pub stream_threads: u32,
    /// Prefer a close microphone over bystanders.
    pub near_field: bool,
    /// Loudness from which sound is speech; not above zero to derive it from `near_field`.
    pub vad_speech_rms: Bits,
    /// How many times louder than the room speech is; not above zero to derive it.
    pub vad_snr: Bits,
    /// Limit of the software gain; not above zero to derive it.
    pub agc_max_gain: Bits,
}

/// What a [`Config`] holds.
pub struct Settings {
    pub provider: Provider,
    pub api_base: Seq<char>,
    pub stt_path: Seq<char>,
    pub language: Seq<char>,
    pub sample_rate: u32,
    pub interim_results: bool,
    pub endpointing_ms: u32,
    pub keyterms: Seq<Seq<char>>,
    pub paste: bool,
    pub proxy: Seq<char>,
    pub local_model: Seq<char>,
    pub local_threads: u32,
    pub qwen3_model_dir: Seq<char>,
    pub qwen3_max_new_tokens: u32,
    pub qwen3_hotwords: Seq<char>,
    pub hotkey: Seq<char>,
    pub hotkey_mode: Seq<char>,
    pub input_device: Seq<char>,
    pub stream: bool,
    pub stream_min_silence_ms: u32,
    pub stream_max_segment_ms: u32,
    pub stream_min_speech_ms: u32,
    pub dual_model: bool,
    pub dual_preedit: bool,
    pub stream_model_dir: Seq<char>,
    pub stream_threads: u32,
    pub near_field: bool,
    pub vad_speech_rms: Bits,
    pub vad_snr: Bits,
    pub agc_max_gain: Bits,
}

impl View for Config {
    type V = Settings;

    open spec fn view(&self) -> Settings {
        Settings {
            provider: self.provider,
            api_base: self.api_base@,
            stt_path: self.stt_path@,
            language: self.language@,
            sample_rate: self.sample_rate,
            interim_results: self.interim_results,
            endpointing_ms: self.endpointing_ms,
            keyterms: text::texts(self.keyterms@),
            paste: self.paste,
            proxy: self.proxy@,
            local_model: self.local_model@,
            local_threads: self.local_threads,
            qwen3_model_dir: self.qwen3_model_dir@,
            qwen3_max_new_tokens: self.qwen3_max_new_tokens,
            qwen3_hotwords: self.qwen3_hotwords@,
            hotkey: self.hotkey@,
            hotkey_mode: self.hotkey_mode@,
            input_device: self.input_device@,
            stream: self.stream,
            stream_min_silence_ms: self.stream_min_silence_ms,
            stream_max_segment_ms: self.stream_max_segment_ms,
            stream_min_speech_ms: self.stream_min_speech_ms,
            dual_model: self.dual_model,
            dual_preedit: self.dual_preedit,
            stream_model_dir: self.stream_model_dir@,
            stream_threads: self.stream_threads,
            near_field: self.near_field,
            vad_speech_rms: self.vad_speech_rms,
            vad_snr: self.vad_snr,
            agc_max_gain: self.agc_max_gain,
        }
    }
}

/// The value a fractional setting stands for: itself if it is above zero, otherwise one of two
/// defaults.
pub open spec fn or_default(b: Bits, near_field: bool, near: Bits, far: Bits) -> Bits {
    if positive(b) {
        b
    } else if near_field {
        near
    } else {
        far
    }
}

/// `b`, moved into the range from 1 to 32.
pub open spec fn within_gain(b: Bits) -> Bits {
    if b < ONE {
        ONE
    } else if b > THIRTY_TWO {
        THIRTY_TWO
    } else {
        b
    }
}

/// Whether a mode's name asks for the key to be held while speaking.
pub open spec fn names_ptt(mode: Seq<char>) -> bool {
    ||| mode == "ptt"@
    ||| mode == "hold"@
    ||| mode == "push"@
    ||| mode == "pushtotalk"@
    ||| mode == "push-to-talk"@
}

/// Whether `mode`, in lower case, asks for the key to be held while speaking.
pub fn is_ptt_name(mode: &str) -> (r: bool)
    ensures
        r == names_ptt(mode@),
{
    text::same(mode, "ptt") || text::same(mode, "hold") || text::same(mode, "push") || text::same(
        mode,
        "pushtotalk",
    ) || text::same(mode, "push-to-talk")
}

impl Settings {
    /// Whether the hotkey is held while speaking.
    pub open spec fn ptt(self) -> bool {
        names_ptt(text::lowered(text::trimmed(self.hotkey_mode)))
    }

    /// The threads used where nothing is set: those of the machine, at most eight, or four if
    /// that is unknown.
    pub open spec fn default_threads(cores: Option<usize>) -> u32 {
        match cores {
            Some(n) => if n < 8 {
                n as u32
            } else {
                8
            },
            None => 4,
        }
    }

    /// The settings where nothing is set, with models below `data_dir`.
    pub open spec fn defaults(data_dir: Option<Seq<char>>, cores: Option<usize>) -> Settings {
        Settings {
            provider: Provider::Qwen3,
            api_base: "https://api.x.ai"@,
            stt_path: "/v1/stt"@,
            language: "zh"@,
            sample_rate: 16_000,
            interim_results: true,
            endpointing_ms: 400,
            keyterms: seq![],
            paste: true,
            proxy: "http://127.0.0.1:7897"@,
            local_model: in_data_dir(data_dir, "xai-dict/models/ggml-small.bin"@),
            local_threads: Settings::default_threads(cores),
            qwen3_model_dir: in_data_dir(
                data_dir,
                "xai-dict/models/sherpa-onnx-qwen3-asr-0.6B-int8-2026-03-25"@,
            ),
            qwen3_max_new_tokens: 128,
            qwen3_hotwords: seq![],
            hotkey: "rightalt"@,
            hotkey_mode: "toggle"@,
            input_device: seq![],
            stream: true,
            stream_min_silence_ms: 600,
            stream_max_segment_ms: 12_000,
            stream_min_speech_ms: 280,
            dual_model: true,
            dual_preedit: true,
            stream_model_dir: in_data_dir(
                data_dir,
                "xai-dict/models/sherpa-onnx-streaming-paraformer-bilingual-zh-en"@,
            ),
            stream_threads: 3,
            near_field: true,
            vad_speech_rms: 0,
            vad_snr: 0,
            agc_max_gain: 0,
        }
    }
}

/// A path below the user's data directory, or below the current one if there is none.
pub open spec fn in_data_dir(data_dir: Option<Seq<char>>, rel: Seq<char>) -> Seq<char> {
    match data_dir {
        Some(d) => text::below(d, rel),
        None => text::below("."@, rel),
    }
}

/// A path below the user's data directory.
pub fn data_path(data_dir: Option<&str>, rel: &str) -> (r: String)
    ensures
        r@ == in_data_dir(text::opt_str(data_dir), rel@),
{
    match data_dir {
        Some(d) => text::join_path(d, rel),
        None => text::join_path(".", rel),
    }
}

impl Config {
    /// The settings where nothing is set, on a machine with `cores` cores and with the user's
    /// data in `data_dir`.
    pub fn defaults(data_dir: Option<&str>, cores: Option<usize>) -> (r: Self)
        ensures
            r@ == Settings::defaults(text::opt_str(data_dir), cores),
    {
        let threads: u32 = match cores {
            Some(n) => if n < 8 {
                n as u32
            } else {
                8
            },
            None => 4,
        };
        let r = Config {
            provider: Provider::Qwen3,
            api_base: "https://api.x.ai".to_string(),
            stt_path: "/v1/stt".to_string(),
            language: "zh".to_string(),
            sample_rate: 16_000,
            interim_results: true,
            endpointing_ms: 400,
            keyterms: Vec::new(),
            paste: true,
            proxy: "http://127.0.0.1:7897".to_string(),
            local_model: crate::local_whisper::default_model_path(data_dir),
            local_threads: threads,
            qwen3_model_dir: crate::local_qwen3::default_model_dir(data_dir),
            qwen3_max_new_tokens: 128,
            qwen3_hotwords: String::new(),
            hotkey: "rightalt".to_string(),
            hotkey_mode: "toggle".to_string(),
            input_device: String::new(),
            stream: true,
            stream_min_silence_ms: 600,
            stream_max_segment_ms: 12_000,
            stream_min_speech_ms: 280,
            dual_model: true,
            dual_preedit: true,
            stream_model_dir: crate::local_stream::default_model_dir(data_dir),
            stream_threads: 3,
            near_field: true,
            vad_speech_rms: 0,
            vad_snr: 0,
            agc_max_gain: 0,
        };
        assert(text::texts(r.keyterms@) =~= seq![]);
        r
    }

    /// The loudness from which sound is speech.
    pub fn effective_vad_speech_rms(&self) -> (r: Bits)
        ensures
            r == or_default(self@.vad_speech_rms, self@.near_field, FIVE_TWENTY, THREE_TWENTY),
    {
        if is_positive(self.vad_speech_rms) {
            self.vad_speech_rms
        } else if self.near_field {
            FIVE_TWENTY
        } else {
            THREE_TWENTY
        }
    }

    /// How many times louder than the room speech is.
    pub fn effective_vad_snr(&self) -> (r: Bits)
        ensures
            r == or_default(self@.vad_snr, self@.near_field, TWO_POINT_FOUR, ONE_POINT_SIX),
    {
        if is_positive(self.vad_snr) {
            self.vad_snr
        } else if self.near_field {
            TWO_POINT_FOUR
        } else {
            ONE_POINT_SIX
        }
    }

    /// The limit of the software gain, between 1 and 32.
    pub fn effective_agc_max_gain(&self) -> (r: Bits)
        ensures
            r == within_gain(or_default(self@.agc_max_gain, self@.near_field, FOUR, TWELVE)),
            ONE <= r <= THIRTY_TWO,
    {
        if is_positive(self.agc_max_gain) {
            if self.agc_max_gain < ONE {
                ONE
            } else if self.agc_max_gain > THIRTY_TWO {
                THIRTY_TWO
            } else {
                self.agc_max_gain
            }
        } else if self.near_field {
            FOUR
        } else {
            TWELVE
        }
    }

    /// The peak a phrase needs to be kept.
    pub fn effective_min_segment_peak(&self) -> (r: i32)
        ensures
            r == if self@.near_field {
                900i32
            } else {
                350i32
            },
    {
        if self.near_field {
            900
        } else {
            350
        }
    }

    /// Whether the hotkey is held while speaking.
    pub fn is_ptt(&self) -> (r: bool)
        ensures
            r == self@.ptt(),
    {
        let mode = text::to_lower(text::trim(self.hotkey_mode.as_str()));
        is_ptt_name(mode.as_str())
    }

    /// Where the settings are kept: below the user's configuration directory, or below the
    /// current one if there is none.
    pub fn config_path(config_dir: Option<&str>) -> (r: String)
        ensures
            r@ == in_data_dir(text::opt_str(config_dir), "xai-dict/config.toml"@),
    {
        data_path(config_dir, "xai-dict/config.toml")
    }
}

/// A fraction above zero counts as it is set; anything else stands for the default of the room.
pub proof fn set_fractions_count(b: Bits, near: Bits, far: Bits, near_field: bool)
    ensures
        0 < b <= 0x7ff0_0000_0000_0000 ==> or_default(b, near_field, near, far) == b,
        b == 0 || b > 0x7ff0_0000_0000_0000 ==> or_default(b, true, near, far) == near && or_default(
            b,
            false,
            near,
            far,
        ) == far,
{
}

/// The gain stays within its limits, is kept where it is within them, and never falls as the setting
/// rises.
pub proof fn the_gain_is_limited(b: Bits, c: Bits)
    ensures
        ONE <= within_gain(b) <= THIRTY_TWO,
        ONE <= b <= THIRTY_TWO ==> within_gain(b) == b,
        b <= c ==> within_gain(b) <= within_gain(c),
{
}

/// The key is held exactly where the mode says so in one of its names, in any case and with white space
/// around it.
pub proof fn held_keys_are_asked_for(s: Settings)
    ensures
        ({
            let mode = text::lowered(text::trimmed(s.hotkey_mode));
            s.ptt() <==> mode == "ptt"@ || mode == "hold"@ || mode == "push"@ || mode == "pushtotalk"@
                || mode == "push-to-talk"@
        }),
{
}

/// The machine's threads are used, but never more than eight.
pub proof fn threads_follow_the_machine(n: usize)
    ensures
        Settings::default_threads(Some(n)) <= 8,
        n <= 8 ==> Settings::default_threads(Some(n)) == n,
        n > 8 ==> Settings::default_threads(Some(n)) == 8,
        Settings::default_threads(None) == 4,
{
}

/// Files lie below the user's directory, or below the current one.
pub proof fn files_lie_below_the_directory(dir: Seq<char>, rel: Seq<char>)
    ensures
        dir.is_prefix_of(in_data_dir(Some(dir), rel)),
        rel.is_suffix_of(in_data_dir(Some(dir), rel)),
        in_data_dir(None, rel) == in_data_dir(Some("."@), rel),
{
    text::paths_are_joined(dir, rel);
}

} // verus!
