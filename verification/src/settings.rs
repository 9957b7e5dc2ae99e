//! Changing one setting by its name.

use crate::config::{Bits, Config, Provider, Settings};
use crate::{config, text};
use vstd::prelude::*;

verus! {

/// Why a setting was not changed.
#[derive(Debug, Clone, Copy, PartialEq, Eq, Structural)]
pub enum SetError {
    /// Not the name of a provider.
    Provider,
    /// Not the name of a hotkey mode.
    HotkeyMode,
    /// Neither true nor false.
    Bool,
    /// Not a number that the setting can hold.
    Number,
    /// No setting has that name.
    Key,
}

/// The truth value that a word names, in any case.
pub open spec fn truth(word: Seq<char>) -> Option<bool> {
    let w = text::lowered(word);
    if w == "1"@ || w == "true"@ || w == "yes"@ || w == "on"@ {
        Some(true)
    } else if w == "0"@ || w == "false"@ || w == "no"@ || w == "off"@ {
        Some(false)
    } else {
        None
    }
}

/// Reads a truth value.
pub fn parse_bool(s: &str) -> (r: Option<bool>)
    ensures
        r == truth(s@),
{
    let w = text::to_lower(s);
    let w = w.as_str();
    if text::same(w, "1") || text::same(w, "true") || text::same(w, "yes") || text::same(w, "on") {
        Some(true)
    } else if text::same(w, "0") || text::same(w, "false") || text::same(w, "no") || text::same(
        w,
        "off",
    ) {
        Some(false)
    } else {
        None
    }
}

/// The provider that a word names, in any case.
pub open spec fn provider_named(word: Seq<char>) -> Option<Provider> {
    let w = text::lowered(word);
    if w == "qwen3"@ || w == "qwen"@ {
        Some(Provider::Qwen3)
    } else if w == "local"@ || w == "whisper"@ {
        Some(Provider::Local)
    } else if w == "xai"@ || w == "cloud"@ {
        Some(Provider::Xai)
    } else {
        None
    }
}

fn parse_provider(s: &str) -> (r: Option<Provider>)
    ensures
        r == provider_named(s@),
{
    let w = text::to_lower(s);
    let w = w.as_str();
    if text::same(w, "qwen3") || text::same(w, "qwen") {
        Some(Provider::Qwen3)
    } else if text::same(w, "local") || text::same(w, "whisper") {
        Some(Provider::Local)
    } else if text::same(w, "xai") || text::same(w, "cloud") {
        Some(Provider::Xai)
    } else {
        None
    }
}

/// The hotkey mode that a word names, in any case.
pub open spec fn mode_named(word: Seq<char>) -> Option<Seq<char>> {
    let w = text::lowered(word);
    if w == "toggle"@ || w == "click"@ || w == "tap"@ {
        Some("toggle"@)
    } else if config::names_ptt(w) {
        Some("ptt"@)
    } else {
        None
    }
}

fn parse_mode(s: &str) -> (r: Option<String>)
    ensures
        match r {
            Some(m) => mode_named(s@) == Some(m@),
            None => mode_named(s@) is None,
        },
{
    let w = text::to_lower(s);
    let w = w.as_str();
    if text::same(w, "toggle") || text::same(w, "click") || text::same(w, "tap") {
        Some("toggle".to_string())
    } else if config::is_ptt_name(w) {
        Some("ptt".to_string())
    } else {
        None
    }
}

fn parse_number(s: &str) -> (r: Option<u32>)
    ensures
        match text::unsigned_value(s@, u32::MAX as nat) {
            Some(n) => n <= u32::MAX && r == Some(n as u32),
            None => r is None,
        },
{
    match text::parse_unsigned(s, 0xffff_ffff) {
        Some(n) => Some(n as u32),
        None => None,
    }
}

/// Where the window for the settings may be, in the order in which it is looked for: where the
/// environment says, in a system-wide installation, in the user's data, in the sources, and
/// beside the running program.
pub open spec fn script_places(
    var: Option<Seq<char>>,
    data: Option<Seq<char>>,
    sources: Option<Seq<char>>,
    exe_dir: Option<Seq<char>>,
) -> Seq<Seq<char>> {
    text::one(var) + seq![
        "/usr/share/xai-dict/settings_gui.py"@,
        "/usr/lib/xai-dict/settings_gui.py"@,
    ] + text::in_dir(data, "xai-dict/settings_gui.py"@) + text::in_dir(sources, "scripts/settings_gui.py"@)
        + text::in_dir(exe_dir, "settings_gui.py"@)
}

/// Lists where the window for the settings may be.
pub fn settings_script_path(
    var: Option<&str>,
    data: Option<&str>,
    sources: Option<&str>,
    exe_dir: Option<&str>,
) -> (r: Vec<String>)
    ensures
        text::texts(r@) == script_places(
            text::opt_str(var),
            text::opt_str(data),
            text::opt_str(sources),
            text::opt_str(exe_dir),
        ),
{
    let mut out: Vec<String> = Vec::new();
    match var {
        Some(p) => out.push(p.to_string()),
        None => {},
    }
    out.push("/usr/share/xai-dict/settings_gui.py".to_string());
    out.push("/usr/lib/xai-dict/settings_gui.py".to_string());
    match data {
        Some(d) => out.push(text::join_path(d, "xai-dict/settings_gui.py")),
        None => {},
    }
    match sources {
        Some(d) => out.push(text::join_path(d, "scripts/settings_gui.py")),
        None => {},
    }
    match exe_dir {
        Some(d) => out.push(text::join_path(d, "settings_gui.py")),
        None => {},
    }
    assert(text::texts(out@) =~= script_places(
        text::opt_str(var),
        text::opt_str(data),
        text::opt_str(sources),
        text::opt_str(exe_dir),
    ));
    out
}

/// The programs that show a settings file, in the order in which they are tried.
pub fn editors() -> (r: Vec<String>)
    ensures
        text::texts(r@) == seq!["kate"@, "kwrite"@, "xdg-open"@, "editor"@],
{
    let names: [&str; 4] = ["kate", "kwrite", "xdg-open", "editor"];
    assert(text::strs(names@) =~= seq!["kate"@, "kwrite"@, "xdg-open"@, "editor"@]);
    text::owned(&names)
}

/// Whether a program has shown the file: it succeeded, or it is `xdg-open`, which may end before
/// the editor does.
pub fn editor_opened(name: &str, ran: bool, success: bool) -> (r: bool)
    ensures
        r == (ran && (success || name@ == "xdg-open"@)),
{
    ran && (success || text::same(name, "xdg-open"))
}

/// A setting that can be changed by name.
#[derive(Debug, Clone, Copy, PartialEq, Eq, Structural)]
pub enum Field {
    Provider,
    HotkeyMode,
    Hotkey,
    InputDevice,
    Language,
    Proxy,
    Qwen3ModelDir,
    StreamModelDir,
    LocalModel,
    Qwen3Hotwords,
    Paste,
    Stream,
    DualModel,
    DualPreedit,
    NearField,
    StreamMinSilenceMs,
    StreamMaxSegmentMs,
    StreamMinSpeechMs,
    LocalThreads,
    StreamThreads,
    Qwen3MaxNewTokens,
    VadSpeechRms,
    VadSnr,
    AgcMaxGain,
}

/// The setting that `key` names.
pub open spec fn field_named(key: Seq<char>) -> Option<Field> {
    if key == "provider"@ {
        Some(Field::Provider)
    } else if key == "hotkey_mode"@ {
        Some(Field::HotkeyMode)
    } else if key == "hotkey"@ {
        Some(Field::Hotkey)
    } else if key == "input_device"@ {
        Some(Field::InputDevice)
    } else if key == "language"@ {
        Some(Field::Language)
    } else if key == "proxy"@ {
        Some(Field::Proxy)
    } else if key == "qwen3_model_dir"@ {
        Some(Field::Qwen3ModelDir)
    } else if key == "stream_model_dir"@ {
        Some(Field::StreamModelDir)
    } else if key == "local_model"@ {
        Some(Field::LocalModel)
    } else if key == "qwen3_hotwords"@ {
        Some(Field::Qwen3Hotwords)
    } else if key == "paste"@ {
        Some(Field::Paste)
    } else if key == "stream"@ {
        Some(Field::Stream)
    } else if key == "dual_model"@ {
        Some(Field::DualModel)
    } else if key == "dual_preedit"@ {
        Some(Field::DualPreedit)
    } else if key == "near_field"@ {
        Some(Field::NearField)
    } else if key == "stream_min_silence_ms"@ {
        Some(Field::StreamMinSilenceMs)
    } else if key == "stream_max_segment_ms"@ {
        Some(Field::StreamMaxSegmentMs)
    } else if key == "stream_min_speech_ms"@ {
        Some(Field::StreamMinSpeechMs)
    } else if key == "local_threads"@ {
        Some(Field::LocalThreads)
    } else if key == "stream_threads"@ {
        Some(Field::StreamThreads)
    } else if key == "qwen3_max_new_tokens"@ {
        Some(Field::Qwen3MaxNewTokens)
    } else if key == "vad_speech_rms"@ {
        Some(Field::VadSpeechRms)
    } else if key == "vad_snr"@ {
        Some(Field::VadSnr)
    } else if key == "agc_max_gain"@ {
        Some(Field::AgcMaxGain)
    } else {
        None
    }
}

fn parse_field(key: &str) -> (r: Option<Field>)
    ensures
        r == field_named(key@),
{
    if text::same(key, "provider") {
        Some(Field::Provider)
    } else if text::same(key, "hotkey_mode") {
        Some(Field::HotkeyMode)
    } else if text::same(key, "hotkey") {
        Some(Field::Hotkey)
    } else if text::same(key, "input_device") {
        Some(Field::InputDevice)
    } else if text::same(key, "language") {
        Some(Field::Language)
    } else if text::same(key, "proxy") {
        Some(Field::Proxy)
    } else if text::same(key, "qwen3_model_dir") {
        Some(Field::Qwen3ModelDir)
    } else if text::same(key, "stream_model_dir") {
        Some(Field::StreamModelDir)
    } else if text::same(key, "local_model") {
        Some(Field::LocalModel)
    } else if text::same(key, "qwen3_hotwords") {
        Some(Field::Qwen3Hotwords)
    } else if text::same(key, "paste") {
        Some(Field::Paste)
    } else if text::same(key, "stream") {
        Some(Field::Stream)
    } else if text::same(key, "dual_model") {
        Some(Field::DualModel)
    } else if text::same(key, "dual_preedit") {
        Some(Field::DualPreedit)
    } else if text::same(key, "near_field") {
        Some(Field::NearField)
    } else if text::same(key, "stream_min_silence_ms") {
        Some(Field::StreamMinSilenceMs)
    } else if text::same(key, "stream_max_segment_ms") {
        Some(Field::StreamMaxSegmentMs)
    } else if text::same(key, "stream_min_speech_ms") {
        Some(Field::StreamMinSpeechMs)
    } else if text::same(key, "local_threads") {
        Some(Field::LocalThreads)
    } else if text::same(key, "stream_threads") {
        Some(Field::StreamThreads)
    } else if text::same(key, "qwen3_max_new_tokens") {
        Some(Field::Qwen3MaxNewTokens)
    } else if text::same(key, "vad_speech_rms") {
        Some(Field::VadSpeechRms)
    } else if text::same(key, "vad_snr") {
        Some(Field::VadSnr)
    } else if text::same(key, "agc_max_gain") {
        Some(Field::AgcMaxGain)
    } else {
        None
    }
}

/// What a setting can be set to.
pub enum Value {
    Provider(Provider),
    Text(Seq<char>),
    Bool(bool),
    Number(u32),
    Fraction(Bits),
}

/// What `value` means for `field`; `fraction` is `value` read as a fraction.
pub open spec fn read_value(field: Field, value: Seq<char>, fraction: Option<Bits>) -> Result<
    Value,
    SetError,
> {
    match field {
        Field::Provider => match provider_named(value) {
            Some(p) => Ok(Value::Provider(p)),
            None => Err(SetError::Provider),
        },
        Field::HotkeyMode => match mode_named(value) {
            Some(t) => Ok(Value::Text(t)),
            None => Err(SetError::HotkeyMode),
        },
        Field::Hotkey
        | Field::InputDevice
        | Field::Language
        | Field::Proxy
        | Field::Qwen3ModelDir
        | Field::StreamModelDir
        | Field::LocalModel
        | Field::Qwen3Hotwords => Ok(Value::Text(value)),
        Field::Paste
        | Field::Stream
        | Field::DualModel
        | Field::DualPreedit
        | Field::NearField => match truth(value) {
            Some(x) => Ok(Value::Bool(x)),
            None => Err(SetError::Bool),
        },
        Field::StreamMinSilenceMs
        | Field::StreamMaxSegmentMs
        | Field::StreamMinSpeechMs
        | Field::LocalThreads
        | Field::StreamThreads
        | Field::Qwen3MaxNewTokens => match text::unsigned_value(
            value,
            u32::MAX as nat,
        ) {
            Some(x) => Ok(Value::Number(x as u32)),
            None => Err(SetError::Number),
        },
        Field::VadSpeechRms
        | Field::VadSnr
        | Field::AgcMaxGain => match fraction {
            Some(x) => Ok(Value::Fraction(x)),
            None => Err(SetError::Number),
        },
    }
}

/// The settings `m` with `field` set to `value`.
pub open spec fn with(m: Settings, field: Field, value: Value) -> Settings {
    match field {
        Field::Provider => Settings { provider: value->Provider_0, ..m },
        Field::HotkeyMode => Settings { hotkey_mode: value->Text_0, ..m },
        Field::Hotkey => Settings { hotkey: value->Text_0, ..m },
        Field::InputDevice => Settings { input_device: value->Text_0, ..m },
        Field::Language => Settings { language: value->Text_0, ..m },
        Field::Proxy => Settings { proxy: value->Text_0, ..m },
        Field::Qwen3ModelDir => Settings { qwen3_model_dir: value->Text_0, ..m },
        Field::StreamModelDir => Settings { stream_model_dir: value->Text_0, ..m },
        Field::LocalModel => Settings { local_model: value->Text_0, ..m },
        Field::Qwen3Hotwords => Settings { qwen3_hotwords: value->Text_0, ..m },
        Field::Paste => Settings { paste: value->Bool_0, ..m },
        Field::Stream => Settings { stream: value->Bool_0, ..m },
        Field::DualModel => Settings { dual_model: value->Bool_0, ..m },
        Field::DualPreedit => Settings { dual_preedit: value->Bool_0, ..m },
        Field::NearField => Settings { near_field: value->Bool_0, ..m },
        Field::StreamMinSilenceMs => Settings { stream_min_silence_ms: value->Number_0, ..m },
        Field::StreamMaxSegmentMs => Settings { stream_max_segment_ms: value->Number_0, ..m },
        Field::StreamMinSpeechMs => Settings { stream_min_speech_ms: value->Number_0, ..m },
        Field::LocalThreads => Settings { local_threads: value->Number_0, ..m },
        Field::StreamThreads => Settings { stream_threads: value->Number_0, ..m },
        Field::Qwen3MaxNewTokens => Settings { qwen3_max_new_tokens: value->Number_0, ..m },
        Field::VadSpeechRms => Settings { vad_speech_rms: value->Fraction_0, ..m },
        Field::VadSnr => Settings { vad_snr: value->Fraction_0, ..m },
        Field::AgcMaxGain => Settings { agc_max_gain: value->Fraction_0, ..m },
    }
}

/// What `field` is set to in `m`.
pub open spec fn get(m: Settings, field: Field) -> Value {
    match field {
        Field::Provider => Value::Provider(m.provider),
        Field::HotkeyMode => Value::Text(m.hotkey_mode),
        Field::Hotkey => Value::Text(m.hotkey),
        Field::InputDevice => Value::Text(m.input_device),
        Field::Language => Value::Text(m.language),
        Field::Proxy => Value::Text(m.proxy),
        Field::Qwen3ModelDir => Value::Text(m.qwen3_model_dir),
        Field::StreamModelDir => Value::Text(m.stream_model_dir),
        Field::LocalModel => Value::Text(m.local_model),
        Field::Qwen3Hotwords => Value::Text(m.qwen3_hotwords),
        Field::Paste => Value::Bool(m.paste),
        Field::Stream => Value::Bool(m.stream),
        Field::DualModel => Value::Bool(m.dual_model),
        Field::DualPreedit => Value::Bool(m.dual_preedit),
        Field::NearField => Value::Bool(m.near_field),
        Field::StreamMinSilenceMs => Value::Number(m.stream_min_silence_ms),
        Field::StreamMaxSegmentMs => Value::Number(m.stream_max_segment_ms),
        Field::StreamMinSpeechMs => Value::Number(m.stream_min_speech_ms),
        Field::LocalThreads => Value::Number(m.local_threads),
        Field::StreamThreads => Value::Number(m.stream_threads),
        Field::Qwen3MaxNewTokens => Value::Number(m.qwen3_max_new_tokens),
        Field::VadSpeechRms => Value::Fraction(m.vad_speech_rms),
        Field::VadSnr => Value::Fraction(m.vad_snr),
        Field::AgcMaxGain => Value::Fraction(m.agc_max_gain),
    }
}

/// What setting the setting named `key` to `value` makes of the settings `m`.
pub open spec fn set_in(m: Settings, key: Seq<char>, value: Seq<char>, fraction: Option<Bits>) -> Result<
    Settings,
    SetError,
> {
    match field_named(key) {
        Some(field) => match read_value(field, value, fraction) {
            Ok(x) => Ok(with(m, field, x)),
            Err(e) => Err(e),
        },
        None => Err(SetError::Key),
    }
}

/// Sets `key` to `value`. `fraction` is `value` read as a fraction, for the settings that are one.
/// The settings stay as they are if the key or the value does not fit.
pub fn set_key(cfg: &mut Config, key: &str, value: &str, fraction: Option<Bits>) -> (r: Result<
    (),
    SetError,
>)
    ensures
        match set_in(old(cfg)@, key@, value@, fraction) {
            Ok(m) => r is Ok && final(cfg)@ == m,
            Err(e) => r == Err::<(), SetError>(e) && final(cfg)@ == old(cfg)@,
        },
{
    let field = match parse_field(key) {
        Some(f) => f,
        None => return Err(SetError::Key),
    };
    match field {
        Field::Provider => match parse_provider(value) {
            Some(p) => cfg.provider = p,
            None => return Err(SetError::Provider),
        },
        Field::HotkeyMode => match parse_mode(value) {
            Some(t) => cfg.hotkey_mode = t,
            None => return Err(SetError::HotkeyMode),
        },
        Field::Hotkey => cfg.hotkey = value.to_string(),
        Field::InputDevice => cfg.input_device = value.to_string(),
        Field::Language => cfg.language = value.to_string(),
        Field::Proxy => cfg.proxy = value.to_string(),
        Field::Qwen3ModelDir => cfg.qwen3_model_dir = value.to_string(),
        Field::StreamModelDir => cfg.stream_model_dir = value.to_string(),
        Field::LocalModel => cfg.local_model = value.to_string(),
        Field::Qwen3Hotwords => cfg.qwen3_hotwords = value.to_string(),
        Field::Paste => match parse_bool(value) {
            Some(x) => cfg.paste = x,
            None => return Err(SetError::Bool),
        },
        Field::Stream => match parse_bool(value) {
            Some(x) => cfg.stream = x,
            None => return Err(SetError::Bool),
        },
        Field::DualModel => match parse_bool(value) {
            Some(x) => cfg.dual_model = x,
            None => return Err(SetError::Bool),
        },
        Field::DualPreedit => match parse_bool(value) {
            Some(x) => cfg.dual_preedit = x,
            None => return Err(SetError::Bool),
        },
        Field::NearField => match parse_bool(value) {
            Some(x) => cfg.near_field = x,
            None => return Err(SetError::Bool),
        },
        Field::StreamMinSilenceMs => match parse_number(value) {
            Some(x) => cfg.stream_min_silence_ms = x,
            None => return Err(SetError::Number),
        },
        Field::StreamMaxSegmentMs => match parse_number(value) {
            Some(x) => cfg.stream_max_segment_ms = x,
            None => return Err(SetError::Number),
        },
        Field::StreamMinSpeechMs => match parse_number(value) {
            Some(x) => cfg.stream_min_speech_ms = x,
            None => return Err(SetError::Number),
        },
        Field::LocalThreads => match parse_number(value) {
            Some(x) => cfg.local_threads = x,
            None => return Err(SetError::Number),
        },
        Field::StreamThreads => match parse_number(value) {
            Some(x) => cfg.stream_threads = x,
            None => return Err(SetError::Number),
        },
        Field::Qwen3MaxNewTokens => match parse_number(value) {
            Some(x) => cfg.qwen3_max_new_tokens = x,
            None => return Err(SetError::Number),
        },
        Field::VadSpeechRms => match fraction {
            Some(x) => cfg.vad_speech_rms = x,
            None => return Err(SetError::Number),
        },
        Field::VadSnr => match fraction {
            Some(x) => cfg.vad_snr = x,
            None => return Err(SetError::Number),
        },
        Field::AgcMaxGain => match fraction {
            Some(x) => cfg.agc_max_gain = x,
            None => return Err(SetError::Number),
        },
    }
    Ok(())
}

proof fn lemma_names_differ(k1: Seq<char>, k2: Seq<char>)
    requires
        k1 != k2,
        field_named(k1) is Some,
        field_named(k2) is Some,
    ensures
        field_named(k1) != field_named(k2),
{
}

proof fn lemma_with(m: Settings, a: Field, x: Value, b: Field)
    requires
        a != b,
    ensures
        get(with(m, a, x), b) == get(m, b),
        with(m, a, x).api_base == m.api_base,
        with(m, a, x).stt_path == m.stt_path,
        with(m, a, x).sample_rate == m.sample_rate,
        with(m, a, x).interim_results == m.interim_results,
        with(m, a, x).endpointing_ms == m.endpointing_ms,
        with(m, a, x).keyterms == m.keyterms,
{
}

/// Setting a value reads back as that value and leaves every other setting as it was, those that
/// have no name included.
pub proof fn setting_reads_back(
    m: Settings,
    key: Seq<char>,
    value: Seq<char>,
    fraction: Option<Bits>,
    other: Seq<char>,
)
    requires
        set_in(m, key, value, fraction) is Ok,
        other != key,
        field_named(other) is Some,
    ensures
        ({
            let n = set_in(m, key, value, fraction)->Ok_0;
            let field = field_named(key)->Some_0;
            &&& Ok::<Value, SetError>(get(n, field)) == read_value(field, value, fraction)
            &&& get(n, field_named(other)->Some_0) == get(m, field_named(other)->Some_0)
            &&& n.api_base == m.api_base
            &&& n.stt_path == m.stt_path
            &&& n.sample_rate == m.sample_rate
            &&& n.interim_results == m.interim_results
            &&& n.endpointing_ms == m.endpointing_ms
            &&& n.keyterms == m.keyterms
        }),
{
    lemma_names_differ(key, other);
    let field = field_named(key)->Some_0;
    lemma_with(m, field, read_value(field, value, fraction)->Ok_0, field_named(other)->Some_0);
}

/// Setting the same value again changes nothing.
pub proof fn setting_twice_is_once(m: Settings, key: Seq<char>, value: Seq<char>, fraction: Option<Bits>)
    requires
        set_in(m, key, value, fraction) is Ok,
    ensures
        set_in(set_in(m, key, value, fraction)->Ok_0, key, value, fraction) == set_in(
            m,
            key,
            value,
            fraction,
        ),
{
}

/// After setting the hotkey mode, the key is held while speaking if and only if the word asked
/// for that.
pub proof fn mode_decides_ptt(m: Settings, value: Seq<char>, fraction: Option<Bits>)
    requires
        mode_named(value) is Some,
    ensures
        set_in(m, "hotkey_mode"@, value, fraction) is Ok,
        set_in(m, "hotkey_mode"@, value, fraction)->Ok_0.ptt() <==> config::names_ptt(
            text::lowered(value),
        ),
{
    reveal_strlit("provider");
    reveal_strlit("hotkey_mode");
    reveal_strlit("toggle");
    reveal_strlit("click");
    reveal_strlit("tap");
    reveal_strlit("ptt");
    reveal_strlit("hold");
    reveal_strlit("push");
    reveal_strlit("pushtotalk");
    reveal_strlit("push-to-talk");
    assert("provider"@.len() != "hotkey_mode"@.len());
    let t = mode_named(value)->Some_0;
    assert(text::trim_start(t) == t);
    assert(text::trim_end(t) == t);
    assert(text::lowered(t) =~= t);
    assert("toggle"@[0] == 't');
    assert("click"@[0] == 'c');
    assert("tap"@[0] == 't');
    assert("toggle"@ != "pushtotalk"@);
}

/// No two names of settings are the same.
proof fn lemma_keys_apart()
    ensures
        "hotkey_mode"@ != "provider"@,
        "hotkey"@ != "provider"@,
        "hotkey"@ != "hotkey_mode"@,
        "input_device"@ != "provider"@,
        "input_device"@ != "hotkey_mode"@,
        "input_device"@ != "hotkey"@,
        "language"@ != "provider"@,
        "language"@ != "hotkey_mode"@,
        "language"@ != "hotkey"@,
        "language"@ != "input_device"@,
        "proxy"@ != "provider"@,
        "proxy"@ != "hotkey_mode"@,
        "proxy"@ != "hotkey"@,
        "proxy"@ != "input_device"@,
        "proxy"@ != "language"@,
        "qwen3_model_dir"@ != "provider"@,
        "qwen3_model_dir"@ != "hotkey_mode"@,
        "qwen3_model_dir"@ != "hotkey"@,
        "qwen3_model_dir"@ != "input_device"@,
        "qwen3_model_dir"@ != "language"@,
        "qwen3_model_dir"@ != "proxy"@,
        "stream_model_dir"@ != "provider"@,
        "stream_model_dir"@ != "hotkey_mode"@,
        "stream_model_dir"@ != "hotkey"@,
        "stream_model_dir"@ != "input_device"@,
        "stream_model_dir"@ != "language"@,
        "stream_model_dir"@ != "proxy"@,
        "stream_model_dir"@ != "qwen3_model_dir"@,
        "local_model"@ != "provider"@,
        "local_model"@ != "hotkey_mode"@,
        "local_model"@ != "hotkey"@,
        "local_model"@ != "input_device"@,
        "local_model"@ != "language"@,
        "local_model"@ != "proxy"@,
        "local_model"@ != "qwen3_model_dir"@,
        "local_model"@ != "stream_model_dir"@,
        "qwen3_hotwords"@ != "provider"@,
        "qwen3_hotwords"@ != "hotkey_mode"@,
        "qwen3_hotwords"@ != "hotkey"@,
        "qwen3_hotwords"@ != "input_device"@,
        "qwen3_hotwords"@ != "language"@,
        "qwen3_hotwords"@ != "proxy"@,
        "qwen3_hotwords"@ != "qwen3_model_dir"@,
        "qwen3_hotwords"@ != "stream_model_dir"@,
        "qwen3_hotwords"@ != "local_model"@,
        "paste"@ != "provider"@,
        "paste"@ != "hotkey_mode"@,
        "paste"@ != "hotkey"@,
        "paste"@ != "input_device"@,
        "paste"@ != "language"@,
        "paste"@ != "proxy"@,
        "paste"@ != "qwen3_model_dir"@,
        "paste"@ != "stream_model_dir"@,
        "paste"@ != "local_model"@,
        "paste"@ != "qwen3_hotwords"@,
        "stream"@ != "provider"@,
        "stream"@ != "hotkey_mode"@,
        "stream"@ != "hotkey"@,
        "stream"@ != "input_device"@,
        "stream"@ != "language"@,
        "stream"@ != "proxy"@,
        "stream"@ != "qwen3_model_dir"@,
        "stream"@ != "stream_model_dir"@,
        "stream"@ != "local_model"@,
        "stream"@ != "qwen3_hotwords"@,
        "stream"@ != "paste"@,
        "dual_model"@ != "provider"@,
        "dual_model"@ != "hotkey_mode"@,
        "dual_model"@ != "hotkey"@,
        "dual_model"@ != "input_device"@,
        "dual_model"@ != "language"@,
        "dual_model"@ != "proxy"@,
        "dual_model"@ != "qwen3_model_dir"@,
        "dual_model"@ != "stream_model_dir"@,
        "dual_model"@ != "local_model"@,
        "dual_model"@ != "qwen3_hotwords"@,
        "dual_model"@ != "paste"@,
        "dual_model"@ != "stream"@,
        "dual_preedit"@ != "provider"@,
        "dual_preedit"@ != "hotkey_mode"@,
        "dual_preedit"@ != "hotkey"@,
        "dual_preedit"@ != "input_device"@,
        "dual_preedit"@ != "language"@,
        "dual_preedit"@ != "proxy"@,
        "dual_preedit"@ != "qwen3_model_dir"@,
        "dual_preedit"@ != "stream_model_dir"@,
        "dual_preedit"@ != "local_model"@,
        "dual_preedit"@ != "qwen3_hotwords"@,
        "dual_preedit"@ != "paste"@,
        "dual_preedit"@ != "stream"@,
        "dual_preedit"@ != "dual_model"@,
        "near_field"@ != "provider"@,
        "near_field"@ != "hotkey_mode"@,
        "near_field"@ != "hotkey"@,
        "near_field"@ != "input_device"@,
        "near_field"@ != "language"@,
        "near_field"@ != "proxy"@,
        "near_field"@ != "qwen3_model_dir"@,
        "near_field"@ != "stream_model_dir"@,
        "near_field"@ != "local_model"@,
        "near_field"@ != "qwen3_hotwords"@,
        "near_field"@ != "paste"@,
        "near_field"@ != "stream"@,
        "near_field"@ != "dual_model"@,
        "near_field"@ != "dual_preedit"@,
        "stream_min_silence_ms"@ != "provider"@,
        "stream_min_silence_ms"@ != "hotkey_mode"@,
        "stream_min_silence_ms"@ != "hotkey"@,
        "stream_min_silence_ms"@ != "input_device"@,
        "stream_min_silence_ms"@ != "language"@,
        "stream_min_silence_ms"@ != "proxy"@,
        "stream_min_silence_ms"@ != "qwen3_model_dir"@,
        "stream_min_silence_ms"@ != "stream_model_dir"@,
        "stream_min_silence_ms"@ != "local_model"@,
        "stream_min_silence_ms"@ != "qwen3_hotwords"@,
        "stream_min_silence_ms"@ != "paste"@,
        "stream_min_silence_ms"@ != "stream"@,
        "stream_min_silence_ms"@ != "dual_model"@,
        "stream_min_silence_ms"@ != "dual_preedit"@,
        "stream_min_silence_ms"@ != "near_field"@,
        "stream_max_segment_ms"@ != "provider"@,
        "stream_max_segment_ms"@ != "hotkey_mode"@,
        "stream_max_segment_ms"@ != "hotkey"@,
        "stream_max_segment_ms"@ != "input_device"@,
        "stream_max_segment_ms"@ != "language"@,
        "stream_max_segment_ms"@ != "proxy"@,
        "stream_max_segment_ms"@ != "qwen3_model_dir"@,
        "stream_max_segment_ms"@ != "stream_model_dir"@,
        "stream_max_segment_ms"@ != "local_model"@,
        "stream_max_segment_ms"@ != "qwen3_hotwords"@,
        "stream_max_segment_ms"@ != "paste"@,
        "stream_max_segment_ms"@ != "stream"@,
        "stream_max_segment_ms"@ != "dual_model"@,
        "stream_max_segment_ms"@ != "dual_preedit"@,
        "stream_max_segment_ms"@ != "near_field"@,
        "stream_max_segment_ms"@ != "stream_min_silence_ms"@,
        "stream_min_speech_ms"@ != "provider"@,
        "stream_min_speech_ms"@ != "hotkey_mode"@,
        "stream_min_speech_ms"@ != "hotkey"@,
        "stream_min_speech_ms"@ != "input_device"@,
        "stream_min_speech_ms"@ != "language"@,
        "stream_min_speech_ms"@ != "proxy"@,
        "stream_min_speech_ms"@ != "qwen3_model_dir"@,
        "stream_min_speech_ms"@ != "stream_model_dir"@,
        "stream_min_speech_ms"@ != "local_model"@,
        "stream_min_speech_ms"@ != "qwen3_hotwords"@,
        "stream_min_speech_ms"@ != "paste"@,
        "stream_min_speech_ms"@ != "stream"@,
        "stream_min_speech_ms"@ != "dual_model"@,
        "stream_min_speech_ms"@ != "dual_preedit"@,
        "stream_min_speech_ms"@ != "near_field"@,
        "stream_min_speech_ms"@ != "stream_min_silence_ms"@,
        "stream_min_speech_ms"@ != "stream_max_segment_ms"@,
        "local_threads"@ != "provider"@,
        "local_threads"@ != "hotkey_mode"@,
        "local_threads"@ != "hotkey"@,
        "local_threads"@ != "input_device"@,
        "local_threads"@ != "language"@,
        "local_threads"@ != "proxy"@,
        "local_threads"@ != "qwen3_model_dir"@,
        "local_threads"@ != "stream_model_dir"@,
        "local_threads"@ != "local_model"@,
        "local_threads"@ != "qwen3_hotwords"@,
        "local_threads"@ != "paste"@,
        "local_threads"@ != "stream"@,
        "local_threads"@ != "dual_model"@,
        "local_threads"@ != "dual_preedit"@,
        "local_threads"@ != "near_field"@,
        "local_threads"@ != "stream_min_silence_ms"@,
        "local_threads"@ != "stream_max_segment_ms"@,
        "local_threads"@ != "stream_min_speech_ms"@,
        "stream_threads"@ != "provider"@,
        "stream_threads"@ != "hotkey_mode"@,
        "stream_threads"@ != "hotkey"@,
        "stream_threads"@ != "input_device"@,
        "stream_threads"@ != "language"@,
        "stream_threads"@ != "proxy"@,
        "stream_threads"@ != "qwen3_model_dir"@,
        "stream_threads"@ != "stream_model_dir"@,
        "stream_threads"@ != "local_model"@,
        "stream_threads"@ != "qwen3_hotwords"@,
        "stream_threads"@ != "paste"@,
        "stream_threads"@ != "stream"@,
        "stream_threads"@ != "dual_model"@,
        "stream_threads"@ != "dual_preedit"@,
        "stream_threads"@ != "near_field"@,
        "stream_threads"@ != "stream_min_silence_ms"@,
        "stream_threads"@ != "stream_max_segment_ms"@,
        "stream_threads"@ != "stream_min_speech_ms"@,
        "stream_threads"@ != "local_threads"@,
        "qwen3_max_new_tokens"@ != "provider"@,
        "qwen3_max_new_tokens"@ != "hotkey_mode"@,
        "qwen3_max_new_tokens"@ != "hotkey"@,
        "qwen3_max_new_tokens"@ != "input_device"@,
        "qwen3_max_new_tokens"@ != "language"@,
        "qwen3_max_new_tokens"@ != "proxy"@,
        "qwen3_max_new_tokens"@ != "qwen3_model_dir"@,
        "qwen3_max_new_tokens"@ != "stream_model_dir"@,
        "qwen3_max_new_tokens"@ != "local_model"@,
        "qwen3_max_new_tokens"@ != "qwen3_hotwords"@,
        "qwen3_max_new_tokens"@ != "paste"@,
        "qwen3_max_new_tokens"@ != "stream"@,
        "qwen3_max_new_tokens"@ != "dual_model"@,
        "qwen3_max_new_tokens"@ != "dual_preedit"@,
        "qwen3_max_new_tokens"@ != "near_field"@,
        "qwen3_max_new_tokens"@ != "stream_min_silence_ms"@,
        "qwen3_max_new_tokens"@ != "stream_max_segment_ms"@,
        "qwen3_max_new_tokens"@ != "stream_min_speech_ms"@,
        "qwen3_max_new_tokens"@ != "local_threads"@,
        "qwen3_max_new_tokens"@ != "stream_threads"@,
        "vad_speech_rms"@ != "provider"@,
        "vad_speech_rms"@ != "hotkey_mode"@,
        "vad_speech_rms"@ != "hotkey"@,
        "vad_speech_rms"@ != "input_device"@,
        "vad_speech_rms"@ != "language"@,
        "vad_speech_rms"@ != "proxy"@,
        "vad_speech_rms"@ != "qwen3_model_dir"@,
        "vad_speech_rms"@ != "stream_model_dir"@,
        "vad_speech_rms"@ != "local_model"@,
        "vad_speech_rms"@ != "qwen3_hotwords"@,
        "vad_speech_rms"@ != "paste"@,
        "vad_speech_rms"@ != "stream"@,
        "vad_speech_rms"@ != "dual_model"@,
        "vad_speech_rms"@ != "dual_preedit"@,
        "vad_speech_rms"@ != "near_field"@,
        "vad_speech_rms"@ != "stream_min_silence_ms"@,
        "vad_speech_rms"@ != "stream_max_segment_ms"@,
        "vad_speech_rms"@ != "stream_min_speech_ms"@,
        "vad_speech_rms"@ != "local_threads"@,
        "vad_speech_rms"@ != "stream_threads"@,
        "vad_speech_rms"@ != "qwen3_max_new_tokens"@,
        "vad_snr"@ != "provider"@,
        "vad_snr"@ != "hotkey_mode"@,
        "vad_snr"@ != "hotkey"@,
        "vad_snr"@ != "input_device"@,
        "vad_snr"@ != "language"@,
        "vad_snr"@ != "proxy"@,
        "vad_snr"@ != "qwen3_model_dir"@,
        "vad_snr"@ != "stream_model_dir"@,
        "vad_snr"@ != "local_model"@,
        "vad_snr"@ != "qwen3_hotwords"@,
        "vad_snr"@ != "paste"@,
        "vad_snr"@ != "stream"@,
        "vad_snr"@ != "dual_model"@,
        "vad_snr"@ != "dual_preedit"@,
        "vad_snr"@ != "near_field"@,
        "vad_snr"@ != "stream_min_silence_ms"@,
        "vad_snr"@ != "stream_max_segment_ms"@,
        "vad_snr"@ != "stream_min_speech_ms"@,
        "vad_snr"@ != "local_threads"@,
        "vad_snr"@ != "stream_threads"@,
        "vad_snr"@ != "qwen3_max_new_tokens"@,
        "vad_snr"@ != "vad_speech_rms"@,
        "agc_max_gain"@ != "provider"@,
        "agc_max_gain"@ != "hotkey_mode"@,
        "agc_max_gain"@ != "hotkey"@,
        "agc_max_gain"@ != "input_device"@,
        "agc_max_gain"@ != "language"@,
        "agc_max_gain"@ != "proxy"@,
        "agc_max_gain"@ != "qwen3_model_dir"@,
        "agc_max_gain"@ != "stream_model_dir"@,
        "agc_max_gain"@ != "local_model"@,
        "agc_max_gain"@ != "qwen3_hotwords"@,
        "agc_max_gain"@ != "paste"@,
        "agc_max_gain"@ != "stream"@,
        "agc_max_gain"@ != "dual_model"@,
        "agc_max_gain"@ != "dual_preedit"@,
        "agc_max_gain"@ != "near_field"@,
        "agc_max_gain"@ != "stream_min_silence_ms"@,
        "agc_max_gain"@ != "stream_max_segment_ms"@,
        "agc_max_gain"@ != "stream_min_speech_ms"@,
        "agc_max_gain"@ != "local_threads"@,
        "agc_max_gain"@ != "stream_threads"@,
        "agc_max_gain"@ != "qwen3_max_new_tokens"@,
        "agc_max_gain"@ != "vad_speech_rms"@,
        "agc_max_gain"@ != "vad_snr"@,
{
    reveal_strlit("provider");
    assert("provider"@.len() == 8);
    reveal_strlit("hotkey_mode");
    assert("hotkey_mode"@.len() == 11);
    reveal_strlit("hotkey");
    assert("hotkey"@.len() == 6);
    reveal_strlit("input_device");
    assert("input_device"@.len() == 12);
    reveal_strlit("language");
    assert("language"@.len() == 8);
    reveal_strlit("proxy");
    assert("proxy"@.len() == 5);
    reveal_strlit("qwen3_model_dir");
    assert("qwen3_model_dir"@.len() == 15);
    reveal_strlit("stream_model_dir");
    assert("stream_model_dir"@.len() == 16);
    reveal_strlit("local_model");
    assert("local_model"@.len() == 11);
    reveal_strlit("qwen3_hotwords");
    assert("qwen3_hotwords"@.len() == 14);
    reveal_strlit("paste");
    assert("paste"@.len() == 5);
    reveal_strlit("stream");
    assert("stream"@.len() == 6);
    reveal_strlit("dual_model");
    assert("dual_model"@.len() == 10);
    reveal_strlit("dual_preedit");
    assert("dual_preedit"@.len() == 12);
    reveal_strlit("near_field");
    assert("near_field"@.len() == 10);
    reveal_strlit("stream_min_silence_ms");
    assert("stream_min_silence_ms"@.len() == 21);
    reveal_strlit("stream_max_segment_ms");
    assert("stream_max_segment_ms"@.len() == 21);
    reveal_strlit("stream_min_speech_ms");
    assert("stream_min_speech_ms"@.len() == 20);
    reveal_strlit("local_threads");
    assert("local_threads"@.len() == 13);
    reveal_strlit("stream_threads");
    assert("stream_threads"@.len() == 14);
    reveal_strlit("qwen3_max_new_tokens");
    assert("qwen3_max_new_tokens"@.len() == 20);
    reveal_strlit("vad_speech_rms");
    assert("vad_speech_rms"@.len() == 14);
    reveal_strlit("vad_snr");
    assert("vad_snr"@.len() == 7);
    reveal_strlit("agc_max_gain");
    assert("agc_max_gain"@.len() == 12);
    assert("language"@[0] != "provider"@[0]);
    assert("local_model"@[0] != "hotkey_mode"@[0]);
    assert("paste"@[1] != "proxy"@[1]);
    assert("stream"@[0] != "hotkey"@[0]);
    assert("dual_preedit"@[0] != "input_device"@[0]);
    assert("near_field"@[0] != "dual_model"@[0]);
    assert("stream_max_segment_ms"@[8] != "stream_min_silence_ms"@[8]);
    assert("stream_threads"@[0] != "qwen3_hotwords"@[0]);
    assert("qwen3_max_new_tokens"@[0] != "stream_min_speech_ms"@[0]);
    assert("vad_speech_rms"@[0] != "qwen3_hotwords"@[0]);
    assert("vad_speech_rms"@[0] != "stream_threads"@[0]);
    assert("agc_max_gain"@[0] != "input_device"@[0]);
    assert("agc_max_gain"@[0] != "dual_preedit"@[0]);
}

/// A setting that is a text becomes the value that is given, and only the setting of that name.
pub proof fn texts_are_set_by_name(m: Settings, value: Seq<char>, fraction: Option<Bits>)
    ensures
        set_in(m, "hotkey"@, value, fraction) == Ok::<Settings, SetError>(
            Settings { hotkey: value, ..m },
        ),
        set_in(m, "input_device"@, value, fraction) == Ok::<Settings, SetError>(
            Settings { input_device: value, ..m },
        ),
        set_in(m, "language"@, value, fraction) == Ok::<Settings, SetError>(
            Settings { language: value, ..m },
        ),
        set_in(m, "proxy"@, value, fraction) == Ok::<Settings, SetError>(
            Settings { proxy: value, ..m },
        ),
        set_in(m, "qwen3_model_dir"@, value, fraction) == Ok::<Settings, SetError>(
            Settings { qwen3_model_dir: value, ..m },
        ),
        set_in(m, "stream_model_dir"@, value, fraction) == Ok::<Settings, SetError>(
            Settings { stream_model_dir: value, ..m },
        ),
        set_in(m, "local_model"@, value, fraction) == Ok::<Settings, SetError>(
            Settings { local_model: value, ..m },
        ),
        set_in(m, "qwen3_hotwords"@, value, fraction) == Ok::<Settings, SetError>(
            Settings { qwen3_hotwords: value, ..m },
        ),
{
    lemma_keys_apart();
}

/// A setting that is on or off becomes what the value says, and only the setting of that name; a value that
/// says neither changes nothing.
pub proof fn switches_are_set_by_name(m: Settings, value: Seq<char>, fraction: Option<Bits>)
    ensures
        set_in(m, "paste"@, value, fraction) == match truth(value) {
            Some(b) => Ok::<Settings, SetError>(Settings { paste: b, ..m }),
            None => Err(SetError::Bool),
        },
        set_in(m, "stream"@, value, fraction) == match truth(value) {
            Some(b) => Ok::<Settings, SetError>(Settings { stream: b, ..m }),
            None => Err(SetError::Bool),
        },
        set_in(m, "dual_model"@, value, fraction) == match truth(value) {
            Some(b) => Ok::<Settings, SetError>(Settings { dual_model: b, ..m }),
            None => Err(SetError::Bool),
        },
        set_in(m, "dual_preedit"@, value, fraction) == match truth(value) {
            Some(b) => Ok::<Settings, SetError>(Settings { dual_preedit: b, ..m }),
            None => Err(SetError::Bool),
        },
        set_in(m, "near_field"@, value, fraction) == match truth(value) {
            Some(b) => Ok::<Settings, SetError>(Settings { near_field: b, ..m }),
            None => Err(SetError::Bool),
        },
{
    lemma_keys_apart();
}

/// A setting that is a whole number becomes the number that the value spells, and only the setting of that
/// name; a value that spells none that fits in 32 bits changes nothing.
pub proof fn numbers_are_set_by_name(m: Settings, value: Seq<char>, fraction: Option<Bits>)
    ensures
        set_in(m, "stream_min_silence_ms"@, value, fraction) == match text::unsigned_value(value, u32::MAX as nat) {
            Some(n) => Ok::<Settings, SetError>(Settings { stream_min_silence_ms: n as u32, ..m }),
            None => Err(SetError::Number),
        },
        set_in(m, "stream_max_segment_ms"@, value, fraction) == match text::unsigned_value(value, u32::MAX as nat) {
            Some(n) => Ok::<Settings, SetError>(Settings { stream_max_segment_ms: n as u32, ..m }),
            None => Err(SetError::Number),
        },
        set_in(m, "stream_min_speech_ms"@, value, fraction) == match text::unsigned_value(value, u32::MAX as nat) {
            Some(n) => Ok::<Settings, SetError>(Settings { stream_min_speech_ms: n as u32, ..m }),
            None => Err(SetError::Number),
        },
        set_in(m, "local_threads"@, value, fraction) == match text::unsigned_value(value, u32::MAX as nat) {
            Some(n) => Ok::<Settings, SetError>(Settings { local_threads: n as u32, ..m }),
            None => Err(SetError::Number),
        },
        set_in(m, "stream_threads"@, value, fraction) == match text::unsigned_value(value, u32::MAX as nat) {
            Some(n) => Ok::<Settings, SetError>(Settings { stream_threads: n as u32, ..m }),
            None => Err(SetError::Number),
        },
        set_in(m, "qwen3_max_new_tokens"@, value, fraction) == match text::unsigned_value(value, u32::MAX as nat) {
            Some(n) => Ok::<Settings, SetError>(Settings { qwen3_max_new_tokens: n as u32, ..m }),
            None => Err(SetError::Number),
        },
{
    lemma_keys_apart();
}

/// A setting that is a fraction becomes the fraction that the value was read as, and only the setting of that
/// name; a value that is none changes nothing.
pub proof fn fractions_are_set_by_name(m: Settings, value: Seq<char>, fraction: Option<Bits>)
    ensures
        set_in(m, "vad_speech_rms"@, value, fraction) == match fraction {
            Some(x) => Ok::<Settings, SetError>(Settings { vad_speech_rms: x, ..m }),
            None => Err(SetError::Number),
        },
        set_in(m, "vad_snr"@, value, fraction) == match fraction {
            Some(x) => Ok::<Settings, SetError>(Settings { vad_snr: x, ..m }),
            None => Err(SetError::Number),
        },
        set_in(m, "agc_max_gain"@, value, fraction) == match fraction {
            Some(x) => Ok::<Settings, SetError>(Settings { agc_max_gain: x, ..m }),
            None => Err(SetError::Number),
        },
{
    lemma_keys_apart();
}

/// The provider becomes the one that the value names, in any case: `qwen3` or `qwen`, `local` or
/// `whisper`, `xai` or `cloud`. Any other value changes nothing.
pub proof fn the_provider_is_set_by_name(m: Settings, value: Seq<char>, fraction: Option<Bits>)
    ensures
        ({
            let w = text::lowered(value);
            let r = set_in(m, "provider"@, value, fraction);
            &&& w == "qwen3"@ || w == "qwen"@ ==> r == Ok::<Settings, SetError>(
                Settings { provider: Provider::Qwen3, ..m },
            )
            &&& w == "local"@ || w == "whisper"@ ==> r == Ok::<Settings, SetError>(
                Settings { provider: Provider::Local, ..m },
            )
            &&& w == "xai"@ || w == "cloud"@ ==> r == Ok::<Settings, SetError>(
                Settings { provider: Provider::Xai, ..m },
            )
            &&& w != "qwen3"@ && w != "qwen"@ && w != "local"@ && w != "whisper"@ && w != "xai"@ && w
                != "cloud"@ ==> r == Err::<Settings, SetError>(SetError::Provider)
        }),
{
    reveal_strlit("qwen3");
    assert("qwen3"@.len() == 5);
    reveal_strlit("qwen");
    assert("qwen"@.len() == 4);
    reveal_strlit("local");
    assert("local"@.len() == 5);
    reveal_strlit("whisper");
    assert("whisper"@.len() == 7);
    reveal_strlit("xai");
    assert("xai"@.len() == 3);
    reveal_strlit("cloud");
    assert("cloud"@.len() == 5);
    assert("qwen3"@[0] != "local"@[0]);
    assert("qwen3"@[0] != "cloud"@[0]);
    assert("local"@[0] != "cloud"@[0]);
}

/// The mode of the hotkey becomes `toggle` or `ptt`, whichever way the value asks for it, in any case;
/// any other value changes nothing.
pub proof fn the_hotkey_mode_is_set_by_name(m: Settings, value: Seq<char>, fraction: Option<Bits>)
    ensures
        ({
            let w = text::lowered(value);
            let r = set_in(m, "hotkey_mode"@, value, fraction);
            let click = w == "toggle"@ || w == "click"@ || w == "tap"@;
            let hold = w == "ptt"@ || w == "hold"@ || w == "push"@ || w == "pushtotalk"@ || w
                == "push-to-talk"@;
            &&& click ==> r == Ok::<Settings, SetError>(
                Settings { hotkey_mode: "toggle"@, ..m },
            )
            &&& hold ==> r == Ok::<Settings, SetError>(
                Settings { hotkey_mode: "ptt"@, ..m },
            )
            &&& !click && !hold ==> r == Err::<Settings, SetError>(SetError::HotkeyMode)
        }),
{
    lemma_keys_apart();
    reveal_strlit("toggle");
    assert("toggle"@.len() == 6);
    reveal_strlit("click");
    assert("click"@.len() == 5);
    reveal_strlit("tap");
    assert("tap"@.len() == 3);
    reveal_strlit("ptt");
    assert("ptt"@.len() == 3);
    reveal_strlit("hold");
    assert("hold"@.len() == 4);
    reveal_strlit("push");
    assert("push"@.len() == 4);
    reveal_strlit("pushtotalk");
    assert("pushtotalk"@.len() == 10);
    reveal_strlit("push-to-talk");
    assert("push-to-talk"@.len() == 12);
    assert("tap"@[0] != "ptt"@[0]);
}

/// A word says yes or no in any case: `1`, `true`, `yes` and `on` say yes, `0`, `false`, `no` and `off`
/// say no, and nothing else says anything.
pub proof fn words_say_yes_or_no(word: Seq<char>)
    ensures
        truth(word) == truth(text::lowered(word)),
        truth(word) == truth(text::uppered(word)),
        ({
            let w = text::lowered(word);
            let yes = w == "1"@ || w == "true"@ || w == "yes"@ || w == "on"@;
            let no = w == "0"@ || w == "false"@ || w == "no"@ || w == "off"@;
            &&& yes <==> truth(word) == Some(true)
            &&& no <==> truth(word) == Some(false)
        }),
{
    reveal_strlit("1");
    assert("1"@.len() == 1);
    reveal_strlit("true");
    assert("true"@.len() == 4);
    reveal_strlit("yes");
    assert("yes"@.len() == 3);
    reveal_strlit("on");
    assert("on"@.len() == 2);
    reveal_strlit("0");
    assert("0"@.len() == 1);
    reveal_strlit("false");
    assert("false"@.len() == 5);
    reveal_strlit("no");
    assert("no"@.len() == 2);
    reveal_strlit("off");
    assert("off"@.len() == 3);
    assert("1"@[0] != "0"@[0]);
    assert("yes"@[0] != "off"@[0]);
    assert("on"@[0] != "no"@[0]);
    if word.len() > 0 {
        text::case_is_taken_away(word, 0);
    } else {
        assert(text::lowered(word) =~= word);
        assert(text::uppered(word) =~= word);
    }
}

/// A key that names no setting is refused, whatever the value, and its case counts.
pub proof fn other_keys_are_refused(
    m: Settings,
    key: Seq<char>,
    value: Seq<char>,
    fraction: Option<Bits>,
)
    requires
        key != "provider"@,
        key != "hotkey_mode"@,
        key != "hotkey"@,
        key != "input_device"@,
        key != "language"@,
        key != "proxy"@,
        key != "qwen3_model_dir"@,
        key != "stream_model_dir"@,
        key != "local_model"@,
        key != "qwen3_hotwords"@,
        key != "paste"@,
        key != "stream"@,
        key != "dual_model"@,
        key != "dual_preedit"@,
        key != "near_field"@,
        key != "stream_min_silence_ms"@,
        key != "stream_max_segment_ms"@,
        key != "stream_min_speech_ms"@,
        key != "local_threads"@,
        key != "stream_threads"@,
        key != "qwen3_max_new_tokens"@,
        key != "vad_speech_rms"@,
        key != "vad_snr"@,
        key != "agc_max_gain"@,
    ensures
        set_in(m, key, value, fraction) == Err::<Settings, SetError>(SetError::Key),
{
}

/// The window for the settings is looked for where the environment says first, then in the system-wide
/// installation, the user's data, the sources and beside the program: a place that is not known is left
/// out, and the others stay in this order.
pub proof fn scripts_are_looked_for_in_order(
    var: Option<Seq<char>>,
    data: Option<Seq<char>>,
    sources: Option<Seq<char>>,
    exe_dir: Option<Seq<char>>,
)
    ensures
        ({
            let all = script_places(var, data, sources, exe_dir);
            let bare = script_places(None, data, sources, exe_dir);
            &&& var matches Some(v) ==> all == seq![v] + bare
            &&& bare.len() >= 2
            &&& bare[0] == "/usr/share/xai-dict/settings_gui.py"@
            &&& bare[1] == "/usr/lib/xai-dict/settings_gui.py"@
            &&& data matches Some(d) ==> bare[2] == text::below(d, "xai-dict/settings_gui.py"@)
            &&& exe_dir matches Some(d) ==> all.last() == text::below(d, "settings_gui.py"@)
            &&& sources matches Some(d) ==> all[all.len() - (if exe_dir is Some {
                2int
            } else {
                1int
            })] == text::below(d, "scripts/settings_gui.py"@)
        }),
{
    let all = script_places(var, data, sources, exe_dir);
    let bare = script_places(None, data, sources, exe_dir);
    if let Some(v) = var {
        assert(all =~= seq![v] + bare);
    }
}

} // verus!
