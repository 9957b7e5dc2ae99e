use xai_dict::config::{Config, Provider};
use xai_dict::install_svc::{
    check_input_group, desktop_entries, detect_libdir, ensure_user_service, probe_daemon_alive,
    reload_and_enable, resolve_bin, system_bin, system_libdir, system_package_installed,
    system_unit, unit_body, user_unit_path, ydotoold_unit, Enable, Place, UnitStep,
};
use xai_dict::settings::{
    editor_opened, editors, parse_bool, set_key, settings_script_path, SetError,
};

fn cfg() -> Config {
    Config::defaults(Some("/data"), Some(2))
}

#[test]
fn default_settings() {
    let c = cfg();
    assert_eq!(c.provider, Provider::default());
    assert_eq!(c.provider, Provider::Qwen3);
    assert_eq!(c.local_threads, 2);
    assert_eq!(Config::defaults(None, Some(64)).local_threads, 8);
    let c = Config::defaults(None, None);
    assert_eq!(c.local_threads, 4);
    assert_eq!(c.local_model, "./xai-dict/models/ggml-small.bin");
    assert_eq!(
        c.stream_model_dir,
        "./xai-dict/models/sherpa-onnx-streaming-paraformer-bilingual-zh-en"
    );
    assert_eq!((c.sample_rate, c.endpointing_ms, c.qwen3_max_new_tokens), (16_000, 400, 128));
    assert_eq!((c.stream_min_silence_ms, c.stream_max_segment_ms), (600, 12_000));
    assert_eq!((c.stream_min_speech_ms, c.stream_threads), (280, 3));
    assert!(c.paste && c.stream && c.dual_model && c.dual_preedit && c.near_field);
    assert_eq!((c.hotkey.as_str(), c.hotkey_mode.as_str()), ("rightalt", "toggle"));
    assert_eq!(c.proxy, "http://127.0.0.1:7897");
    assert_eq!(Config::config_path(Some("/c")), "/c/xai-dict/config.toml");
    assert_eq!(Config::config_path(None), "./xai-dict/config.toml");
}

#[test]
fn effective_settings() {
    let mut c = cfg();
    assert_eq!(f64::from_bits(c.effective_vad_speech_rms()), 520.0);
    assert_eq!(f64::from_bits(c.effective_vad_snr()), 2.4);
    assert_eq!(f64::from_bits(c.effective_agc_max_gain()), 4.0);
    assert_eq!(c.effective_min_segment_peak(), 900);
    c.near_field = false;
    assert_eq!(f64::from_bits(c.effective_vad_speech_rms()), 320.0);
    assert_eq!(f64::from_bits(c.effective_vad_snr()), 1.6);
    assert_eq!(f64::from_bits(c.effective_agc_max_gain()), 12.0);
    assert_eq!(c.effective_min_segment_peak(), 350);
    for (set, want) in [(0.5, 1.0), (7.25, 7.25), (99.0, 32.0), (f64::INFINITY, 32.0), (-3.0, 12.0)] {
        c.agc_max_gain = f64::to_bits(set);
        assert_eq!(f64::from_bits(c.effective_agc_max_gain()), want);
    }
    for bad in [f64::NAN, -1.0, -0.0, 0.0, f64::NEG_INFINITY] {
        c.vad_speech_rms = f64::to_bits(bad);
        assert_eq!(f64::from_bits(c.effective_vad_speech_rms()), 320.0);
    }
    c.vad_snr = f64::to_bits(5e-324);
    assert_eq!(f64::from_bits(c.effective_vad_snr()), 5e-324);
}

#[test]
fn push_to_talk() {
    let mut c = cfg();
    assert!(!c.is_ptt());
    for m in ["ptt", " HOLD ", "push", "PushToTalk", "push-to-talk"] {
        c.hotkey_mode = m.into();
        assert!(c.is_ptt());
    }
}

#[test]
fn setting_by_name() {
    let mut c = cfg();
    assert_eq!(set_key(&mut c, "provider", "Whisper", None), Ok(()));
    assert_eq!(c.provider, Provider::Local);
    assert_eq!(set_key(&mut c, "provider", "cloud", None), Ok(()));
    assert_eq!(c.provider, Provider::Xai);
    assert_eq!(set_key(&mut c, "provider", "x", None), Err(SetError::Provider));
    assert_eq!(set_key(&mut c, "hotkey_mode", "HOLD", None), Ok(()));
    assert_eq!(c.hotkey_mode, "ptt");
    assert!(c.is_ptt());
    assert_eq!(set_key(&mut c, "hotkey_mode", "tap", None), Ok(()));
    assert_eq!(c.hotkey_mode, "toggle");
    assert!(!c.is_ptt());
    assert_eq!(set_key(&mut c, "hotkey_mode", "x", None), Err(SetError::HotkeyMode));
    assert_eq!(set_key(&mut c, "dual_preedit", "Off", None), Ok(()));
    assert!(!c.dual_preedit);
    assert_eq!(set_key(&mut c, "paste", "maybe", None), Err(SetError::Bool));
    assert_eq!(set_key(&mut c, "local_threads", "12", None), Ok(()));
    assert_eq!(c.local_threads, 12);
    assert_eq!(set_key(&mut c, "local_threads", "-1", None), Err(SetError::Number));
    assert_eq!(set_key(&mut c, "stream_threads", "4294967296", None), Err(SetError::Number));
    assert_eq!(set_key(&mut c, "vad_snr", "2.5", Some(f64::to_bits(2.5))), Ok(()));
    assert_eq!(f64::from_bits(c.vad_snr), 2.5);
    assert_eq!(set_key(&mut c, "vad_snr", "x", None), Err(SetError::Number));
    assert_eq!(set_key(&mut c, "qwen3_hotwords", "甲,乙", None), Ok(()));
    assert_eq!(c.qwen3_hotwords, "甲,乙");
    assert_eq!(set_key(&mut c, "sample_rate", "1", None), Err(SetError::Key));
    assert_eq!(set_key(&mut c, "", "1", None), Err(SetError::Key));
}

#[test]
fn settings_leave_each_other_alone() {
    let mut c = cfg();
    for k in ["hotkey", "input_device", "language", "proxy", "qwen3_model_dir", "stream_model_dir", "local_model"] {
        assert_eq!(set_key(&mut c, k, k, None), Ok(()));
        assert_eq!(set_key(&mut c, k, k, None), Ok(()));
    }
    assert_eq!(c.hotkey, "hotkey");
    assert_eq!(c.input_device, "input_device");
    assert_eq!(c.language, "language");
    assert_eq!(c.proxy, "proxy");
    assert_eq!(c.qwen3_model_dir, "qwen3_model_dir");
    assert_eq!(c.stream_model_dir, "stream_model_dir");
    assert_eq!(c.local_model, "local_model");
    assert_eq!(c.api_base, "https://api.x.ai");
}

#[test]
fn truth_values() {
    for t in ["1", "TRUE", "Yes", "on"] {
        assert_eq!(parse_bool(t), Some(true));
    }
    for t in ["0", "False", "NO", "off"] {
        assert_eq!(parse_bool(t), Some(false));
    }
    assert_eq!(parse_bool(" true"), None);
}

#[test]
fn settings_window() {
    let p = settings_script_path(Some("/v"), Some("/d"), None, Some("/e"));
    assert_eq!(
        p,
        [
            "/v",
            "/usr/share/xai-dict/settings_gui.py",
            "/usr/lib/xai-dict/settings_gui.py",
            "/d/xai-dict/settings_gui.py",
            "/e/settings_gui.py"
        ]
    );
    assert_eq!(editors(), ["kate", "kwrite", "xdg-open", "editor"]);
    assert!(editor_opened("kate", true, true));
    assert!(!editor_opened("kate", true, false));
    assert!(editor_opened("xdg-open", true, false));
    assert!(!editor_opened("xdg-open", false, true));
}

fn place(path: &str, is_file: bool) -> Option<Place> {
    Some(Place { path: path.into(), is_file })
}

#[test]
fn which_program_the_service_runs() {
    let pick = |a, s, r, c, p: Option<&str>| resolve_bin(a, s, r, c, p.map(String::from));
    assert_eq!(pick(place("/a", true), true, None, None, None), Some("/a".into()));
    assert_eq!(pick(place("/a", false), true, None, None, None), Some(system_bin().into()));
    assert_eq!(pick(None, false, place("/r", true), place("/c", true), None), Some("/r".into()));
    let debug = place("/w/target/debug/xai-dict", true);
    assert_eq!(pick(None, false, debug, place("/c", true), None), Some("/c".into()));
    assert_eq!(pick(None, false, None, place("/c", false), Some("/p")), Some("/p".into()));
    assert_eq!(pick(None, false, None, None, None), None);
    assert!(system_package_installed(true, true));
    assert!(!system_package_installed(true, false));
    assert_eq!(system_unit(), "/usr/lib/systemd/user/xai-dict.service");
    assert_eq!(user_unit_path("/home/u"), "/home/u/.config/systemd/user/xai-dict.service");
}

#[test]
fn services() {
    let unit = unit_body("/home/u/.cargo/bin/xai-dict", "/lib");
    assert!(unit.contains("\nExecStart=/home/u/.cargo/bin/xai-dict daemon\n"));
    assert!(unit.contains("\nEnvironment=LD_LIBRARY_PATH=/lib\nEnvironment=XAI_DICT_LIBDIR=/lib\n"));
    assert!(unit.ends_with("WantedBy=default.target\n"));
    assert!(matches!(ensure_user_service(true, Some(&unit), "", ""), UnitStep::MoveAway));
    assert!(matches!(ensure_user_service(true, Some("x"), "", ""), UnitStep::MoveAway));
    let fine = unit_body("/usr/bin/xai-dict", "/lib");
    assert!(matches!(ensure_user_service(true, Some(&fine), "", ""), UnitStep::Leave));
    assert!(matches!(ensure_user_service(true, None, "", ""), UnitStep::Leave));
    let UnitStep::Write(t) = ensure_user_service(false, None, "/usr/bin/xai-dict", "/lib") else { panic!() };
    assert_eq!(t, fine);
    assert_eq!(detect_libdir(true, Some("/b"), true), system_libdir());
    assert_eq!(detect_libdir(false, Some("/b"), true), "/b");
    assert_eq!(detect_libdir(false, Some("/b"), false), "/usr/lib/xai-dict");
    assert_eq!(detect_libdir(false, None, true), "/usr/lib/xai-dict");
    assert!(ydotoold_unit().contains("--socket-path=%t/.ydotool_socket"));
    assert_eq!(reload_and_enable(false, true, true), Enable::NoSession);
    assert_eq!(reload_and_enable(true, false, true), Enable::Failed);
    assert_eq!(reload_and_enable(true, true, true), Enable::Start);
    assert_eq!(reload_and_enable(true, true, false), Enable::Done);
}

#[test]
fn menu_entries() {
    let e = desktop_entries("/b/xai-dict");
    let names: Vec<&str> = e.iter().map(|x| x.name.as_str()).collect();
    assert_eq!(names, ["xai-dict-toggle.desktop", "xai-dict-settings.desktop", "xai-dict.desktop"]);
    assert!(e[0].body.contains("\nExec=/b/xai-dict toggle\n"));
    assert!(e[1].body.contains("\nExec=/b/xai-dict config gui\n"));
    assert!(e[2].body.contains("\nExec=/b/xai-dict whoami\n"));
}

#[test]
fn input_group() {
    let groups = "root:x:0:\ninput:x:104:u\n";
    assert_eq!(check_input_group(Some("Groups:\t4 104 1000"), Some(groups)), Some(true));
    assert_eq!(check_input_group(Some("Groups:\t4 1040"), Some(groups)), Some(false));
    assert_eq!(check_input_group(Some("Name:\tx"), Some(groups)), None);
    assert_eq!(check_input_group(Some("Groups:\t4"), Some("input:x\ninput:x:bad\n")), None);
    assert_eq!(check_input_group(None, Some(groups)), None);
    assert_eq!(check_input_group(Some("Groups:"), None), None);
    assert!(probe_daemon_alive("OK pong\n"));
    assert!(!probe_daemon_alive("ERR"));
}
