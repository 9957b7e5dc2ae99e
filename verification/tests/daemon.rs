use xai_dict::daemon::{
    already_running, greeting, is_refusal, max_secs, nix_uid, parse_request, pid_path, reply,
    request_line, socket_path, usage, Action, Daemon, Request, SessionCmd, State,
};
use xai_dict::hotkey::{
    is_event_device, key_label, list_keyboards, parse_key, Candidate, HotkeyEvent, Key, Listener,
    Opened,
};
use xai_dict::notify::Display;

fn shown(v: &[Display]) -> Vec<String> {
    v.iter()
        .map(|d| match d {
            Display::Hide => "-".to_string(),
            Display::Show(c) => c.body.clone(),
        })
        .collect()
}

#[test]
fn state_names() {
    assert_eq!(State::Idle.as_str(), "idle");
    assert_eq!(State::Recording.as_str(), "recording");
    assert_eq!(State::Transcribing.as_str(), "transcribing");
}

#[test]
fn toggle_round() {
    let mut d = Daemon::new(false);
    assert_eq!(d.hotkey(HotkeyEvent::Press), Some(SessionCmd::Toggle));
    assert_eq!(d.hotkey(HotkeyEvent::Release), None);
    assert_eq!(d.command(SessionCmd::Toggle, 0), Action::Record);
    assert_eq!(d.state, State::Idle);
    assert_eq!(shown(&d.started(Ok(()))), ["录音中… 再按右 Alt 结束"]);
    assert_eq!(d.state, State::Recording);
    assert_eq!(d.command(SessionCmd::Start, 10), Action::Nothing);
    assert_eq!(d.command(SessionCmd::Toggle, 399), Action::Nothing);
    assert_eq!(d.state, State::Recording);
    assert_eq!(d.command(SessionCmd::Toggle, 400), Action::Finish { session: 1 });
    assert_eq!(d.state, State::Transcribing);
    assert_eq!(d.command(SessionCmd::Toggle, 500), Action::Nothing);
    assert!(d.asr_done(0, Ok("late".into())).is_none());
    assert_eq!(shown(&d.asr_done(1, Ok("你好".into())).unwrap()), ["你好"]);
    assert_eq!(d.state, State::Idle);
    assert!(d.asr_done(1, Ok("again".into())).is_none());
}

#[test]
fn held_key() {
    let mut d = Daemon::new(true);
    assert_eq!(d.hotkey(HotkeyEvent::Press), Some(SessionCmd::Start));
    assert_eq!(d.hotkey(HotkeyEvent::Release), Some(SessionCmd::Stop));
    assert_eq!(d.command(SessionCmd::Start, 0), Action::Record);
    d.started(Ok(()));
    assert_eq!(d.command(SessionCmd::Stop, 5), Action::Finish { session: 1 });
    assert_eq!(d.command(SessionCmd::Stop, 6), Action::Nothing);
}

#[test]
fn time_limit() {
    let mut d = Daemon::new(false);
    assert_eq!(d.auto_stop(), None);
    d.started(Ok(()));
    assert!(d.armed);
    assert_eq!(d.auto_stop(), Some(SessionCmd::Stop));
    assert_eq!(d.auto_stop(), None);
    assert!(d.recording);
    d.command(SessionCmd::Stop, 1);
    assert_eq!(d.auto_stop(), None);
}

#[test]
fn late_result_of_an_earlier_recording() {
    let mut d = Daemon::new(false);
    d.started(Ok(()));
    d.command(SessionCmd::Stop, 1);
    d.asr_done(1, Ok(String::new()));
    d.started(Ok(()));
    assert!(d.asr_done(1, Ok("x".into())).is_none());
    assert_eq!(d.state, State::Recording);
    assert_eq!(d.command(SessionCmd::Stop, 1), Action::Finish { session: 2 });
    assert!(d.asr_done(1, Ok("x".into())).is_none());
    assert_eq!(d.state, State::Transcribing);
}

#[test]
fn job_numbers_wrap() {
    let mut d = Daemon::new(false);
    d.asr_session = u64::MAX;
    d.started(Ok(()));
    assert_eq!(d.command(SessionCmd::Stop, 1), Action::Finish { session: 0 });
}

#[test]
fn failures_are_shown() {
    let mut d = Daemon::new(false);
    assert_eq!(shown(&d.started(Err("no mic".into()))), ["no mic"]);
    assert_eq!(d.state, State::Idle);
    d.started(Ok(()));
    d.command(SessionCmd::Stop, 1);
    assert_eq!(shown(&d.asr_done(1, Err("bad\nthing".into())).unwrap()), ["bad thing"]);
    d.started(Ok(()));
    d.command(SessionCmd::Stop, 1);
    assert_eq!(shown(&d.asr_done(2, Ok(String::new())).unwrap()), ["-", "未识别到语音"]);
    assert_eq!(d.command(SessionCmd::Quit, 0), Action::Quit);
    assert_eq!(d.command(SessionCmd::Status, 0), Action::Nothing);
}

#[test]
fn requests_and_replies() {
    let cases = [
        ("toggle\n", "OK recording\n"),
        (" Status ", "OK recording\n"),
        ("START", "OK starting\n"),
        ("stop", "OK stopping\n"),
        ("quit", "OK quitting\n"),
        ("PING", "OK pong\n"),
        ("dance now", "ERR unknown command: DANCE NOW\n"),
        ("", "ERR unknown command: \n"),
    ];
    for (line, want) in cases {
        let req = parse_request(line);
        let got = reply(&req, State::Recording);
        assert_eq!(got, want);
        assert_eq!(is_refusal(&got), matches!(req, Request::Unknown(_)));
        assert_eq!(already_running(Some(&got)), !matches!(req, Request::Unknown(_)));
    }
    assert!(matches!(parse_request("stop"), Request::Command(SessionCmd::Stop)));
    assert!(!already_running(None));
    assert_eq!(request_line("STATUS"), "STATUS\n");
}

#[test]
fn paths() {
    assert_eq!(socket_path(Some("/run/user/7"), None), "/run/user/7/xai-dict.sock");
    assert_eq!(pid_path(Some("/run/user/7/"), None), "/run/user/7/xai-dict.pid");
    let status = "Name:\tx\nUid:\t1001\t1001\t1001\t1001\n";
    assert_eq!(socket_path(None, Some(status)), "/tmp/xai-dict-1001.sock");
    assert_eq!(pid_path(None, None), "/tmp/xai-dict-1000.pid");
    assert_eq!(nix_uid(status), 1001);
    assert_eq!(nix_uid("Uid:"), 1000);
    assert_eq!(nix_uid("Uid: x"), 1000);
    assert_eq!(nix_uid(""), 1000);
}

#[test]
fn limits_and_greetings() {
    assert_eq!(max_secs(None), 120);
    assert_eq!(max_secs(Some("15")), 15);
    assert_eq!(max_secs(Some("x")), 120);
    assert_eq!(usage(Key::RightAlt, true, true), "按住 Right Alt 说话，松手定稿 · 流式上屏");
    assert_eq!(usage(Key::LeftAlt, false, false), "按 Left Alt 开始/结束");
    assert_eq!(
        shown(&greeting(Some(Key::RightAlt), false, false)),
        ["-", "已启动 · 按 Right Alt 开始/结束"]
    );
    assert_eq!(shown(&greeting(None, false, false)), ["-", "已启动 · 热键关闭，用 xai-dict toggle"]);
}

#[test]
fn keys() {
    assert_eq!(parse_key(""), Some(Key::RightAlt));
    assert_eq!(parse_key(" ALT_L "), Some(Key::LeftAlt));
    assert_eq!(parse_key("off"), None);
    assert_eq!(parse_key("banana"), Some(Key::RightAlt));
    assert_eq!(key_label(Key::LeftAlt), "Left Alt");
    assert_eq!(Key::RightAlt.code(), 100);
    assert_eq!(Key::LeftAlt.code(), 56);
}

fn candidate(path: &str, file: &str, has_key: bool, name: &str) -> Candidate {
    Candidate { path: path.into(), file_name: file.into(), has_key, name: name.into() }
}

#[test]
fn keyboards_to_watch() {
    let a = candidate("/dev/input/event0", "event0", true, "AT Keyboard");
    let b = candidate("/dev/input/event1", "event1", false, "Mouse");
    let c = candidate("/dev/input/mice", "mice", true, "Mice");
    let k = candidate("/dev/input/event9", "event9", true, "KeyD virtual keyboard");
    assert_eq!(list_keyboards(&vec![a.clone(), b.clone(), c.clone()]), ["/dev/input/event0"]);
    assert_eq!(list_keyboards(&vec![a, b, c, k]), ["/dev/input/event9"]);
    assert!(is_event_device("event3"));
    assert!(!is_event_device("mouse0"));
}

#[test]
fn presses_are_debounced() {
    let mut l = Listener::new(false);
    assert_eq!(l.key_event(1, 1000), Some(HotkeyEvent::Press));
    assert_eq!(l.key_event(2, 1050), None);
    assert_eq!(l.key_event(1, 1119), None);
    assert_eq!(l.key_event(0, 1119), None);
    assert_eq!(l.key_event(1, 1120), Some(HotkeyEvent::Press));
    assert_eq!(l.key_event(1, 5), None);
    let mut l = Listener::new(true);
    assert_eq!(l.key_event(1, 0), Some(HotkeyEvent::Press));
    assert_eq!(l.key_event(0, 1), Some(HotkeyEvent::Release));
}

#[test]
fn devices_are_scanned_again() {
    let mut l = Listener::new(false);
    assert!(l.needs_scan(0));
    assert!(l.scanned(vec![], 0));
    assert_eq!(l.opened(0), Opened::Report);
    assert!(l.scanned(vec![], 10));
    assert_eq!(l.opened(0), Opened::Wait);
    assert!(l.scanned(vec!["a".into()], 20));
    assert_eq!(l.opened(1), Opened::Ready);
    assert!(!l.needs_scan(5020));
    assert!(l.needs_scan(5021));
    assert!(!l.scanned(vec!["a".into()], 5021));
    assert!(l.scanned(vec!["a".into(), "b".into()], 5022));
    l.opened(2);
    l.lost();
    assert!(l.needs_scan(5023));
    assert!(l.scanned(vec!["a".into(), "b".into()], 5023));
}
