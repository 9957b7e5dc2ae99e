use xai_dict::command::CommandLine;
use xai_dict::notify::{self, Display};
use xai_dict::osd::{self, Buses, Follow, Osd};
use xai_dict::output::{
    self, clipboard_restore, commit_final, deliver_stream_chunk, deliver_text, deliver_text_quiet,
    fcitx5_committed, klipper_text, try_paste_any, uinput_paste, ydotool_keys, ydotool_socket,
    ydotool_variants, EmptyTranscript, Fallback, PasteMethod, Route, Step, Tried,
};

const NONE: Buses = Buses { qdbus6: false, qdbus_qt6: false, qdbus: false };
const ALL: Buses = Buses { qdbus6: true, qdbus_qt6: true, qdbus: true };

fn line(c: &CommandLine) -> String {
    format!("{} {}", c.program, c.args.join(" "))
}

#[test]
fn cards() {
    let c = osd::recording();
    assert_eq!(c.icon, "audio-input-microphone");
    assert_eq!(c.plasma, "xai-dict · 录音中… 再按右 Alt 结束");
    assert_eq!(c.expire_ms, 120_000);
    let c = osd::transcribing();
    assert_eq!((c.icon.as_str(), c.body.as_str(), c.expire_ms), ("view-refresh", "识别中…", 120_000));
    let c = osd::done("");
    assert_eq!((c.plasma.as_str(), c.body.as_str(), c.expire_ms), ("xai-dict · 完成", "完成", 2_500));
    let c = osd::done(&"字".repeat(50));
    assert_eq!(c.body, "字".repeat(40));
    assert_eq!(c.plasma, format!("xai-dict · {}", "字".repeat(40)));
    let c = osd::error(&format!("a\n{}", "b".repeat(100)));
    assert_eq!(c.body, format!("a {}", "b".repeat(78)));
    assert_eq!((c.icon.as_str(), c.expire_ms), ("dialog-error", 4_500));
    let c = osd::boot_hint("hi");
    assert_eq!((c.plasma.as_str(), c.body.as_str(), c.expire_ms), ("xai-dict · hi", "hi", 2_500));
}

#[test]
fn what_the_daemon_shows() {
    assert!(matches!(&notify::recording()[..], [Display::Show(c)] if c.body.starts_with("录音中")));
    assert!(matches!(&notify::transcribing()[..], [Display::Show(c)] if c.body == "识别中…"));
    assert!(matches!(&notify::done("x")[..], [Display::Show(c)] if c.body == "x"));
    assert!(matches!(&notify::error("y")[..], [Display::Show(c)] if c.icon == "dialog-error"));
    assert!(matches!(&notify::idle("")[..], [Display::Hide]));
    assert!(matches!(&notify::idle("z")[..], [Display::Hide, Display::Show(c)] if c.body == "z"));
}

#[test]
fn plasma_is_tried_first() {
    let card = osd::boot_hint("hi");
    let calls = Osd::new().plasma_show(&card, ALL, 0);
    assert_eq!(calls.len(), 4);
    assert_eq!(
        line(&calls[0]),
        "busctl --user call org.kde.plasmashell /org/kde/osdService org.kde.osdService showText ss \
         audio-input-microphone xai-dict · hi"
    );
    assert_eq!(
        line(&calls[2]),
        "qdbus-qt6 org.kde.plasmashell /org/kde/osdService org.kde.osdService.showText \
         audio-input-microphone xai-dict · hi"
    );
    assert_eq!(Osd::new().plasma_show(&card, NONE, 0).len(), 1);
    assert_eq!(
        line(&osd::take_down()),
        "busctl --user call org.kde.plasmashell /org/kde/osdService org.kde.osdService hide"
    );
}

#[test]
fn plasma_rests_after_a_failure() {
    let card = osd::boot_hint("hi");
    let mut o = Osd::new();
    o.mark_plasma_failed(1_000);
    assert!(!o.plasma_allowed(15_999));
    assert!(o.plasma_show(&card, ALL, 15_999).is_empty());
    assert!(o.plasma_allowed(16_000));
    o.mark_plasma_ok();
    assert!(o.plasma_allowed(1_001));
}

#[test]
fn one_notification() {
    let card = osd::boot_hint("hi");
    let mut o = Osd::new();
    let Follow::Notify(a, b) = o.show_status(&card, false, true) else { panic!() };
    assert_eq!(
        line(&a),
        "notify-send --app-name=xai-dict --icon=audio-input-microphone --urgency=low --transient \
         --expire-time=2500 --print-id --hint=string:desktop-entry:xai-dict xai-dict hi"
    );
    assert_eq!(
        line(&b),
        "busctl --user call org.freedesktop.Notifications /org/freedesktop/Notifications \
         org.freedesktop.Notifications Notify susssasa{sv}i xai-dict 0 audio-input-microphone \
         xai-dict hi 0 0 2500"
    );
    o.notify_replaced(" 42\n");
    let Follow::Notify(a, _) = o.show_status(&card, false, true) else { panic!() };
    assert!(a.args.contains(&"--replace-id=42".to_string()));
    o.notify_replaced("0");
    o.notify_replaced("x");
    assert_eq!(o.notify_id, 42);
    o.notified_via_busctl("u 43");
    assert_eq!(o.notify_id, 43);
    let Follow::Close(c) = o.show_status(&card, true, true) else { panic!() };
    assert!(line(&c).ends_with("CloseNotification u 43"));
    assert!(matches!(o.close_notification(), Follow::Nothing));
}

#[test]
fn no_notifications_without_the_tool() {
    let card = osd::boot_hint("hi");
    let mut o = Osd::new();
    assert!(matches!(o.show_status(&card, false, false), Follow::Nothing));
    assert!(matches!(o.show_status(&card, false, true), Follow::Nothing));
    assert!(!o.notify_ok);
}

#[test]
fn input_method_calls() {
    assert_eq!(
        line(&output::set_preedit("你好")),
        "busctl --user call org.fcitx.Fcitx5 /xaidict org.fcitx.Fcitx.XaiDict1 Preedit s 你好"
    );
    assert!(line(&output::clear_preedit()).ends_with("ClearPreedit"));
    assert!(line(&output::fcitx5_commit("x")).ends_with("Commit s x"));
    assert!(fcitx5_committed(true, "b true\n"));
    assert!(!fcitx5_committed(true, "b false"));
    assert!(!fcitx5_committed(false, "b true"));
}

#[test]
fn routes() {
    assert_eq!(commit_final("", true), Route::Clear);
    assert_eq!(commit_final("x", false), Route::Keep);
    assert_eq!(deliver_stream_chunk("", true, true), Route::Keep);
    assert_eq!(deliver_stream_chunk("x", false, true), Route::Keep);
    assert_eq!(deliver_text_quiet("", true), Err(EmptyTranscript));
    assert_eq!(deliver_text_quiet("x", false), Ok(Route::Keep));
    let Route::Commit(p) = commit_final("x", true) else { panic!() };
    assert_eq!((p.tries, p.gap_ms, p.fallback, p.release), (3, 50, Fallback::Deliver, false));
    let Route::Commit(p) = deliver_stream_chunk("x", true, true) else { panic!() };
    assert_eq!((p.wait_ms, p.tries, p.gap_ms, p.fallback), (120, 3, 60, Fallback::Deliver));
    assert!(p.release);
    let Route::Commit(p) = deliver_stream_chunk("x", true, false) else { panic!() };
    assert_eq!((p.wait_ms, p.fallback, p.release), (0, Fallback::Leave, false));
    let Ok(Route::Commit(p)) = deliver_text_quiet("x", true) else { panic!() };
    assert_eq!((p.wait_ms, p.tries, p.gap_ms, p.fallback), (280, 5, 120, Fallback::Paste));
    assert!(p.take_down && p.release);
    assert_eq!(deliver_text(""), Err(EmptyTranscript));
    assert_eq!(deliver_text("x"), Ok("\n——— transcript ———\nx\n—————————————————".into()));
}

#[test]
fn tries() {
    let Route::Commit(p) = commit_final("x", true) else { panic!() };
    assert_eq!(p.tried(1, true), Tried::Done);
    assert_eq!(p.tried(2, false), Tried::Again { wait_ms: 50 });
    assert_eq!(p.tried(3, false), Tried::GiveUp { wait_ms: 50 });
    let Ok(Route::Commit(p)) = deliver_text_quiet("x", true) else { panic!() };
    assert_eq!(p.tried(4, false), Tried::Again { wait_ms: 120 });
    assert_eq!(p.tried(5, false), Tried::GiveUp { wait_ms: 0 });
}

#[test]
fn text_is_on_the_clipboard_before_keys() {
    let Ok(Route::Commit(p)) = deliver_text_quiet("x", true) else { panic!() };
    // What is done if the input method takes the text at a try, the clipboard works or not, and
    // the keys can be pressed in a way.
    let run = |taken: u32, clipboard: bool, key: Option<PasteMethod>| {
        let mut steps = vec![p.begin()];
        loop {
            let step = *steps.last().unwrap();
            let ok = match step {
                Step::Offer { attempt, .. } => attempt == taken,
                Step::SetClipboard { .. } => clipboard,
                Step::Press(m) => Some(m) == key,
                _ => return steps,
            };
            steps.push(p.next(step, ok));
        }
    };
    let steps = run(2, true, None);
    assert_eq!(steps[0], Step::Offer { attempt: 1, wait_ms: 0 });
    assert_eq!(steps[1..], [Step::Offer { attempt: 2, wait_ms: 120 }, Step::Committed]);
    let steps = run(6, false, Some(PasteMethod::Uinput));
    assert_eq!(steps[5..], [Step::SetClipboard { wait_ms: 0 }, Step::NoClipboard]);
    let steps = run(6, true, Some(PasteMethod::Keyd));
    assert_eq!(
        steps[5..],
        [
            Step::SetClipboard { wait_ms: 0 },
            Step::Press(PasteMethod::Uinput),
            Step::Press(PasteMethod::Keyd),
            Step::Pasted(PasteMethod::Keyd),
        ]
    );
    let steps = run(6, true, None);
    let pressed: Vec<PasteMethod> =
        steps.iter().filter_map(|s| if let Step::Press(m) = s { Some(*m) } else { None }).collect();
    assert_eq!(pressed, try_paste_any());
    assert_eq!(*steps.last().unwrap(), Step::OnClipboard);
    let Route::Commit(p) = deliver_stream_chunk("x", true, false) else { panic!() };
    let last = Step::Offer { attempt: 3, wait_ms: 60 };
    assert_eq!(p.next(last, false), Step::Left { wait_ms: 60 });
    let Route::Commit(p) = commit_final("x", true) else { panic!() };
    assert_eq!(p.next(last, false), Step::Alone { wait_ms: 50 });
    assert_eq!(p.next(Step::Committed, false), Step::Committed);
}

#[test]
fn clipboard() {
    assert_eq!(line(&output::set_clipboard_quick(true, true).unwrap()), "wl-copy --type text/plain");
    assert_eq!(line(&output::set_clipboard_quick(false, true).unwrap()), "xclip -selection clipboard");
    assert!(output::set_clipboard_quick(false, false).is_none());
    assert_eq!(line(&output::set_clipboard_held()), "wl-copy --foreground --type text/plain");
    let set = output::set_klipper("t", ALL);
    assert_eq!(line(&set[0]), "qdbus6 org.kde.klipper /klipper org.kde.klipper.klipper.setClipboardContents t");
    let get = output::read_klipper(Buses { qdbus: true, ..NONE });
    assert_eq!(get.len(), 1);
    assert_eq!(line(&get[0]), "qdbus org.kde.klipper /klipper org.kde.klipper.klipper.getClipboardContents");
    assert_eq!(klipper_text("a\nb\n\n"), Some("a\nb".into()));
    assert_eq!(klipper_text("\n"), None);
    assert_eq!(clipboard_restore(Some("old"), Some("new"), "new"), Some("old".into()));
    assert_eq!(clipboard_restore(Some("old"), Some("other"), "new"), None);
    assert_eq!(clipboard_restore(None, Some("new"), "new"), None);
}

#[test]
fn paste_keys() {
    let order = try_paste_any();
    assert_eq!(order[0], PasteMethod::Uinput);
    assert_eq!(order.len(), 5);
    assert_eq!(order[4].label(), "wtype Ctrl+V");
    for events in ydotool_variants().into_iter().chain([uinput_paste()]) {
        let mut down = Vec::new();
        for (k, v) in events {
            if v == 1 {
                down.push(k);
            } else {
                down.retain(|x| *x != k);
            }
        }
        assert!(down.is_empty());
    }
    assert_eq!(uinput_paste().len(), 12);
    assert_eq!(uinput_paste()[9], (47, 1));
    assert_eq!(output::release_modifiers().len(), 8);
    assert_eq!(output::uinput_keys().len(), 10);
    assert_eq!(
        line(&ydotool_keys(&ydotool_variants()[1])),
        "ydotool key -d 40 29:1 42:1 47:1 47:0 42:0 29:0"
    );
    assert_eq!(line(&output::keyd_chords()[1]), "keyd do C-S-v");
    assert_eq!(line(&output::wtype_paste()), "wtype -M ctrl -k v -m ctrl");
    assert_eq!(line(&output::xdotool_paste()), "xdotool key --clearmodifiers ctrl+v");
    assert_eq!(ydotool_socket(Some("/run"), true, Some("/x")), Some("/run/.ydotool_socket".into()));
    assert_eq!(ydotool_socket(Some("/run"), false, Some("/x")), Some("/x".into()));
    assert_eq!(ydotool_socket(None, true, None), None);
}
