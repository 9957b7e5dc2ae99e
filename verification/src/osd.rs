//! Status cards, and how they get on screen.
//!
//! Plasma's on-screen display is preferred, as it never takes the keyboard focus. Where it fails,
//! one notification is shown and replaced, so that notifications never pile up.

use crate::command::{self, CommandLine, Line};
use crate::text;
use vstd::prelude::*;

verus! {

/// How long the display is left alone after a failure, in milliseconds.
pub const PLASMA_RETRY_MS: u64 = 15_000;

/// How long a card about work in progress stays, in milliseconds.
pub const EXPIRE_STATUS_MS: u32 = 120_000;

/// How long a card about finished work stays, in milliseconds.
pub const EXPIRE_DONE_MS: u32 = 2_500;

/// How long a card about an error stays, in milliseconds.
pub const EXPIRE_ERROR_MS: u32 = 4_500;

/// A status card.
#[derive(Debug, Clone)]
pub struct Card {
    pub icon: String,
    /// The text for the on-screen display.
    pub plasma: String,
    /// The text for a notification.
    pub body: String,
    pub expire_ms: u32,
}

/// What a [`Card`] holds.
pub struct CardView {
    pub icon: Seq<char>,
    pub plasma: Seq<char>,
    pub body: Seq<char>,
    pub expire_ms: u32,
}

impl View for Card {
    type V = CardView;

    open spec fn view(&self) -> CardView {
        CardView {
            icon: self.icon@,
            plasma: self.plasma@,
            body: self.body@,
            expire_ms: self.expire_ms,
        }
    }
}

/// The text of the display that says `body`.
pub open spec fn branded(body: Seq<char>) -> Seq<char> {
    "xai-dict · "@ + body
}

/// The card shown while recording.
pub open spec fn recording_card() -> CardView {
    CardView {
        icon: "audio-input-microphone"@,
        plasma: "xai-dict · 录音中… 再按右 Alt 结束"@,
        body: "录音中… 再按右 Alt 结束"@,
        expire_ms: EXPIRE_STATUS_MS,
    }
}

/// The card shown while recognising.
pub open spec fn transcribing_card() -> CardView {
    CardView {
        icon: "view-refresh"@,
        plasma: "xai-dict · 识别中…"@,
        body: "识别中…"@,
        expire_ms: EXPIRE_STATUS_MS,
    }
}

/// The card shown when `txt` was delivered: its first forty characters.
pub open spec fn done_card(txt: Seq<char>) -> CardView {
    let preview = text::first_chars(txt, 40);
    CardView {
        icon: "dialog-ok"@,
        plasma: if preview.len() == 0 {
            "xai-dict · 完成"@
        } else {
            branded(preview)
        },
        body: if preview.len() == 0 {
            "完成"@
        } else {
            preview
        },
        expire_ms: EXPIRE_DONE_MS,
    }
}

/// The card shown for an error: its first eighty characters on one line.
pub open spec fn error_card(msg: Seq<char>) -> CardView {
    let preview = text::on_one_line(text::first_chars(msg, 80));
    CardView {
        icon: "dialog-error"@,
        plasma: branded(preview),
        body: preview,
        expire_ms: EXPIRE_ERROR_MS,
    }
}

/// The card shown for a short hint.
pub open spec fn hint_card(msg: Seq<char>) -> CardView {
    CardView {
        icon: "audio-input-microphone"@,
        plasma: branded(msg),
        body: msg,
        expire_ms: EXPIRE_DONE_MS,
    }
}

/// The card shown while recording.
pub fn recording() -> (r: Card)
    ensures
        r@ == recording_card(),
{
    Card {
        icon: "audio-input-microphone".to_string(),
        plasma: "xai-dict · 录音中… 再按右 Alt 结束".to_string(),
        body: "录音中… 再按右 Alt 结束".to_string(),
        expire_ms: EXPIRE_STATUS_MS,
    }
}

/// The card shown while recognising.
pub fn transcribing() -> (r: Card)
    ensures
        r@ == transcribing_card(),
{
    Card {
        icon: "view-refresh".to_string(),
        plasma: "xai-dict · 识别中…".to_string(),
        body: "识别中…".to_string(),
        expire_ms: EXPIRE_STATUS_MS,
    }
}

/// The card shown when `txt` was delivered.
pub fn done(txt: &str) -> (r: Card)
    ensures
        r@ == done_card(txt@),
{
    let preview = text::prefix(txt, 40);
    if preview.unicode_len() == 0 {
        Card {
            icon: "dialog-ok".to_string(),
            plasma: "xai-dict · 完成".to_string(),
            body: "完成".to_string(),
            expire_ms: EXPIRE_DONE_MS,
        }
    } else {
        Card {
            icon: "dialog-ok".to_string(),
            plasma: text::cat("xai-dict · ", preview),
            body: preview.to_string(),
            expire_ms: EXPIRE_DONE_MS,
        }
    }
}

/// The card shown for an error.
pub fn error(msg: &str) -> (r: Card)
    ensures
        r@ == error_card(msg@),
{
    let preview = text::one_line(text::prefix(msg, 80));
    Card {
        icon: "dialog-error".to_string(),
        plasma: text::cat("xai-dict · ", preview.as_str()),
        body: preview,
        expire_ms: EXPIRE_ERROR_MS,
    }
}

/// The card shown for a short hint.
pub fn boot_hint(msg: &str) -> (r: Card)
    ensures
        r@ == hint_card(msg@),
{
    Card {
        icon: "audio-input-microphone".to_string(),
        plasma: text::cat("xai-dict · ", msg),
        body: msg.to_string(),
        expire_ms: EXPIRE_DONE_MS,
    }
}

/// Which of Qt's bus tools are installed.
#[derive(Debug, Clone, Copy, PartialEq, Eq, Structural)]
pub struct Buses {
    pub qdbus6: bool,
    pub qdbus_qt6: bool,
    pub qdbus: bool,
}

/// The installed bus tools, in the order in which they are tried.
pub open spec fn bus_names(b: Buses) -> Seq<Seq<char>> {
    (if b.qdbus6 {
        seq!["qdbus6"@]
    } else {
        seq![]
    }) + (if b.qdbus_qt6 {
        seq!["qdbus-qt6"@]
    } else {
        seq![]
    }) + (if b.qdbus {
        seq!["qdbus"@]
    } else {
        seq![]
    })
}

/// One and the same call with each installed bus tool.
pub open spec fn calls_by_name(names: Seq<Seq<char>>, args: Seq<Seq<char>>) -> Seq<Line> {
    names.map_values(|n: Seq<char>| Line { program: n, args })
}

/// One and the same call with each installed bus tool, in the order in which they are tried.
pub fn with_each_bus(b: Buses, args: &[&str]) -> (r: Vec<CommandLine>)
    ensures
        command::lines(r@) == calls_by_name(bus_names(b), text::strs(args@)),
{
    let mut out: Vec<CommandLine> = Vec::new();
    if b.qdbus6 {
        out.push(command::command("qdbus6", args));
    }
    if b.qdbus_qt6 {
        out.push(command::command("qdbus-qt6", args));
    }
    if b.qdbus {
        out.push(command::command("qdbus", args));
    }
    assert(command::lines(out@) =~= calls_by_name(bus_names(b), text::strs(args@)));
    out
}

/// The ways to show a text on the display, in the order in which they are tried.
pub open spec fn plasma_calls(icon: Seq<char>, txt: Seq<char>, b: Buses) -> Seq<Line> {
    seq![
        command::bus_call(
            "org.kde.plasmashell"@,
            "/org/kde/osdService"@,
            "org.kde.osdService"@,
            "showText"@,
            seq!["ss"@, icon, txt],
        ),
    ] + calls_by_name(
        bus_names(b),
        seq![
            "org.kde.plasmashell"@,
            "/org/kde/osdService"@,
            "org.kde.osdService.showText"@,
            icon,
            txt,
        ],
    )
}

fn show_on_plasma(icon: &str, txt: &str, b: Buses) -> (r: Vec<CommandLine>)
    ensures
        command::lines(r@) == plasma_calls(icon@, txt@, b),
{
    let mut out: Vec<CommandLine> = Vec::new();
    let extra: [&str; 3] = ["ss", icon, txt];
    let first = command::call_on_bus(
        "org.kde.plasmashell",
        "/org/kde/osdService",
        "org.kde.osdService",
        "showText",
        &extra,
    );
    let args: [&str; 5] = [
        "org.kde.plasmashell",
        "/org/kde/osdService",
        "org.kde.osdService.showText",
        icon,
        txt,
    ];
    let mut more = with_each_bus(b, &args);
    proof {
        assert(text::strs(extra@) =~= seq!["ss"@, icon@, txt@]);
        assert(text::strs(args@) =~= seq![
            "org.kde.plasmashell"@,
            "/org/kde/osdService"@,
            "org.kde.osdService.showText"@,
            icon@,
            txt@,
        ]);
    }
    out.push(first);
    let ghost rest = more@;
    out.append(&mut more);
    assert(command::lines(out@) =~= seq![first@] + command::lines(rest));
    out
}

/// The command that shows a notification, in the place of notification `replaces` unless that is 0.
pub open spec fn notify_line(icon: Seq<char>, body: Seq<char>, ms: u32, replaces: u32) -> Line {
    Line {
        program: "notify-send"@,
        args: seq![
            "--app-name=xai-dict"@,
            "--icon="@ + icon,
            "--urgency=low"@,
            "--transient"@,
            "--expire-time="@ + text::decimal(ms as nat),
            "--print-id"@,
        ] + (if replaces != 0 {
            seq!["--replace-id="@ + text::decimal(replaces as nat)]
        } else {
            seq![]
        }) + seq!["--hint=string:desktop-entry:xai-dict"@, "xai-dict"@, body],
    }
}

/// The call that does the same on the message bus.
pub open spec fn bus_notify_line(icon: Seq<char>, body: Seq<char>, ms: u32, replaces: u32) -> Line {
    command::bus_call(
        "org.freedesktop.Notifications"@,
        "/org/freedesktop/Notifications"@,
        "org.freedesktop.Notifications"@,
        "Notify"@,
        seq![
            "susssasa{sv}i"@,
            "xai-dict"@,
            text::decimal(replaces as nat),
            icon,
            "xai-dict"@,
            body,
            "0"@,
            "0"@,
            text::decimal(ms as nat),
        ],
    )
}

/// The call that closes notification `id`.
pub open spec fn close_line(id: u32) -> Line {
    command::bus_call(
        "org.freedesktop.Notifications"@,
        "/org/freedesktop/Notifications"@,
        "org.freedesktop.Notifications"@,
        "CloseNotification"@,
        seq!["u"@, text::decimal(id as nat)],
    )
}

fn notify_command(icon: &str, body: &str, ms: u32, replaces: u32) -> (r: CommandLine)
    ensures
        r@ == notify_line(icon@, body@, ms, replaces),
{
    let mut args: Vec<String> = Vec::new();
    args.push("--app-name=xai-dict".to_string());
    args.push(text::cat("--icon=", icon));
    args.push("--urgency=low".to_string());
    args.push("--transient".to_string());
    args.push(text::cat("--expire-time=", text::number(ms as u64).as_str()));
    args.push("--print-id".to_string());
    if replaces != 0 {
        args.push(text::cat("--replace-id=", text::number(replaces as u64).as_str()));
    }
    args.push("--hint=string:desktop-entry:xai-dict".to_string());
    args.push("xai-dict".to_string());
    args.push(body.to_string());
    assert(text::texts(args@) =~= notify_line(icon@, body@, ms, replaces).args);
    CommandLine { program: "notify-send".to_string(), args }
}

fn bus_notify_command(icon: &str, body: &str, ms: u32, replaces: u32) -> (r: CommandLine)
    ensures
        r@ == bus_notify_line(icon@, body@, ms, replaces),
{
    let id = text::number(replaces as u64);
    let timeout = text::number(ms as u64);
    let extra: [&str; 9] = [
        "susssasa{sv}i",
        "xai-dict",
        id.as_str(),
        icon,
        "xai-dict",
        body,
        "0",
        "0",
        timeout.as_str(),
    ];
    proof {
        assert(text::strs(extra@) =~= seq![
            "susssasa{sv}i"@,
            "xai-dict"@,
            id@,
            icon@,
            "xai-dict"@,
            body@,
            "0"@,
            "0"@,
            timeout@,
        ]);
    }
    command::call_on_bus(
        "org.freedesktop.Notifications",
        "/org/freedesktop/Notifications",
        "org.freedesktop.Notifications",
        "Notify",
        &extra,
    )
}

fn close_command(id: u32) -> (r: CommandLine)
    ensures
        r@ == close_line(id),
{
    let id = text::number(id as u64);
    let extra: [&str; 2] = ["u", id.as_str()];
    assert(text::strs(extra@) =~= seq!["u"@, id@]);
    command::call_on_bus(
        "org.freedesktop.Notifications",
        "/org/freedesktop/Notifications",
        "org.freedesktop.Notifications",
        "CloseNotification",
        &extra,
    )
}

/// What is known of the display and the notification that is up.
#[derive(Debug, Clone, Copy, PartialEq, Eq, Structural)]
pub struct Osd {
    /// When the display last failed, in milliseconds, unless it has worked since.
    pub failed_at: Option<u64>,
    /// The notification that is up, or 0.
    pub notify_id: u32,
    /// Whether notifications can be shown at all.
    pub notify_ok: bool,
}

/// What is left to do once the display was tried.
#[derive(Debug, Clone)]
pub enum Follow {
    Nothing,
    /// Close the notification that is up.
    Close(CommandLine),
    /// Show a notification by the first command or, if it fails, by the second.
    Notify(CommandLine, CommandLine),
}

/// What a [`Follow`] holds.
pub enum FollowView {
    Nothing,
    Close(Line),
    Notify(Line, Line),
}

impl View for Follow {
    type V = FollowView;

    open spec fn view(&self) -> FollowView {
        match *self {
            Follow::Nothing => FollowView::Nothing,
            Follow::Close(c) => FollowView::Close(c@),
            Follow::Notify(a, b) => FollowView::Notify(a@, b@),
        }
    }
}

impl Osd {
    /// Nothing shown yet.
    pub open spec fn start() -> Osd {
        Osd { failed_at: None, notify_id: 0, notify_ok: true }
    }

    /// Whether the display may be tried at time `now`.
    pub open spec fn allowed(self, now: u64) -> bool {
        match self.failed_at {
            None => true,
            Some(t) => now - t >= PLASMA_RETRY_MS,
        }
    }

    /// The state once the display was tried at time `now`.
    pub open spec fn tried(self, ok: bool, now: u64) -> Osd {
        Osd {
            failed_at: if ok {
                None
            } else {
                Some(now)
            },
            ..self
        }
    }

    /// The state without a notification, and what closes the one that was up.
    pub open spec fn closed(self) -> (Osd, FollowView) {
        (
            Osd { notify_id: 0, ..self },
            if self.notify_id == 0 {
                FollowView::Nothing
            } else {
                FollowView::Close(close_line(self.notify_id))
            },
        )
    }

    /// What follows on the display having shown `card` or not.
    pub open spec fn followed(self, shown: bool, card: CardView, have_notify_send: bool) -> (
        Osd,
        FollowView,
    ) {
        if shown {
            self.closed()
        } else if !self.notify_ok {
            (self, FollowView::Nothing)
        } else if !have_notify_send {
            (Osd { notify_ok: false, ..self }, FollowView::Nothing)
        } else {
            (
                self,
                FollowView::Notify(
                    notify_line(card.icon, card.body, card.expire_ms, self.notify_id),
                    bus_notify_line(card.icon, card.body, card.expire_ms, self.notify_id),
                ),
            )
        }
    }

    /// The state once a notification was answered with an identifier, or without one.
    pub open spec fn answered(self, id: Option<nat>) -> Osd {
        match id {
            Some(n) => if n != 0 {
                Osd { notify_id: n as u32, ..self }
            } else {
                self
            },
            None => self,
        }
    }

    /// Nothing shown yet.
    pub fn new() -> (r: Self)
        ensures
            r == Osd::start(),
    {
        Osd { failed_at: None, notify_id: 0, notify_ok: true }
    }

    /// Whether the display may be tried.
    pub fn plasma_allowed(&self, now: u64) -> (r: bool)
        ensures
            r == self.allowed(now),
    {
        match self.failed_at {
            None => true,
            Some(t) => now >= t && now - t >= PLASMA_RETRY_MS,
        }
    }

    /// The ways to show a card on the display, in the order in which they are tried: none while
    /// the display is left alone.
    pub fn plasma_show(&self, card: &Card, b: Buses, now: u64) -> (r: Vec<CommandLine>)
        ensures
            command::lines(r@) == if self.allowed(now) {
                plasma_calls(card@.icon, card@.plasma, b)
            } else {
                seq![]
            },
    {
        if self.plasma_allowed(now) {
            show_on_plasma(card.icon.as_str(), card.plasma.as_str(), b)
        } else {
            let r: Vec<CommandLine> = Vec::new();
            assert(command::lines(r@) =~= seq![]);
            r
        }
    }

    /// The display worked.
    pub fn mark_plasma_ok(&mut self)
        ensures
            *final(self) == old(self).tried(true, 0),
    {
        self.failed_at = None;
    }

    /// The display failed at time `now`.
    pub fn mark_plasma_failed(&mut self, now: u64)
        ensures
            *final(self) == old(self).tried(false, now),
    {
        self.failed_at = Some(now);
    }

    /// What follows on the display having shown `card` or not: the notification is closed, or it
    /// takes the display's place.
    pub fn show_status(&mut self, card: &Card, shown: bool, have_notify_send: bool) -> (r: Follow)
        ensures
            (*final(self), r@) == old(self).followed(shown, card@, have_notify_send),
    {
        if shown {
            self.close_notification()
        } else if !self.notify_ok {
            Follow::Nothing
        } else if !have_notify_send {
            self.notify_ok = false;
            Follow::Nothing
        } else {
            let (icon, body) = (card.icon.as_str(), card.body.as_str());
            Follow::Notify(
                notify_command(icon, body, card.expire_ms, self.notify_id),
                bus_notify_command(icon, body, card.expire_ms, self.notify_id),
            )
        }
    }

    /// `notify-send` printed the identifier of the notification.
    pub fn notify_replaced(&mut self, printed: &str)
        ensures
            *final(self) == old(self).answered(
                text::unsigned_value(text::trimmed(printed@), u32::MAX as nat),
            ),
    {
        match text::parse_unsigned(text::trim(printed), 0xffff_ffff) {
            Some(n) => {
                if n != 0 {
                    self.notify_id = n as u32;
                }
            },
            None => {},
        }
    }

    /// The message bus answered with the identifier of the notification.
    pub fn notified_via_busctl(&mut self, printed: &str)
        ensures
            *final(self) == old(self).answered(
                text::first_number_in(text::words_of(printed@), u32::MAX as nat),
            ),
    {
        match text::first_number(printed, 0xffff_ffff) {
            Some(n) => {
                if n != 0 {
                    self.notify_id = n as u32;
                }
            },
            None => {},
        }
    }

    /// Forgets the notification that is up and says how to close it.
    pub fn close_notification(&mut self) -> (r: Follow)
        ensures
            (*final(self), r@) == old(self).closed(),
    {
        let id: u32 = self.notify_id;
        self.notify_id = 0;
        if id == 0 {
            Follow::Nothing
        } else {
            Follow::Close(close_command(id))
        }
    }
}

/// The call that takes the display down.
pub fn take_down() -> (r: CommandLine)
    ensures
        r@ == command::bus_call(
            "org.kde.plasmashell"@,
            "/org/kde/osdService"@,
            "org.kde.osdService"@,
            "hide"@,
            seq![],
        ),
{
    let extra: [&str; 0] = [];
    assert(text::strs(extra@) =~= seq![]);
    command::call_on_bus(
        "org.kde.plasmashell",
        "/org/kde/osdService",
        "org.kde.osdService",
        "hide",
        &extra,
    )
}

/// Notifications never pile up: once one is up, the next one names it as the one to replace, and
/// a display that works again closes it. Closing twice closes once.
pub proof fn one_notification_at_most(osd: Osd, id: u32, card: CardView)
    requires
        osd.notify_ok,
        id != 0,
    ensures
        ({
            let up = osd.answered(Some(id as nat));
            &&& up.followed(false, card, true).1 == FollowView::Notify(
                notify_line(card.icon, card.body, card.expire_ms, id),
                bus_notify_line(card.icon, card.body, card.expire_ms, id),
            )
            &&& notify_line(card.icon, card.body, card.expire_ms, id).args.contains(
                "--replace-id="@ + text::decimal(id as nat),
            )
            &&& up.followed(true, card, true) == (
                Osd { notify_id: 0, ..up },
                FollowView::Close(close_line(id)),
            )
            &&& up.closed().0.closed() == (up.closed().0, FollowView::Nothing)
        }),
{
    let args = notify_line(card.icon, card.body, card.expire_ms, id).args;
    assert(args[6] == "--replace-id="@ + text::decimal(id as nat));
}

/// After a failure the display is left alone for fifteen seconds, and no longer.
pub proof fn failure_pauses_the_display(osd: Osd, failed: u64, now: u64)
    requires
        failed <= now,
    ensures
        osd.tried(false, failed).allowed(now) <==> now >= failed + 15_000,
        osd.tried(false, failed).tried(true, now).allowed(now),
{
}

/// A card about a text shows its beginning, forty characters of it or all, on the display behind the
/// program's name and in the notification alone.
pub proof fn cards_show_the_beginning_of_a_text(txt: Seq<char>)
    requires
        txt.len() > 0,
    ensures
        done_card(txt).body.is_prefix_of(txt),
        done_card(txt).body.len() == if txt.len() < 40 {
            txt.len()
        } else {
            40
        },
        done_card(txt).plasma == "xai-dict · "@ + done_card(txt).body,
        done_card(txt).icon == "dialog-ok"@,
        done_card(txt).expire_ms == 2_500,
{
    text::ends_are_cut_out(txt, 40);
}

/// A card about an error shows its beginning on one line: eighty characters of it or all, each as it is
/// but for the line feeds.
pub proof fn cards_show_errors_on_one_line(msg: Seq<char>, i: int)
    requires
        0 <= i < error_card(msg).body.len(),
    ensures
        error_card(msg).body.len() == if msg.len() < 80 {
            msg.len()
        } else {
            80
        },
        error_card(msg).body[i] == if msg[i] == '\n' {
            ' '
        } else {
            msg[i]
        },
        error_card(msg).plasma == "xai-dict · "@ + error_card(msg).body,
        error_card(msg).icon == "dialog-error"@,
        error_card(msg).expire_ms == 4_500,
{
    text::ends_are_cut_out(msg, 80);
    let cut = text::first_chars(msg, 80);
    if cut.len() > 0 {
        text::one_line_keeps_the_rest(cut, 0);
        text::one_line_keeps_the_rest(cut, i);
    }
}

/// A hint is shown as it is.
pub proof fn cards_show_all_of_a_hint(msg: Seq<char>)
    ensures
        hint_card(msg).body == msg,
        hint_card(msg).plasma == "xai-dict · "@ + msg,
        hint_card(msg).expire_ms == 2_500,
{
}

/// Every way to show a text hands over its icon and then the text, as the last two words; the message bus
/// itself is asked first, then each tool that is there.
pub proof fn every_call_carries_the_text(icon: Seq<char>, txt: Seq<char>, b: Buses, i: int)
    requires
        0 <= i < plasma_calls(icon, txt, b).len(),
    ensures
        ({
            let calls = plasma_calls(icon, txt, b);
            let args = calls[i].args;
            &&& args.len() >= 2 && args[args.len() - 1] == txt && args[args.len() - 2] == icon
            &&& calls[0].program == "busctl"@
            &&& calls.len() == 1 + (if b.qdbus6 {
                1int
            } else {
                0
            }) + (if b.qdbus_qt6 {
                1int
            } else {
                0
            }) + (if b.qdbus {
                1int
            } else {
                0
            })
            &&& b.qdbus6 ==> calls[1].program == "qdbus6"@
            &&& b.qdbus ==> calls.last().program == "qdbus"@
            &&& b.qdbus_qt6 && !b.qdbus ==> calls.last().program == "qdbus-qt6"@
        }),
{
    let calls = plasma_calls(icon, txt, b);
    if i > 0 {
        assert(calls[i].args == seq![
            "org.kde.plasmashell"@,
            "/org/kde/osdService"@,
            "org.kde.osdService.showText"@,
            icon,
            txt,
        ]);
    }
}

/// A notification ends with its text, names its icon and how long it stays, and names one to replace
/// exactly if one is up.
pub proof fn notifications_carry_the_text(icon: Seq<char>, body: Seq<char>, ms: u32, replaces: u32)
    ensures
        ({
            let args = notify_line(icon, body, ms, replaces).args;
            let call = bus_notify_line(icon, body, ms, replaces).args;
            let n = call.len();
            &&& args.last() == body
            &&& args.contains("--icon="@ + icon)
            &&& args.contains("--expire-time="@ + text::decimal(ms as nat))
            &&& replaces == 0 <==> args.len() == 9
            &&& replaces != 0 <==> args.len() == 10
            &&& call[n - 1] == text::decimal(ms as nat)
            &&& call[n - 4] == body
            &&& call[n - 6] == icon
            &&& call[n - 7] == text::decimal(replaces as nat)
            &&& close_line(replaces).args.last() == text::decimal(replaces as nat)
        }),
{
    let args = notify_line(icon, body, ms, replaces).args;
    assert(args[1] == "--icon="@ + icon);
    assert(args[4] == "--expire-time="@ + text::decimal(ms as nat));
}

/// An identifier other than zero is kept; without one the last stays.
pub proof fn identifiers_are_kept(osd: Osd, id: nat)
    requires
        id <= u32::MAX,
    ensures
        id != 0 ==> osd.answered(Some(id)) == (Osd { notify_id: id as u32, ..osd }),
        osd.answered(Some(0)) == osd,
        osd.answered(None) == osd,
{
}

/// A notification is shown exactly where the display was not and notifications can be shown, and once
/// they cannot be none is ever tried again.
pub proof fn notifications_stand_in_for_the_display(osd: Osd, card: CardView, shown: bool, have: bool)
    ensures
        osd.followed(shown, card, have).1 is Notify <==> !shown && osd.notify_ok && have,
        osd.followed(shown, card, have).1 is Close <==> shown && osd.notify_id != 0,
        !shown && !have ==> !osd.followed(shown, card, have).0.notify_ok,
        !osd.notify_ok ==> !osd.followed(shown, card, have).0.notify_ok,
        have ==> osd.followed(shown, card, have).0.notify_ok == osd.notify_ok,
        osd.followed(shown, card, have).0.failed_at == osd.failed_at,
        !shown ==> osd.followed(shown, card, have).0.notify_id == osd.notify_id,
        shown ==> osd.followed(shown, card, have).0.notify_id == 0,
{
}

/// At first the display may be tried, no notification is up, and one can be shown.
pub proof fn nothing_is_shown_at_first(now: u64)
    ensures
        Osd::start().allowed(now),
        Osd::start().notify_id == 0,
        Osd::start().notify_ok,
{
}

/// While work goes on, the display says behind the program's name what the notification says, for up to two
/// minutes.
pub proof fn progress_is_shown_alike()
    ensures
        recording_card().plasma == "xai-dict · "@ + recording_card().body,
        transcribing_card().plasma == "xai-dict · "@ + transcribing_card().body,
        recording_card().body == "录音中… 再按右 Alt 结束"@,
        transcribing_card().body == "识别中…"@,
        recording_card().icon == "audio-input-microphone"@,
        transcribing_card().icon == "view-refresh"@,
        recording_card().expire_ms == 120_000,
        transcribing_card().expire_ms == 120_000,
{
    reveal_strlit("xai-dict · ");
    reveal_strlit("录音中… 再按右 Alt 结束");
    reveal_strlit("识别中…");
    reveal_strlit("xai-dict · 录音中… 再按右 Alt 结束");
    reveal_strlit("xai-dict · 识别中…");
    assert("xai-dict · 录音中… 再按右 Alt 结束"@ =~= "xai-dict · "@ + "录音中… 再按右 Alt 结束"@);
    assert("xai-dict · 识别中…"@ =~= "xai-dict · "@ + "识别中…"@);
}

} // verus!
