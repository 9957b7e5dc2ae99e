//! The daemon: its states, the commands it takes, and the protocol on its socket.

use crate::hotkey::{self, HotkeyEvent, Key};
use crate::notify::{self, Display, DisplayView};
use crate::{config, osd, text};
use vstd::prelude::*;

verus! {

/// A toggle this soon after the start, in milliseconds, does not stop the recording.
pub const DEBOUNCE_MS: u64 = 400;

/// How long a recording may last unless set otherwise, in seconds.
pub const MAX_SECS: u64 = 120;

/// What the daemon is doing.
#[derive(Debug, Clone, Copy, PartialEq, Eq, Structural)]
pub enum State {
    Idle,
    Recording,
    Transcribing,
}

/// The name of a state.
pub open spec fn state_name(s: State) -> Seq<char> {
    match s {
        State::Idle => "idle"@,
        State::Recording => "recording"@,
        State::Transcribing => "transcribing"@,
    }
}

impl State {
    /// The name of the state.
    pub fn as_str(self) -> (r: &'static str)
        ensures
            r@ == state_name(self),
    {
        match self {
            State::Idle => "idle",
            State::Recording => "recording",
            State::Transcribing => "transcribing",
        }
    }
}

/// A command to the daemon.
#[derive(Debug, Clone, Copy, PartialEq, Eq, Structural)]
pub enum SessionCmd {
    Toggle,
    Start,
    Stop,
    Status,
    Quit,
}

/// What a command makes the daemon do.
#[derive(Debug, Clone, Copy, PartialEq, Eq, Structural)]
pub enum Action {
    Nothing,
    /// Start a recording and report the outcome.
    Record,
    /// Stop the recording and recognise it, as the job with this number.
    Finish { session: u64 },
    /// Leave the loop.
    Quit,
}

/// The state of the daemon.
#[derive(Debug, Clone, Copy, PartialEq, Eq, Structural)]
pub struct Daemon {
    /// Whether the hotkey is held while speaking.
    pub ptt: bool,
    pub state: State,
    /// Whether there is a recording.
    pub recording: bool,
    /// Whether the recording ends by itself after the longest time allowed.
    pub armed: bool,
    /// The number of the last recognition job.
    pub asr_session: u64,
    /// The number of the recognition job that is waited for.
    pub active_asr_session: u64,
}

impl Daemon {
    /// Nothing going on yet.
    pub open spec fn idle(ptt: bool) -> Daemon {
        Daemon {
            ptt,
            state: State::Idle,
            recording: false,
            armed: false,
            asr_session: 0,
            active_asr_session: 0,
        }
    }

    /// There is a recording exactly while the state says so, and only a recording can end by
    /// itself.
    pub open spec fn wf(self) -> bool {
        &&& self.recording <==> self.state == State::Recording
        &&& self.armed ==> self.recording
    }

    /// The command that a hotkey event stands for.
    pub open spec fn command_of(self, ev: HotkeyEvent) -> Option<SessionCmd> {
        if self.ptt {
            match ev {
                HotkeyEvent::Press => Some(SessionCmd::Start),
                HotkeyEvent::Release => Some(SessionCmd::Stop),
            }
        } else {
            match ev {
                HotkeyEvent::Press => Some(SessionCmd::Toggle),
                HotkeyEvent::Release => None,
            }
        }
    }

    /// After the longest time allowed has passed, and the command that follows.
    pub open spec fn timed_out(self) -> (Daemon, Option<SessionCmd>) {
        if self.armed && self.recording {
            (Daemon { armed: false, ..self }, Some(SessionCmd::Stop))
        } else {
            (self, None)
        }
    }

    /// The number after the last job's.
    pub open spec fn next_session(self) -> u64 {
        if self.asr_session == u64::MAX {
            0
        } else {
            (self.asr_session + 1) as u64
        }
    }

    /// After an attempt to stop `elapsed_ms` after the start. A short press is ignored if it is
    /// to be debounced.
    pub open spec fn stopped(self, elapsed_ms: u64, honor_debounce: bool) -> (Daemon, Action) {
        if !self.recording || (honor_debounce && elapsed_ms < DEBOUNCE_MS) {
            (self, Action::Nothing)
        } else {
            (
                Daemon {
                    state: State::Transcribing,
                    recording: false,
                    armed: false,
                    asr_session: self.next_session(),
                    active_asr_session: self.next_session(),
                    ..self
                },
                Action::Finish { session: self.next_session() },
            )
        }
    }

    /// What an attempt to start leads to.
    pub open spec fn starting(self) -> Action {
        if self.state == State::Idle {
            Action::Record
        } else {
            Action::Nothing
        }
    }

    /// After a recording was started, or could not be.
    pub open spec fn began(self, ok: bool) -> Daemon {
        if ok {
            Daemon { state: State::Recording, recording: true, armed: true, ..self }
        } else {
            self
        }
    }

    /// After a command that comes `elapsed_ms` after the start of the recording, if there is one.
    pub open spec fn commanded(self, cmd: SessionCmd, elapsed_ms: u64) -> (Daemon, Action) {
        match cmd {
            SessionCmd::Quit => (self, Action::Quit),
            SessionCmd::Status => (self, Action::Nothing),
            SessionCmd::Start => (self, self.starting()),
            SessionCmd::Stop => self.stopped(elapsed_ms, false),
            SessionCmd::Toggle => match self.state {
                State::Idle => (self, self.starting()),
                State::Recording => self.stopped(elapsed_ms, true),
                State::Transcribing => (self, Action::Nothing),
            },
        }
    }

    /// Whether the result of job `session` is the one that is waited for.
    pub open spec fn awaits(self, session: u64) -> bool {
        self.state == State::Transcribing && session == self.active_asr_session
    }

    /// After the result of job `session`: only the one waited for ends the wait.
    pub open spec fn finished(self, session: u64) -> Daemon {
        if self.awaits(session) {
            Daemon { state: State::Idle, ..self }
        } else {
            self
        }
    }

    /// A daemon that does nothing yet.
    pub fn new(ptt: bool) -> (r: Self)
        ensures
            r == Daemon::idle(ptt),
            r.wf(),
    {
        Daemon {
            ptt,
            state: State::Idle,
            recording: false,
            armed: false,
            asr_session: 0,
            active_asr_session: 0,
        }
    }

    /// The command that a hotkey event stands for.
    pub fn hotkey(&self, ev: HotkeyEvent) -> (r: Option<SessionCmd>)
        ensures
            r == self.command_of(ev),
    {
        match ev {
            HotkeyEvent::Press => if self.ptt {
                Some(SessionCmd::Start)
            } else {
                Some(SessionCmd::Toggle)
            },
            HotkeyEvent::Release => if self.ptt {
                Some(SessionCmd::Stop)
            } else {
                None
            },
        }
    }

    /// The longest time allowed has passed.
    pub fn auto_stop(&mut self) -> (r: Option<SessionCmd>)
        ensures
            (*final(self), r) == old(self).timed_out(),
    {
        if self.armed && self.recording {
            self.armed = false;
            Some(SessionCmd::Stop)
        } else {
            None
        }
    }

    /// Whether a recording is to be started.
    pub fn try_start(&self) -> (r: Action)
        ensures
            r == self.starting(),
    {
        if self.state == State::Idle {
            Action::Record
        } else {
            Action::Nothing
        }
    }

    /// A recording was started, or could not be for the reason given. Says what to show.
    pub fn started(&mut self, outcome: Result<(), String>) -> (r: Vec<Display>)
        ensures
            *final(self) == old(self).began(outcome is Ok),
            notify::shows(r@) == match outcome {
                Ok(_) => notify::only(osd::recording_card()),
                Err(e) => notify::only(osd::error_card(e@)),
            },
    {
        match outcome {
            Ok(_) => {
                self.state = State::Recording;
                self.recording = true;
                self.armed = true;
                notify::recording()
            },
            Err(e) => notify::error(e.as_str()),
        }
    }

    /// Stops the recording, unless there is none or the press is to be debounced and too short.
    pub fn try_stop(&mut self, elapsed_ms: u64, honor_debounce: bool) -> (r: Action)
        ensures
            (*final(self), r) == old(self).stopped(elapsed_ms, honor_debounce),
    {
        if !self.recording {
            return Action::Nothing;
        }
        if honor_debounce && elapsed_ms < DEBOUNCE_MS {
            return Action::Nothing;
        }
        self.recording = false;
        self.armed = false;
        let session: u64 = if self.asr_session == u64::MAX {
            0
        } else {
            self.asr_session + 1
        };
        self.asr_session = session;
        self.active_asr_session = session;
        self.state = State::Transcribing;
        Action::Finish { session }
    }

    /// Takes a command that comes `elapsed_ms` after the start of the recording, if there is one.
    pub fn command(&mut self, cmd: SessionCmd, elapsed_ms: u64) -> (r: Action)
        ensures
            (*final(self), r) == old(self).commanded(cmd, elapsed_ms),
    {
        match cmd {
            SessionCmd::Quit => Action::Quit,
            SessionCmd::Status => Action::Nothing,
            SessionCmd::Start => self.try_start(),
            SessionCmd::Stop => self.try_stop(elapsed_ms, false),
            SessionCmd::Toggle => match self.state {
                State::Idle => self.try_start(),
                State::Recording => self.try_stop(elapsed_ms, true),
                State::Transcribing => Action::Nothing,
            },
        }
    }

    /// The result of recognition job `session` has come. Says what to show, or nothing if nobody
    /// waits for that job any more.
    pub fn asr_done(&mut self, session: u64, result: Result<String, String>) -> (r: Option<
        Vec<Display>,
    >)
        ensures
            *final(self) == old(self).finished(session),
            match r {
                None => !old(self).awaits(session),
                Some(d) => old(self).awaits(session) && notify::shows(d@) == outcome_shown(result),
            },
    {
        if self.state != State::Transcribing || session != self.active_asr_session {
            return None;
        }
        self.state = State::Idle;
        Some(
            match result {
                Ok(t) => if t.as_str().unicode_len() == 0 {
                    notify::idle("未识别到语音")
                } else {
                    notify::done(t.as_str())
                },
                Err(e) => notify::error(e.as_str()),
            },
        )
    }
}

/// What is shown for the outcome of a recognition job.
pub open spec fn outcome_shown(result: Result<String, String>) -> Seq<DisplayView> {
    match result {
        Ok(t) => if t@.len() == 0 {
            notify::idle_with("未识别到语音"@)
        } else {
            notify::only(osd::done_card(t@))
        },
        Err(e) => notify::only(osd::error_card(e@)),
    }
}

/// Whatever happens, in whatever order, the state says truly whether there is a recording.
pub proof fn daemon_stays_consistent(d: Daemon, cmd: SessionCmd, elapsed_ms: u64, session: u64)
    requires
        d.wf(),
    ensures
        d.commanded(cmd, elapsed_ms).0.wf(),
        d.starting() == Action::Record ==> d.began(true).wf() && d.began(false).wf(),
        d.timed_out().0.wf(),
        d.finished(session).wf(),
{
}

/// A result that comes late never touches a newer session: neither while another recording runs
/// nor while a later job is waited for.
pub proof fn late_results_change_nothing(d: Daemon, session: u64, elapsed_ms: u64)
    requires
        d.wf(),
    ensures
        d.state != State::Transcribing ==> d.finished(session) == d,
        d.recording && session != d.next_session() ==> ({
            let after = d.commanded(SessionCmd::Stop, elapsed_ms).0;
            after.finished(session) == after
        }),
{
}

/// Two recordings in a row get different job numbers, so the first one's result cannot pass for
/// the second one's.
pub proof fn sessions_are_told_apart(d: Daemon, e1: u64, e2: u64)
    requires
        d.wf(),
        d.recording,
    ensures
        ({
            let (d1, a1) = d.commanded(SessionCmd::Stop, e1);
            let (d2, a2) = d1.finished(d1.active_asr_session).began(true).commanded(
                SessionCmd::Stop,
                e2,
            );
            &&& a1 is Finish && a2 is Finish
            &&& a1->session != a2->session
            &&& !d2.awaits(a1->session)
            &&& d2.awaits(a2->session)
        }),
{
}

/// The toggle goes round: idle, recording, transcribing, and with the job's own result idle again.
pub proof fn toggle_goes_round(d: Daemon, elapsed_ms: u64)
    requires
        d.wf(),
        d.state == State::Idle,
        elapsed_ms >= DEBOUNCE_MS,
    ensures
        d.commanded(SessionCmd::Toggle, 0) == (d, Action::Record),
        d.began(true).state == State::Recording,
        ({
            let (after, action) = d.began(true).commanded(SessionCmd::Toggle, elapsed_ms);
            &&& after.state == State::Transcribing
            &&& action is Finish
            &&& after.finished(action->session).state == State::Idle
        }),
{
}

/// A second press right after the first is ignored and the recording goes on; a stop, a release
/// of a held key and the end of the longest time allowed always end it.
pub proof fn only_toggles_are_debounced(d: Daemon, elapsed_ms: u64)
    requires
        d.wf(),
        d.recording,
        elapsed_ms < DEBOUNCE_MS,
    ensures
        d.commanded(SessionCmd::Toggle, elapsed_ms) == (d, Action::Nothing),
        d.commanded(SessionCmd::Stop, elapsed_ms).0.state == State::Transcribing,
        d.ptt ==> d.command_of(HotkeyEvent::Release) == Some(SessionCmd::Stop),
        d.armed ==> d.timed_out().1 == Some(SessionCmd::Stop) && d.timed_out().0.commanded(
            SessionCmd::Stop,
            elapsed_ms,
        ).0.state == State::Transcribing,
{
}

/// A recording that was stopped does not end a second time when its time is up.
pub proof fn stopping_disarms(d: Daemon, elapsed_ms: u64)
    requires
        d.wf(),
        d.recording,
    ensures
        d.commanded(SessionCmd::Stop, elapsed_ms).0.timed_out().1 is None,
{
}

/// A request on the socket.
#[derive(Debug, Clone)]
pub enum Request {
    Command(SessionCmd),
    Ping,
    /// None that is known, in upper case.
    Unknown(String),
}

/// What a [`Request`] holds.
pub enum RequestView {
    Command(SessionCmd),
    Ping,
    Unknown(Seq<char>),
}

impl View for Request {
    type V = RequestView;

    open spec fn view(&self) -> RequestView {
        match *self {
            Request::Command(c) => RequestView::Command(c),
            Request::Ping => RequestView::Ping,
            Request::Unknown(t) => RequestView::Unknown(t@),
        }
    }
}

/// The request that a line makes, in any case and with white space around it.
pub open spec fn request_of(line: Seq<char>) -> RequestView {
    let word = text::uppered(text::trimmed(line));
    if word == "TOGGLE"@ {
        RequestView::Command(SessionCmd::Toggle)
    } else if word == "START"@ {
        RequestView::Command(SessionCmd::Start)
    } else if word == "STOP"@ {
        RequestView::Command(SessionCmd::Stop)
    } else if word == "STATUS"@ {
        RequestView::Command(SessionCmd::Status)
    } else if word == "QUIT"@ {
        RequestView::Command(SessionCmd::Quit)
    } else if word == "PING"@ {
        RequestView::Ping
    } else {
        RequestView::Unknown(word)
    }
}

/// Reads a request.
pub fn parse_request(line: &str) -> (r: Request)
    ensures
        r@ == request_of(line@),
{
    let word = text::to_upper(text::trim(line));
    let w = word.as_str();
    if text::same(w, "TOGGLE") {
        Request::Command(SessionCmd::Toggle)
    } else if text::same(w, "START") {
        Request::Command(SessionCmd::Start)
    } else if text::same(w, "STOP") {
        Request::Command(SessionCmd::Stop)
    } else if text::same(w, "STATUS") {
        Request::Command(SessionCmd::Status)
    } else if text::same(w, "QUIT") {
        Request::Command(SessionCmd::Quit)
    } else if text::same(w, "PING") {
        Request::Ping
    } else {
        Request::Unknown(word)
    }
}

/// The reply to a request in state `s`: for a toggle and a question the state it leaves.
pub open spec fn reply_to(req: RequestView, s: State) -> Seq<char> {
    match req {
        RequestView::Command(SessionCmd::Toggle) => "OK "@ + state_name(s) + "\n"@,
        RequestView::Command(SessionCmd::Status) => "OK "@ + state_name(s) + "\n"@,
        RequestView::Command(SessionCmd::Start) => "OK starting\n"@,
        RequestView::Command(SessionCmd::Stop) => "OK stopping\n"@,
        RequestView::Command(SessionCmd::Quit) => "OK quitting\n"@,
        RequestView::Ping => "OK pong\n"@,
        RequestView::Unknown(word) => "ERR unknown command: "@ + word + "\n"@,
    }
}

/// The reply to a request in state `s`.
pub fn reply(req: &Request, s: State) -> (r: String)
    ensures
        r@ == reply_to(req@, s),
{
    match req {
        Request::Command(c) => match *c {
            SessionCmd::Toggle | SessionCmd::Status => {
                let mut out = text::cat("OK ", s.as_str());
                out.append("\n");
                out
            },
            SessionCmd::Start => "OK starting\n".to_string(),
            SessionCmd::Stop => "OK stopping\n".to_string(),
            SessionCmd::Quit => "OK quitting\n".to_string(),
        },
        Request::Ping => "OK pong\n".to_string(),
        Request::Unknown(word) => {
            let mut out = text::cat("ERR unknown command: ", word.as_str());
            out.append("\n");
            out
        },
    }
}

/// Whether a reply, as the client reads it, refuses the request.
pub open spec fn refuses(reply: Seq<char>) -> bool {
    "ERR"@.is_prefix_of(text::trimmed(reply))
}

/// Whether a reply refuses the request.
pub fn is_refusal(reply: &str) -> (r: bool)
    ensures
        r == refuses(reply@),
{
    text::starts_with(text::trim(reply), "ERR")
}

/// Whether a reply shows that a daemon is running.
pub open spec fn alive(reply: Seq<char>) -> bool {
    "OK"@.is_prefix_of(text::trimmed(reply))
}

/// Whether the reply to a question about the state, if there was one, shows that a daemon is
/// already running.
pub fn already_running(reply: Option<&str>) -> (r: bool)
    ensures
        r == (reply is Some && alive(reply->Some_0@)),
{
    match reply {
        Some(t) => text::starts_with(text::trim(t), "OK"),
        None => false,
    }
}

/// The line that carries a request.
pub fn request_line(cmd: &str) -> (r: String)
    ensures
        r@ == cmd@ + "\n"@,
{
    text::cat(cmd, "\n")
}

/// What `head` starts with stays when the end of a text is trimmed, as long as `head` does not
/// end in white space.
proof fn lemma_trim_end_keeps(head: Seq<char>, tail: Seq<char>)
    requires
        head.len() > 0,
        !text::is_white(head.last()),
    ensures
        head.is_prefix_of(text::trim_end(head + tail)),
    decreases tail.len(),
{
    let all = head + tail;
    if tail.len() == 0 {
        assert(all =~= head);
    } else if text::is_white(all.last()) {
        assert(all.drop_last() =~= head + tail.drop_last());
        lemma_trim_end_keeps(head, tail.drop_last());
    }
}

/// The client takes a request for refused exactly if the daemon does not know it, and every other
/// reply tells it that a daemon is running.
pub proof fn only_unknown_requests_are_refused(line: Seq<char>, s: State)
    ensures
        refuses(reply_to(request_of(line), s)) <==> request_of(line) is Unknown,
        alive(reply_to(request_of(line), s)) <==> !(request_of(line) is Unknown),
{
    reveal_strlit("OK");
    reveal_strlit("ERR");
    reveal_strlit("OK ");
    reveal_strlit("ERR unknown command: ");
    reveal_strlit("OK starting\n");
    reveal_strlit("OK stopping\n");
    reveal_strlit("OK quitting\n");
    reveal_strlit("OK pong\n");
    let all = reply_to(request_of(line), s);
    let head = if request_of(line) is Unknown {
        "ERR"@
    } else {
        "OK"@
    };
    let tail = all.skip(head.len() as int);
    assert(all =~= head + tail);
    lemma_trim_end_keeps(head, tail);
    assert(text::trim_start(all) == all);
    let seen = text::trimmed(all);
    assert(head.is_prefix_of(seen));
    assert(seen[0] == head[0]);
    if "ERR"@.is_prefix_of(seen) {
        assert(seen[0] == "ERR"@[0]);
    }
    if "OK"@.is_prefix_of(seen) {
        assert(seen[0] == "OK"@[0]);
    }
}

/// The user that a process's status gives: the second word of that line, or 1000.
pub open spec fn uid_in(status: Seq<char>) -> nat {
    match text::line_with(text::lines_of(status), "Uid:"@) {
        Some(l) => {
            let ws = text::words_of(l);
            if ws.len() > 1 {
                match text::unsigned_value(ws[1], u32::MAX as nat) {
                    Some(n) => n,
                    None => 1000,
                }
            } else {
                1000
            }
        },
        None => 1000,
    }
}

/// The user that a process's status gives.
pub fn nix_uid(status: &str) -> (r: u32)
    ensures
        r == uid_in(status@),
{
    match text::find_line(status, "Uid:") {
        Some(line) => {
            let ws = text::words(line.as_str());
            assert(text::texts(ws@).len() == ws.len());
            if ws.len() > 1 {
                assert(text::texts(ws@)[1] == ws@[1]@);
                match text::parse_unsigned(ws[1].as_str(), 0xffff_ffff) {
                    Some(n) => n as u32,
                    None => 1000,
                }
            } else {
                1000
            }
        },
        None => 1000,
    }
}

/// A file of the daemon with the ending `ext`: in the runtime directory or, where there is none,
/// named by the user that `status` gives.
pub open spec fn runtime_file(runtime: Option<Seq<char>>, status: Option<Seq<char>>, ext: Seq<char>) -> Seq<
    char,
> {
    match runtime {
        Some(dir) => text::below(dir, "xai-dict"@ + ext),
        None => "/tmp/xai-dict-"@ + text::decimal(
            match status {
                Some(t) => uid_in(t),
                None => 1000,
            },
        ) + ext,
    }
}

fn runtime_path(runtime: Option<&str>, status: Option<&str>, ext: &str) -> (r: String)
    ensures
        r@ == runtime_file(text::opt_str(runtime), text::opt_str(status), ext@),
{
    match runtime {
        Some(dir) => {
            let name = text::cat("xai-dict", ext);
            text::join_path(dir, name.as_str())
        },
        None => {
            let uid: u32 = match status {
                Some(t) => nix_uid(t),
                None => 1000,
            };
            let mut out = text::cat("/tmp/xai-dict-", text::number(uid as u64).as_str());
            out.append(ext);
            out
        },
    }
}

/// The socket of the daemon.
pub fn socket_path(runtime: Option<&str>, status: Option<&str>) -> (r: String)
    ensures
        r@ == runtime_file(text::opt_str(runtime), text::opt_str(status), ".sock"@),
{
    runtime_path(runtime, status, ".sock")
}

/// The file that holds the daemon's process number.
pub fn pid_path(runtime: Option<&str>, status: Option<&str>) -> (r: String)
    ensures
        r@ == runtime_file(text::opt_str(runtime), text::opt_str(status), ".pid"@),
{
    runtime_path(runtime, status, ".pid")
}

/// The longest time a recording may last, in seconds: what the variable says if it is a number.
pub fn max_secs(var: Option<&str>) -> (r: u64)
    ensures
        r == match var {
            Some(t) => match text::unsigned_value(t@, u64::MAX as nat) {
                Some(n) => n,
                None => MAX_SECS as nat,
            },
            None => MAX_SECS as nat,
        },
{
    match var {
        Some(t) => match text::parse_unsigned(t, u64::MAX) {
            Some(n) => n,
            None => MAX_SECS,
        },
        None => MAX_SECS,
    }
}

/// How the hotkey is used.
pub open spec fn usage_of(key: Key, ptt: bool, stream: bool) -> Seq<char> {
    let hint = if stream {
        " · 流式上屏"@
    } else {
        ""@
    };
    if ptt {
        "按住 "@ + hotkey::label_of(key) + " 说话，松手定稿"@ + hint
    } else {
        "按 "@ + hotkey::label_of(key) + " 开始/结束"@ + hint
    }
}

/// How the hotkey is used.
pub fn usage(key: Key, ptt: bool, stream: bool) -> (r: String)
    ensures
        r@ == usage_of(key, ptt, stream),
{
    let mut out = text::cat(
        if ptt {
            "按住 "
        } else {
            "按 "
        },
        hotkey::key_label(key),
    );
    out.append(
        if ptt {
            " 说话，松手定稿"
        } else {
            " 开始/结束"
        },
    );
    out.append(
        if stream {
            " · 流式上屏"
        } else {
            ""
        },
    );
    out
}

/// What is shown when the daemon has come up.
pub fn greeting(key: Option<Key>, ptt: bool, stream: bool) -> (r: Vec<Display>)
    ensures
        notify::shows(r@) == match key {
            Some(k) => notify::idle_with("已启动 · "@ + usage_of(k, ptt, stream)),
            None => notify::idle_with("已启动 · 热键关闭，用 xai-dict toggle"@),
        },
{
    match key {
        Some(k) => {
            let use_it = usage(k, ptt, stream);
            let msg = text::cat("已启动 · ", use_it.as_str());
            notify::idle(msg.as_str())
        },
        None => notify::idle("已启动 · 热键关闭，用 xai-dict toggle"),
    }
}

/// What each command does, in every state: a question and the end change nothing, a start only asks for
/// a recording where nothing goes on, a stop ends the recording there is, and a toggle is one or the
/// other, but not within four tenths of a second of the start.
pub proof fn commands_do_as_they_say(d: Daemon, elapsed_ms: u64)
    requires
        d.wf(),
    ensures
        d.commanded(SessionCmd::Status, elapsed_ms) == (d, Action::Nothing),
        d.commanded(SessionCmd::Quit, elapsed_ms) == (d, Action::Quit),
        d.state == State::Idle ==> d.commanded(SessionCmd::Start, elapsed_ms) == (d, Action::Record)
            && d.commanded(SessionCmd::Toggle, elapsed_ms) == (d, Action::Record) && d.commanded(
            SessionCmd::Stop,
            elapsed_ms,
        ) == (d, Action::Nothing),
        d.state == State::Transcribing ==> d.commanded(SessionCmd::Start, elapsed_ms) == (
            d,
            Action::Nothing,
        ) && d.commanded(SessionCmd::Toggle, elapsed_ms) == (d, Action::Nothing) && d.commanded(
            SessionCmd::Stop,
            elapsed_ms,
        ) == (d, Action::Nothing),
        d.state == State::Recording ==> {
            let (after, action) = d.commanded(SessionCmd::Stop, elapsed_ms);
            &&& d.commanded(SessionCmd::Start, elapsed_ms) == (d, Action::Nothing)
            &&& elapsed_ms < 400 ==> d.commanded(SessionCmd::Toggle, elapsed_ms) == (d, Action::Nothing)
            &&& elapsed_ms >= 400 ==> d.commanded(SessionCmd::Toggle, elapsed_ms) == (after, action)
            &&& after.state == State::Transcribing && !after.recording && !after.armed
            &&& after.ptt == d.ptt
            &&& action == (Action::Finish { session: after.active_asr_session })
            &&& after.active_asr_session == after.asr_session
            &&& after.asr_session != d.asr_session
            &&& d.asr_session < u64::MAX ==> after.asr_session == d.asr_session + 1
        },
{
}

/// A recording that was started is one that can end by itself; one that could not be changes nothing.
/// When its time is up a recording is stopped, once, and nothing else is.
pub proof fn recordings_end_by_themselves(d: Daemon)
    requires
        d.wf(),
    ensures
        d.began(false) == d,
        d.began(true).state == State::Recording && d.began(true).recording && d.began(true).armed,
        d.began(true).asr_session == d.asr_session && d.began(true).active_asr_session
            == d.active_asr_session && d.began(true).ptt == d.ptt,
        d.began(true).timed_out().1 == Some(SessionCmd::Stop),
        d.began(true).timed_out().0.timed_out().1 is None,
        d.began(true).timed_out().0.recording,
        !d.recording ==> d.timed_out() == (d, None::<SessionCmd>),
{
}

/// The result that is waited for ends the wait and changes nothing else; no other result does anything.
pub proof fn only_the_awaited_result_counts(d: Daemon, session: u64)
    ensures
        d.state == State::Transcribing && session == d.active_asr_session ==> d.finished(session) == (
        Daemon { state: State::Idle, ..d }),
        d.state != State::Transcribing || session != d.active_asr_session ==> d.finished(session) == d,
{
}

/// A key that is held starts when it goes down and stops when it comes up; another key toggles when it
/// goes down, and its coming up means nothing.
pub proof fn keys_are_held_or_toggle(d: Daemon)
    ensures
        d.ptt ==> d.command_of(HotkeyEvent::Press) == Some(SessionCmd::Start) && d.command_of(
            HotkeyEvent::Release,
        ) == Some(SessionCmd::Stop),
        !d.ptt ==> d.command_of(HotkeyEvent::Press) == Some(SessionCmd::Toggle) && d.command_of(
            HotkeyEvent::Release,
        ) is None,
{
}

/// A text is shown as done, no text as nothing heard, and a failure with its reason.
pub proof fn outcomes_are_shown(text: String, why: String)
    ensures
        text@.len() > 0 ==> outcome_shown(Ok(text)) == notify::only(osd::done_card(text@)),
        text@.len() == 0 ==> outcome_shown(Ok(text)) == notify::idle_with("未识别到语音"@),
        outcome_shown(Err(why)) == notify::only(osd::error_card(why@)),
{
}

/// Each word asks for what it says, in any case and with white space around it, and any other word is
/// unknown and comes back as it is read.
pub proof fn words_ask_for_what_they_say(line: Seq<char>)
    ensures
        ({
            let word = text::uppered(text::trimmed(line));
            let req = request_of(line);
            &&& word == "TOGGLE"@ <==> req == RequestView::Command(SessionCmd::Toggle)
            &&& word == "START"@ <==> req == RequestView::Command(SessionCmd::Start)
            &&& word == "STOP"@ <==> req == RequestView::Command(SessionCmd::Stop)
            &&& word == "STATUS"@ <==> req == RequestView::Command(SessionCmd::Status)
            &&& word == "QUIT"@ <==> req == RequestView::Command(SessionCmd::Quit)
            &&& word == "PING"@ <==> req is Ping
            &&& req matches RequestView::Unknown(w) ==> w == word
        }),
{
    reveal_strlit("TOGGLE");
    reveal_strlit("START");
    reveal_strlit("STOP");
    reveal_strlit("STATUS");
    reveal_strlit("QUIT");
    reveal_strlit("PING");
    assert("TOGGLE"@.len() == 6 && "TOGGLE"@[0] == 'T');
    assert("STATUS"@.len() == 6 && "STATUS"@[0] == 'S');
    assert("START"@.len() == 5);
    assert("STOP"@.len() == 4 && "STOP"@[0] == 'S');
    assert("QUIT"@.len() == 4 && "QUIT"@[0] == 'Q');
    assert("PING"@.len() == 4 && "PING"@[0] == 'P');
}

/// A question and a toggle are answered with the state, by its name; an unknown word is named in the
/// refusal.
pub proof fn replies_name_the_state(s: State, word: Seq<char>)
    ensures
        ({
            let told = reply_to(RequestView::Command(SessionCmd::Status), s);
            &&& reply_to(RequestView::Command(SessionCmd::Toggle), s) == told
            &&& s == State::Idle ==> told == "OK "@ + "idle"@ + "\n"@
            &&& s == State::Recording ==> told == "OK "@ + "recording"@ + "\n"@
            &&& s == State::Transcribing ==> told == "OK "@ + "transcribing"@ + "\n"@
            &&& reply_to(RequestView::Unknown(word), s) == "ERR unknown command: "@ + word + "\n"@
        }),
{
}

/// The user is the first number of the line that gives them, and the usual one where no line does.
pub proof fn the_user_is_the_first_number(
    status: Seq<char>,
    before: Seq<Seq<char>>,
    n: nat,
    rest: Seq<char>,
    behind: Seq<Seq<char>>,
)
    requires
        forall|i: int| 0 <= i < before.len() ==> !"Uid:"@.is_prefix_of(#[trigger] before[i]),
        n <= u32::MAX,
    ensures
        text::lines_of(status) == before.push(
            "Uid:"@.push('\t') + (text::decimal(n).push('\t') + rest),
        ) + behind ==> uid_in(status) == n,
        text::lines_of(status) == before ==> uid_in(status) == 1000,
{
    reveal_strlit("Uid:");
    let digits = text::decimal(n);
    let line = "Uid:"@.push('\t') + (digits.push('\t') + rest);
    text::the_first_such_line_is_found(before, line, behind, "Uid:"@);
    assert(line =~= "Uid:"@ + (seq!['\t'] + (digits.push('\t') + rest)));
    assert("Uid:"@.is_prefix_of(line));
    text::numbers_read_back(n, u32::MAX as nat, Seq::empty());
    assert forall|i: int| 0 <= i < digits.len() implies !text::is_white(#[trigger] digits[i]) by {
        assert('0' <= digits[i] && digits[i] <= '9');
        text::white_space_is_what_parts_words(digits[i]);
    }
    assert forall|i: int| 0 <= i < "Uid:"@.len() implies !text::is_white(#[trigger] "Uid:"@[i]) by {
        text::white_space_is_what_parts_words("Uid:"@[i]);
    }
    assert(digits.len() > 0) by {
        if digits.len() == 0 {
            assert(digits =~= Seq::<char>::empty());
            text::only_digits_make_numbers(digits, 0, '0', u32::MAX as nat);
        }
    }
    assert(text::is_white('\t'));
    text::white_space_parts_words("Uid:"@, '\t', digits.push('\t') + rest);
    text::white_space_parts_words(digits, '\t', rest);
    let ws = text::words_of(line);
    assert(ws =~= seq!["Uid:"@] + (seq![digits] + text::words_of(rest)));
    assert(ws[1] == digits);
}

/// The daemon's files lie in the runtime directory; without one they are told apart by the user. The
/// socket is never the file with the process number.
pub proof fn files_are_told_apart(
    dir: Seq<char>,
    runtime: Option<Seq<char>>,
    a: Option<Seq<char>>,
    b: Seq<char>,
    c: Seq<char>,
    ext: Seq<char>,
)
    ensures
        dir.is_prefix_of(runtime_file(Some(dir), a, ext)),
        ("xai-dict"@ + ext).is_suffix_of(runtime_file(Some(dir), a, ext)),
        runtime_file(runtime, a, ".sock"@) != runtime_file(runtime, a, ".pid"@),
        uid_in(b) != uid_in(c) ==> runtime_file(None, Some(b), ext) != runtime_file(None, Some(c), ext),
        uid_in(b) == 1000 ==> runtime_file(None, None, ext) == runtime_file(None, Some(b), ext),
{
    reveal_strlit(".sock");
    reveal_strlit(".pid");
    text::paths_are_joined(dir, "xai-dict"@ + ext);
    let (sock, pid) = (runtime_file(runtime, a, ".sock"@), runtime_file(runtime, a, ".pid"@));
    match runtime {
        Some(d) => {
            text::paths_are_joined(d, "xai-dict"@ + ".sock"@);
            text::paths_are_joined(d, "xai-dict"@ + ".pid"@);
        },
        None => {},
    }
    assert(sock.last() == 'k');
    assert(pid.last() == 'd');
    let (n, m) = (uid_in(b), uid_in(c));
    let (x, y) = (runtime_file(None, Some(b), ext), runtime_file(None, Some(c), ext));
    if n != m && x == y {
        let k = "/tmp/xai-dict-"@.len() as int;
        let (p, q) = (text::decimal(n), text::decimal(m));
        assert(x.len() == k + p.len() + ext.len());
        assert(y.len() == k + q.len() + ext.len());
        assert(x.subrange(k, k + p.len()) =~= p);
        assert(y.subrange(k, k + q.len()) =~= q);
        let max = n + m;
        text::numbers_read_back(n, max, Seq::empty());
        text::numbers_read_back(m, max, Seq::empty());
    }
}

/// What is said of the hotkey names it, after the word for holding or for pressing it; the hint on
/// streaming only comes behind that.
pub proof fn usage_names_the_key(key: Key, ptt: bool)
    ensures
        ("按住 "@ + hotkey::label_of(key)).is_prefix_of(usage_of(key, true, false)),
        ("按 "@ + hotkey::label_of(key)).is_prefix_of(usage_of(key, false, false)),
        usage_of(key, ptt, true) == usage_of(key, ptt, false) + " · 流式上屏"@,
{
    reveal_strlit("");
    assert(""@ =~= Seq::<char>::empty());
    assert(usage_of(key, ptt, false) + " · 流式上屏"@ =~= usage_of(key, ptt, true));
}

/// A daemon starts idle, with nothing recorded and nothing waited for.
pub proof fn daemons_start_idle(ptt: bool, session: u64)
    ensures
        ({
            let d = Daemon::idle(ptt);
            &&& d.wf() && d.ptt == ptt
            &&& d.state == State::Idle && !d.recording && !d.armed
            &&& d.asr_session == 0 && d.active_asr_session == 0
            &&& !d.awaits(session)
        }),
{
}

/// Where the line that gives the user holds no number, the user is the usual one.
pub proof fn unreadable_users_are_the_usual_one(status: Seq<char>, line: Seq<char>)
    requires
        text::line_with(text::lines_of(status), "Uid:"@) == Some(line),
    ensures
        text::words_of(line).len() < 2 ==> uid_in(status) == 1000,
        text::words_of(line).len() >= 2 && text::unsigned_value(text::words_of(line)[1], u32::MAX as nat)
            is None ==> uid_in(status) == 1000,
{
}

} // verus!
