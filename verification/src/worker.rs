//! What the recognisers that run as processes of their own have in common: where their programs
//! are, whether one is still running, and how it says that it is ready.

use crate::text;
use vstd::prelude::*;

verus! {

/// What is known of the process.
#[derive(Debug, Clone, Copy, PartialEq, Eq, Structural)]
pub enum Health {
    /// There is none.
    Absent,
    Running,
    Exited,
    /// It could not be asked.
    Unknown,
}

/// What keeps a recogniser at hand.
#[derive(Debug, Clone, Copy, PartialEq, Eq, Structural)]
pub enum Warm {
    /// It is.
    Keep,
    /// Forget the old process, if there is one, and start a new one.
    Spawn,
}

/// What keeps a recogniser at hand: a process that runs is kept, and nothing else is.
pub fn warm_up(health: Health) -> (r: Warm)
    ensures
        r == Warm::Keep <==> health == Health::Running,
{
    match health {
        Health::Running => Warm::Keep,
        _ => Warm::Spawn,
    }
}

/// What happened while a process was to become ready.
#[derive(Debug, Clone)]
pub enum Waiting {
    /// Its time is up.
    Late,
    /// It has ended.
    Exited,
    /// It has closed its output.
    Eof,
    /// It wrote a line.
    Line(String),
}

/// Why a process did not become ready.
#[derive(Debug, Clone)]
pub enum WaitError {
    Late,
    Exited,
    Eof,
    /// It said why.
    Worker(String),
}

/// Whether a process has become ready.
#[derive(Debug, Clone)]
pub enum Wait {
    /// Not yet.
    More,
    Ready,
    Failed(WaitError),
}

/// What a [`Wait`] holds.
pub enum WaitView {
    More,
    Ready,
    Late,
    Exited,
    Eof,
    Worker(Seq<char>),
}

impl View for Wait {
    type V = WaitView;

    open spec fn view(&self) -> WaitView {
        match *self {
            Wait::More => WaitView::More,
            Wait::Ready => WaitView::Ready,
            Wait::Failed(WaitError::Late) => WaitView::Late,
            Wait::Failed(WaitError::Exited) => WaitView::Exited,
            Wait::Failed(WaitError::Eof) => WaitView::Eof,
            Wait::Failed(WaitError::Worker(t)) => WaitView::Worker(t@),
        }
    }
}

/// What follows on what happened: `READY` ends the wait, a line that starts with `ERR ` is a
/// failure, and any other line is passed over.
pub open spec fn waited(ev: Waiting) -> WaitView {
    match ev {
        Waiting::Late => WaitView::Late,
        Waiting::Exited => WaitView::Exited,
        Waiting::Eof => WaitView::Eof,
        Waiting::Line(t) => if t@ == "READY"@ {
            WaitView::Ready
        } else if "ERR "@.is_prefix_of(t@) {
            WaitView::Worker(t@.skip("ERR "@.len() as int))
        } else {
            WaitView::More
        },
    }
}

/// Decides whether a process has become ready.
pub fn wait_ready(ev: Waiting) -> (r: Wait)
    ensures
        r@ == waited(ev),
{
    match ev {
        Waiting::Late => Wait::Failed(WaitError::Late),
        Waiting::Exited => Wait::Failed(WaitError::Exited),
        Waiting::Eof => Wait::Failed(WaitError::Eof),
        Waiting::Line(t) => {
            let t = t.as_str();
            if text::same(t, "READY") {
                return Wait::Ready;
            }
            match text::strip_prefix(t, "ERR ") {
                Some(e) => Wait::Failed(WaitError::Worker(e.to_string())),
                None => Wait::More,
            }
        },
    }
}

/// A reply that is no result.
#[derive(Debug, Clone)]
pub enum ReplyError {
    /// The process reported an error.
    Worker(String),
    /// The process replied with something else.
    Bad(String),
}

/// What a [`ReplyError`] holds.
pub enum ReplyErrorView {
    Worker(Seq<char>),
    Bad(Seq<char>),
}

impl View for ReplyError {
    type V = ReplyErrorView;

    open spec fn view(&self) -> ReplyErrorView {
        match *self {
            ReplyError::Worker(t) => ReplyErrorView::Worker(t@),
            ReplyError::Bad(t) => ReplyErrorView::Bad(t@),
        }
    }
}

/// What is wrong with a reply that is no result.
pub open spec fn reply_fault(line: Seq<char>) -> ReplyErrorView {
    if "ERR "@.is_prefix_of(line) {
        ReplyErrorView::Worker(line.skip("ERR "@.len() as int))
    } else {
        ReplyErrorView::Bad(line)
    }
}

/// Says what is wrong with a reply that is no result.
pub(crate) fn bad_reply(line: &str) -> (r: ReplyError)
    ensures
        r@ == reply_fault(line@),
{
    match text::strip_prefix(line, "ERR ") {
        Some(e) => ReplyError::Worker(e.to_string()),
        None => ReplyError::Bad(line.to_string()),
    }
}

/// A line without its end.
pub open spec fn line_body(line: Seq<char>) -> Seq<char> {
    text::without_end(line, '\r', '\n')
}

/// Removes the end of a line.
pub fn line_text(line: &str) -> (r: &str)
    ensures
        r@ == line_body(line@),
{
    text::trim_end_of(line, '\r', '\n')
}

/// Where to look for the program `name`, in this order: where it was built, beside the running
/// program, in the user's data, and among cargo's programs.
pub open spec fn places(
    name: Seq<char>,
    built: Option<Seq<char>>,
    exe_dir: Option<Seq<char>>,
    data: Option<Seq<char>>,
    home: Option<Seq<char>>,
) -> Seq<Seq<char>> {
    text::one(built) + text::in_dir(exe_dir, name) + text::in_dir(data, "xai-dict/bin/"@ + name)
        + text::in_dir(home, ".cargo/bin/"@ + name)
}

/// Lists where to look for a program, apart from the search path, which comes last.
pub fn find_worker_bin(
    name: &str,
    built: Option<&str>,
    exe_dir: Option<&str>,
    data: Option<&str>,
    home: Option<&str>,
) -> (r: Vec<String>)
    ensures
        text::texts(r@) == places(
            name@,
            text::opt_str(built),
            text::opt_str(exe_dir),
            text::opt_str(data),
            text::opt_str(home),
        ),
{
    let mut out: Vec<String> = Vec::new();
    match built {
        Some(p) => out.push(p.to_string()),
        None => {},
    }
    match exe_dir {
        Some(d) => out.push(text::join_path(d, name)),
        None => {},
    }
    match data {
        Some(d) => {
            let rel = text::cat("xai-dict/bin/", name);
            out.push(text::join_path(d, rel.as_str()));
        },
        None => {},
    }
    match home {
        Some(d) => {
            let rel = text::cat(".cargo/bin/", name);
            out.push(text::join_path(d, rel.as_str()));
        },
        None => {},
    }
    assert(text::texts(out@) =~= places(
        name@,
        text::opt_str(built),
        text::opt_str(exe_dir),
        text::opt_str(data),
        text::opt_str(home),
    ));
    out
}

/// Removing the end of a line takes exactly the carriage returns and line feeds behind it: a text that
/// does not end with one is read back from the line that carries it, however the line ends.
pub proof fn lines_carry_their_text(t: Seq<char>, end: Seq<char>)
    requires
        t.len() == 0 || (t.last() != '\r' && t.last() != '\n'),
        forall|i: int| 0 <= i < end.len() ==> #[trigger] end[i] == '\r' || end[i] == '\n',
    ensures
        line_body(t + end) == t,
    decreases end.len(),
{
    let all = t + end;
    if end.len() > 0 {
        let less = end.drop_last();
        assert(all.last() == end[end.len() - 1]);
        assert(all.drop_last() =~= t + less);
        assert forall|i: int| 0 <= i < less.len() implies #[trigger] less[i] == '\r' || less[i]
            == '\n' by {
            assert(less[i] == end[i]);
        }
        lines_carry_their_text(t, less);
    } else {
        assert(all =~= t);
    }
}

/// A process that waits for its time or has ended has failed; one that wrote a line has become ready
/// exactly with `READY`, has failed for the reason that follows `ERR `, and goes on after any other
/// line.
pub proof fn lines_tell_when_a_process_is_ready(ev: Waiting, reason: Seq<char>)
    ensures
        ev is Late ==> waited(ev) is Late,
        ev is Exited ==> waited(ev) is Exited,
        ev is Eof ==> waited(ev) is Eof,
        ev matches Waiting::Line(t) ==> (waited(ev) is Ready <==> t@ == "READY"@),
        ev matches Waiting::Line(t) ==> t@ == "ERR "@ + reason ==> waited(ev) == WaitView::Worker(
            reason,
        ),
        ev matches Waiting::Line(t) ==> t@ != "READY"@ && !"ERR "@.is_prefix_of(t@) ==> waited(
            ev,
        ) is More,
{
    reveal_strlit("READY");
    reveal_strlit("ERR ");
    assert("READY"@[0] != "ERR "@[0]);
    let line = "ERR "@ + reason;
    assert(line[0] == 'E');
    assert(line.take(4) =~= "ERR "@);
    assert(line.skip(4) =~= reason);
    if let Waiting::Line(t) = ev {
        if t@ == "READY"@ && "ERR "@.is_prefix_of(t@) {
            assert(t@[0] == "ERR "@[0]);
        }
    }
}

/// What a process reports as an error is told apart from what it should not have said: the first
/// follows `ERR `, the second is the whole line.
pub proof fn faults_are_told_apart(t: Seq<char>)
    ensures
        reply_fault("ERR "@ + t) == ReplyErrorView::Worker(t),
        !"ERR "@.is_prefix_of(t) ==> reply_fault(t) == ReplyErrorView::Bad(t),
{
    reveal_strlit("ERR ");
    let line = "ERR "@ + t;
    assert(line.take(4) =~= "ERR "@);
    assert(line.skip(4) =~= t);
}

/// Programs are looked for where they were built, beside the running one, in the user's data and among
/// cargo's, in this order; what is not known is left out, and nothing else is asked.
pub proof fn programs_are_looked_for_in_order(
    name: Seq<char>,
    built: Option<Seq<char>>,
    exe_dir: Option<Seq<char>>,
    data: Option<Seq<char>>,
    home: Option<Seq<char>>,
)
    ensures
        ({
            let all = places(name, built, exe_dir, data, home);
            let count = |o: Option<Seq<char>>|
                if o is Some {
                    1int
                } else {
                    0int
                };
            let (a, b, c) = (count(built), count(exe_dir), count(data));
            &&& all.len() == a + b + c + count(home)
            &&& built matches Some(p) ==> all[0] == p
            &&& exe_dir matches Some(d) ==> all[a] == text::below(d, name)
            &&& data matches Some(d) ==> all[a + b] == text::below(d, "xai-dict/bin/"@ + name)
            &&& home matches Some(d) ==> all[a + b + c] == text::below(d, ".cargo/bin/"@ + name)
        }),
{
}

} // verus!
