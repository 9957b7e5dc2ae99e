//! Putting text into the focused field: first through the input method, then by way of the
//! clipboard and a paste key.

use crate::command::{self, CommandLine, Line};
use crate::osd::{self, Buses};
use crate::text;
use vstd::prelude::*;

verus! {

/// The code of the left Control key.
pub const LEFTCTRL: u16 = 29;

/// The code of the left Shift key.
pub const LEFTSHIFT: u16 = 42;

/// The code of the V key.
pub const V: u16 = 47;

/// The code of the right Shift key.
pub const RIGHTSHIFT: u16 = 54;

/// The code of the left Alt key.
pub const LEFTALT: u16 = 56;

/// The code of the right Control key.
pub const RIGHTCTRL: u16 = 97;

/// The code of the right Alt key.
pub const RIGHTALT: u16 = 100;

/// The code of the Insert key.
pub const INSERT: u16 = 110;

/// The code of the left Meta key.
pub const LEFTMETA: u16 = 125;

/// The code of the right Meta key.
pub const RIGHTMETA: u16 = 126;

/// The call of a method of the input method's module.
pub open spec fn fcitx_call(method: Seq<char>, extra: Seq<Seq<char>>) -> Line {
    command::bus_call(
        "org.fcitx.Fcitx5"@,
        "/xaidict"@,
        "org.fcitx.Fcitx.XaiDict1"@,
        method,
        extra,
    )
}

fn call_fcitx(method: &str, extra: &[&str]) -> (r: CommandLine)
    ensures
        r@ == fcitx_call(method@, text::strs(extra@)),
{
    command::call_on_bus(
        "org.fcitx.Fcitx5",
        "/xaidict",
        "org.fcitx.Fcitx.XaiDict1",
        method,
        extra,
    )
}

/// The call that shows provisional text.
pub fn set_preedit(txt: &str) -> (r: CommandLine)
    ensures
        r@ == fcitx_call("Preedit"@, seq!["s"@, txt@]),
{
    let extra: [&str; 2] = ["s", txt];
    assert(text::strs(extra@) =~= seq!["s"@, txt@]);
    call_fcitx("Preedit", &extra)
}

/// The call that takes provisional text away.
pub fn clear_preedit() -> (r: CommandLine)
    ensures
        r@ == fcitx_call("ClearPreedit"@, seq![]),
{
    let extra: [&str; 0] = [];
    assert(text::strs(extra@) =~= seq![]);
    call_fcitx("ClearPreedit", &extra)
}

/// The call that puts text into the focused field.
pub fn fcitx5_commit(txt: &str) -> (r: CommandLine)
    ensures
        r@ == fcitx_call("Commit"@, seq!["s"@, txt@]),
{
    let extra: [&str; 2] = ["s", txt];
    assert(text::strs(extra@) =~= seq!["s"@, txt@]);
    call_fcitx("Commit", &extra)
}

/// Whether the input method took the text: the call succeeded and was answered with `true`.
pub fn fcitx5_committed(success: bool, printed: &str) -> (r: bool)
    ensures
        r == (success && text::has(printed@, "true"@)),
{
    success && text::contains(printed, "true")
}

/// What to do if the input method does not take the text.
#[derive(Debug, Clone, Copy, PartialEq, Eq, Structural)]
pub enum Fallback {
    /// Leave it.
    Leave,
    /// Deliver it as if it stood alone.
    Deliver,
    /// Paste it.
    Paste,
}

/// How text is offered to the input method.
#[derive(Debug, Clone, Copy, PartialEq, Eq, Structural)]
pub struct CommitPlan {
    /// Whether the status display is taken down first.
    pub take_down: bool,
    /// How long to wait first, in milliseconds.
    pub wait_ms: u64,
    /// Whether the modifier keys are released first.
    pub release: bool,
    /// How often it is offered.
    pub tries: u32,
    /// How long to wait after a try that failed, in milliseconds.
    pub gap_ms: u64,
    /// Whether to wait after the last one too.
    pub gap_after_last: bool,
    pub fallback: Fallback,
}

/// What is done with a text.
#[derive(Debug, Clone, Copy, PartialEq, Eq, Structural)]
pub enum Route {
    /// There is none: provisional text is taken away.
    Clear,
    /// It is not put on screen.
    Keep,
    Commit(CommitPlan),
}

/// The plan for a phrase that replaces provisional text.
pub open spec fn final_route(txt: Seq<char>, paste: bool) -> Route {
    if txt.len() == 0 {
        Route::Clear
    } else if !paste {
        Route::Keep
    } else {
        Route::Commit(
            CommitPlan {
                take_down: false,
                wait_ms: 0,
                release: false,
                tries: 3,
                gap_ms: 50,
                gap_after_last: true,
                fallback: Fallback::Deliver,
            },
        )
    }
}

/// Plans what is done with a phrase that replaces provisional text.
pub fn commit_final(txt: &str, paste: bool) -> (r: Route)
    ensures
        r == final_route(txt@, paste),
{
    if txt.unicode_len() == 0 {
        return Route::Clear;
    }
    if !paste {
        return Route::Keep;
    }
    Route::Commit(
        CommitPlan {
            take_down: false,
            wait_ms: 0,
            release: false,
            tries: 3,
            gap_ms: 50,
            gap_after_last: true,
            fallback: Fallback::Deliver,
        },
    )
}

/// The plan for a phrase; `first` says that it is the first of its dictation.
pub open spec fn chunk_route(txt: Seq<char>, paste: bool, first: bool) -> Route {
    if txt.len() == 0 || !paste {
        Route::Keep
    } else {
        Route::Commit(
            CommitPlan {
                take_down: false,
                wait_ms: if first {
                    120
                } else {
                    0
                },
                release: first,
                tries: 3,
                gap_ms: 60,
                gap_after_last: true,
                fallback: if first {
                    Fallback::Deliver
                } else {
                    Fallback::Leave
                },
            },
        )
    }
}

/// Plans what is done with a phrase. Only the first of a dictation may take the way over the
/// clipboard, and only before the first are the modifier keys released.
pub fn deliver_stream_chunk(txt: &str, paste: bool, first: bool) -> (r: Route)
    ensures
        r == chunk_route(txt@, paste, first),
{
    if txt.unicode_len() == 0 || !paste {
        return Route::Keep;
    }
    Route::Commit(
        CommitPlan {
            take_down: false,
            wait_ms: if first {
                120
            } else {
                0
            },
            release: first,
            tries: 3,
            gap_ms: 60,
            gap_after_last: true,
            fallback: if first {
                Fallback::Deliver
            } else {
                Fallback::Leave
            },
        },
    )
}

/// There is no text to deliver.
#[derive(Debug, Clone, Copy, PartialEq, Eq, Structural)]
pub struct EmptyTranscript;

/// The plan for a text that stands alone.
pub open spec fn quiet_route(paste: bool) -> Route {
    if !paste {
        Route::Keep
    } else {
        Route::Commit(
            CommitPlan {
                take_down: true,
                wait_ms: 280,
                release: true,
                tries: 5,
                gap_ms: 120,
                gap_after_last: false,
                fallback: Fallback::Paste,
            },
        )
    }
}

/// Plans what is done with a text that stands alone. An empty one is refused.
pub fn deliver_text_quiet(txt: &str, paste: bool) -> (r: Result<Route, EmptyTranscript>)
    ensures
        if txt@.len() == 0 {
            r == Err::<Route, EmptyTranscript>(EmptyTranscript)
        } else {
            r == Ok::<Route, EmptyTranscript>(quiet_route(paste))
        },
{
    if txt.unicode_len() == 0 {
        return Err(EmptyTranscript);
    }
    if !paste {
        return Ok(Route::Keep);
    }
    Ok(
        Route::Commit(
            CommitPlan {
                take_down: true,
                wait_ms: 280,
                release: true,
                tries: 5,
                gap_ms: 120,
                gap_after_last: false,
                fallback: Fallback::Paste,
            },
        ),
    )
}

/// What is printed before a text that stands alone is delivered.
pub fn deliver_text(txt: &str) -> (r: Result<String, EmptyTranscript>)
    ensures
        if txt@.len() == 0 {
            r == Err::<String, EmptyTranscript>(EmptyTranscript)
        } else {
            r matches Ok(t) && t@ == "\n——— transcript ———\n"@ + txt@ + "\n—————————————————"@
        },
{
    if txt.unicode_len() == 0 {
        return Err(EmptyTranscript);
    }
    let mut out = text::cat("\n——— transcript ———\n", txt);
    out.append("\n—————————————————");
    Ok(out)
}

/// What follows on a try.
#[derive(Debug, Clone, Copy, PartialEq, Eq, Structural)]
pub enum Tried {
    /// The text is on screen.
    Done,
    /// Wait this many milliseconds and try again.
    Again { wait_ms: u64 },
    /// Wait this many milliseconds and take the other way.
    GiveUp { wait_ms: u64 },
}

/// What follows on try number `attempt`, counted from 1.
pub open spec fn after_try(plan: CommitPlan, attempt: u32, ok: bool) -> Tried {
    if ok {
        Tried::Done
    } else if attempt < plan.tries {
        Tried::Again { wait_ms: plan.gap_ms }
    } else {
        Tried::GiveUp {
            wait_ms: if plan.gap_after_last {
                plan.gap_ms
            } else {
                0
            },
        }
    }
}

impl CommitPlan {
    /// What follows on try number `attempt`, counted from 1.
    pub fn tried(&self, attempt: u32, ok: bool) -> (r: Tried)
        ensures
            r == after_try(*self, attempt, ok),
    {
        if ok {
            Tried::Done
        } else if attempt < self.tries {
            Tried::Again { wait_ms: self.gap_ms }
        } else {
            Tried::GiveUp {
                wait_ms: if self.gap_after_last {
                    self.gap_ms
                } else {
                    0
                },
            }
        }
    }
}

/// How many tries are made if the first that succeeds is number `lucky`, or none does.
pub open spec fn tries_made(plan: CommitPlan, attempt: u32, lucky: Option<u32>) -> nat
    decreases plan.tries - attempt,
{
    match after_try(plan, attempt, lucky == Some(attempt)) {
        Tried::Again { .. } => if attempt < u32::MAX {
            1 + tries_made(plan, (attempt + 1) as u32, lucky)
        } else {
            1
        },
        _ => 1,
    }
}

proof fn lemma_tries_made(plan: CommitPlan, attempt: u32)
    requires
        1 <= attempt <= plan.tries,
    ensures
        tries_made(plan, attempt, None) == plan.tries - attempt + 1,
    decreases plan.tries - attempt,
{
    if attempt < plan.tries {
        lemma_tries_made(plan, (attempt + 1) as u32);
    }
}

/// A text that the input method never takes is offered exactly as often as planned, and then goes
/// the other way: a phrase three times, a text that stands alone five times.
pub proof fn tries_are_bounded(txt: Seq<char>, first: bool)
    requires
        txt.len() > 0,
    ensures
        final_route(txt, true) matches Route::Commit(p) && tries_made(p, 1, None) == 3,
        chunk_route(txt, true, first) matches Route::Commit(p) && tries_made(p, 1, None) == 3,
        quiet_route(true) matches Route::Commit(p) && tries_made(p, 1, None) == 5,
{
    lemma_tries_made(final_route(txt, true)->Commit_0, 1);
    lemma_tries_made(chunk_route(txt, true, first)->Commit_0, 1);
    lemma_tries_made(quiet_route(true)->Commit_0, 1);
}

/// A step on a text's way to the screen.
#[derive(Debug, Clone, Copy, PartialEq, Eq, Structural)]
pub enum Step {
    /// Wait this many milliseconds and offer the text to the input method, for the `attempt`th
    /// time.
    Offer { attempt: u32, wait_ms: u64 },
    /// Wait this many milliseconds and put the text on the clipboard.
    SetClipboard { wait_ms: u64 },
    /// Press the paste keys in this way.
    Press(PasteMethod),
    /// It is over: the input method took the text.
    Committed,
    /// It is over: the text was pasted in this way.
    Pasted(PasteMethod),
    /// It is over: the paste keys could not be pressed, and the text is on the clipboard.
    OnClipboard,
    /// It has failed: the text could not be put on the clipboard.
    NoClipboard,
    /// Wait this many milliseconds and deliver the text as if it stood alone.
    Alone { wait_ms: u64 },
    /// Wait this many milliseconds; then it is over, and the text is not on screen.
    Left { wait_ms: u64 },
}

/// The way to press the paste keys that is tried after `m`.
pub open spec fn method_after(m: PasteMethod) -> Option<PasteMethod> {
    match m {
        PasteMethod::Uinput => Some(PasteMethod::Keyd),
        PasteMethod::Keyd => Some(PasteMethod::Ydotool),
        PasteMethod::Ydotool => Some(PasteMethod::Xdotool),
        PasteMethod::Xdotool => Some(PasteMethod::Wtype),
        PasteMethod::Wtype => None,
    }
}

/// The step after `step`, which succeeded or not. The paste keys are only pressed once the text is
/// on the clipboard, and without a clipboard the delivery fails.
pub open spec fn step_after(plan: CommitPlan, step: Step, ok: bool) -> Step {
    match step {
        Step::Offer { attempt, .. } => match after_try(plan, attempt, ok) {
            Tried::Done => Step::Committed,
            Tried::Again { wait_ms } => Step::Offer { attempt: (attempt + 1) as u32, wait_ms },
            Tried::GiveUp { wait_ms } => match plan.fallback {
                Fallback::Leave => Step::Left { wait_ms },
                Fallback::Deliver => Step::Alone { wait_ms },
                Fallback::Paste => Step::SetClipboard { wait_ms },
            },
        },
        Step::SetClipboard { .. } => if ok {
            Step::Press(PasteMethod::Uinput)
        } else {
            Step::NoClipboard
        },
        Step::Press(m) => if ok {
            Step::Pasted(m)
        } else {
            match method_after(m) {
                Some(n) => Step::Press(n),
                None => Step::OnClipboard,
            }
        },
        _ => step,
    }
}

/// The step that a delivery begins with, once its plan's first wait is over.
pub open spec fn first_step() -> Step {
    Step::Offer { attempt: 1, wait_ms: 0 }
}

impl CommitPlan {
    /// The step that a delivery begins with, once the plan's first wait is over.
    pub fn begin(&self) -> (r: Step)
        ensures
            r == first_step(),
    {
        Step::Offer { attempt: 1, wait_ms: 0 }
    }

    /// The step after `step`, which succeeded or not.
    pub fn next(&self, step: Step, ok: bool) -> (r: Step)
        ensures
            r == step_after(*self, step, ok),
    {
        match step {
            Step::Offer { attempt, .. } => match self.tried(attempt, ok) {
                Tried::Done => Step::Committed,
                Tried::Again { wait_ms } => Step::Offer { attempt: attempt + 1, wait_ms },
                Tried::GiveUp { wait_ms } => match self.fallback {
                    Fallback::Leave => Step::Left { wait_ms },
                    Fallback::Deliver => Step::Alone { wait_ms },
                    Fallback::Paste => Step::SetClipboard { wait_ms },
                },
            },
            Step::SetClipboard { .. } => if ok {
                Step::Press(PasteMethod::Uinput)
            } else {
                Step::NoClipboard
            },
            Step::Press(m) => if ok {
                Step::Pasted(m)
            } else {
                match m {
                    PasteMethod::Uinput => Step::Press(PasteMethod::Keyd),
                    PasteMethod::Keyd => Step::Press(PasteMethod::Ydotool),
                    PasteMethod::Ydotool => Step::Press(PasteMethod::Xdotool),
                    PasteMethod::Xdotool => Step::Press(PasteMethod::Wtype),
                    PasteMethod::Wtype => Step::OnClipboard,
                }
            },
            Step::Committed
            | Step::Pasted(_)
            | Step::OnClipboard
            | Step::NoClipboard
            | Step::Alone { .. }
            | Step::Left { .. } => step,
        }
    }
}

/// What would come of each step of a delivery.
pub struct Outcomes {
    /// Whether the input method takes the text, by the number of the try.
    pub takes: spec_fn(u32) -> bool,
    /// Whether the text can be put on the clipboard.
    pub clipboard: bool,
    /// Whether the paste keys can be pressed in a way.
    pub presses: spec_fn(PasteMethod) -> bool,
}

/// What comes of a step.
pub open spec fn outcome(w: Outcomes, step: Step) -> bool {
    match step {
        Step::Offer { attempt, .. } => (w.takes)(attempt),
        Step::SetClipboard { .. } => w.clipboard,
        Step::Press(m) => (w.presses)(m),
        _ => true,
    }
}

/// Whether something is still to be done.
pub open spec fn goes_on(step: Step) -> bool {
    step is Offer || step is SetClipboard || step is Press
}

/// How many steps can follow at most.
pub open spec fn steps_left(plan: CommitPlan, step: Step) -> nat {
    match step {
        Step::Offer { attempt, .. } => if attempt < plan.tries {
            (7 + plan.tries - attempt) as nat
        } else {
            7
        },
        Step::SetClipboard { .. } => 6,
        Step::Press(PasteMethod::Uinput) => 5,
        Step::Press(PasteMethod::Keyd) => 4,
        Step::Press(PasteMethod::Ydotool) => 3,
        Step::Press(PasteMethod::Xdotool) => 2,
        Step::Press(PasteMethod::Wtype) => 1,
        _ => 0,
    }
}

/// The steps from `step` to the end.
pub open spec fn steps_from(plan: CommitPlan, step: Step, w: Outcomes) -> Seq<Step>
    decreases steps_left(plan, step),
{
    if goes_on(step) {
        seq![step] + steps_from(plan, step_after(plan, step, outcome(w, step)), w)
    } else {
        seq![step]
    }
}

/// Whether the input method takes the text at try `attempt` or a later one.
pub open spec fn is_taken(plan: CommitPlan, attempt: u32, w: Outcomes) -> bool {
    exists|k: u32| attempt <= k <= plan.tries && #[trigger] (w.takes)(k)
}

/// Whether the paste keys can be pressed in some way.
pub open spec fn can_press(w: Outcomes) -> bool {
    exists|m: PasteMethod| #[trigger] (w.presses)(m)
}

/// The steps once the text is on the clipboard: the paste keys are pressed until one way works.
pub open spec fn pressing(steps: Seq<Step>) -> bool {
    &&& steps.len() >= 2
    &&& forall|i: int| 0 <= i < steps.len() - 1 ==> (#[trigger] steps[i]) is Press
    &&& steps.last() is Pasted || steps.last() is OnClipboard
}

proof fn lemma_pressing(plan: CommitPlan, m: PasteMethod, w: Outcomes)
    ensures
        pressing(steps_from(plan, Step::Press(m), w)),
        (w.presses)(m) ==> steps_from(plan, Step::Press(m), w).last() is Pasted,
        !can_press(w) ==> steps_from(plan, Step::Press(m), w).last() is OnClipboard,
    decreases steps_left(plan, Step::Press(m)),
{
    let next = step_after(plan, Step::Press(m), (w.presses)(m));
    let rest = steps_from(plan, next, w);
    let steps = steps_from(plan, Step::Press(m), w);
    assert(steps == seq![Step::Press(m)] + rest);
    if let Step::Press(n) = next {
        lemma_pressing(plan, n, w);
        assert forall|i: int| 0 <= i < steps.len() - 1 implies (#[trigger] steps[i]) is Press by {
            if i > 0 {
                assert(steps[i] == rest[i - 1]);
            }
        }
    } else {
        assert(rest == seq![next]);
    }
    assert(steps.last() == rest.last());
}

proof fn lemma_some_way_works(plan: CommitPlan, w: Outcomes)
    requires
        can_press(w),
    ensures
        steps_from(plan, Step::Press(PasteMethod::Uinput), w).last() is Pasted,
{
    let u = PasteMethod::Uinput;
    let k = PasteMethod::Keyd;
    let y = PasteMethod::Ydotool;
    let x = PasteMethod::Xdotool;
    let t = PasteMethod::Wtype;
    lemma_pressing(plan, u, w);
    lemma_pressing(plan, k, w);
    lemma_pressing(plan, y, w);
    lemma_pressing(plan, x, w);
    lemma_pressing(plan, t, w);
    let m = choose|m: PasteMethod| #[trigger] (w.presses)(m);
    assert(m == u || m == k || m == y || m == x || m == t);
    assert(!(w.presses)(x) ==> steps_from(plan, Step::Press(x), w) == seq![Step::Press(x)]
        + steps_from(plan, Step::Press(t), w));
    assert(!(w.presses)(y) ==> steps_from(plan, Step::Press(y), w) == seq![Step::Press(y)]
        + steps_from(plan, Step::Press(x), w));
    assert(!(w.presses)(k) ==> steps_from(plan, Step::Press(k), w) == seq![Step::Press(k)]
        + steps_from(plan, Step::Press(y), w));
    assert(!(w.presses)(u) ==> steps_from(plan, Step::Press(u), w) == seq![Step::Press(u)]
        + steps_from(plan, Step::Press(k), w));
}

proof fn lemma_offers(plan: CommitPlan, attempt: u32, wait_ms: u64, w: Outcomes)
    requires
        1 <= attempt <= plan.tries,
        plan.fallback == Fallback::Paste,
    ensures
        ({
            let steps = steps_from(plan, Step::Offer { attempt, wait_ms }, w);
            let n = plan.tries - attempt + 1;
            if is_taken(plan, attempt, w) {
                &&& steps.last() == Step::Committed
                &&& forall|i: int| 0 <= i < steps.len() - 1 ==> (#[trigger] steps[i]) is Offer
            } else {
                &&& steps.len() >= n + 2
                &&& forall|i: int| 0 <= i < n ==> (#[trigger] steps[i]) is Offer
                &&& steps[n] is SetClipboard
                &&& steps.skip(n + 1) == if w.clipboard {
                    steps_from(plan, Step::Press(PasteMethod::Uinput), w)
                } else {
                    seq![Step::NoClipboard]
                }
            }
        }),
    decreases plan.tries - attempt,
{
    let here = Step::Offer { attempt, wait_ms };
    let next = step_after(plan, here, (w.takes)(attempt));
    let steps = steps_from(plan, here, w);
    let rest = steps_from(plan, next, w);
    assert(steps == seq![here] + rest);
    if (w.takes)(attempt) {
        assert(is_taken(plan, attempt, w));
        assert(rest == seq![Step::Committed]);
    } else if attempt < plan.tries {
        let after = (attempt + 1) as u32;
        lemma_offers(plan, after, next->Offer_wait_ms, w);
        if is_taken(plan, attempt, w) {
            let k = choose|k: u32| attempt <= k <= plan.tries && #[trigger] (w.takes)(k);
            assert(after <= k);
        }
        assert forall|i: int| 0 < i < steps.len() implies #[trigger] steps[i] == rest[i - 1] by {}
        let n = plan.tries - attempt + 1;
        if !is_taken(plan, attempt, w) {
            assert(!is_taken(plan, after, w));
            assert(steps.skip(n + 1) =~= rest.skip(n));
        }
        assert(steps.last() == rest.last());
    } else {
        assert(!is_taken(plan, attempt, w));
        let last = step_after(plan, next, w.clipboard);
        let tail = steps_from(plan, last, w);
        assert(rest == seq![next] + tail);
        assert(steps.skip(2) =~= tail);
        if w.clipboard {
            lemma_pressing(plan, PasteMethod::Uinput, w);
        }
    }
}

/// How a text that stands alone is delivered. If the input method takes it at one of five tries, the
/// clipboard is not touched and no key is pressed. Otherwise it is put on the clipboard before any
/// paste key is pressed, and the delivery fails exactly if it cannot be put there; a paste key that
/// cannot be pressed leaves the text on the clipboard.
pub proof fn clipboard_comes_before_keys(w: Outcomes)
    ensures
        ({
            let plan = quiet_route(true)->Commit_0;
            let steps = steps_from(plan, first_step(), w);
            &&& is_taken(plan, 1, w) ==> {
                &&& steps.last() == Step::Committed
                &&& forall|i: int| 0 <= i < steps.len() - 1 ==> (#[trigger] steps[i]) is Offer
            }
            &&& forall|j: int|
                0 <= j < steps.len() && (#[trigger] steps[j]) is Press ==> !is_taken(plan, 1, w)
                    && w.clipboard && j > 5 && steps[5] is SetClipboard
            &&& steps.last() is NoClipboard <==> !is_taken(plan, 1, w) && !w.clipboard
            &&& steps.last() is OnClipboard <==> !is_taken(plan, 1, w) && w.clipboard && !can_press(w)
            &&& steps.last() is Pasted <==> !is_taken(plan, 1, w) && w.clipboard && can_press(w)
        }),
{
    let plan = quiet_route(true)->Commit_0;
    let steps = steps_from(plan, first_step(), w);
    lemma_offers(plan, 1, 0, w);
    if !is_taken(plan, 1, w) {
        let tail = steps.skip(6);
        assert(steps.last() == tail.last());
        assert forall|j: int| 0 <= j < steps.len() && (#[trigger] steps[j]) is Press implies
            w.clipboard && j > 5 by {
            if j > 5 {
                assert(steps[j] == tail[j - 6]);
            }
        }
        if w.clipboard {
            lemma_pressing(plan, PasteMethod::Uinput, w);
            if can_press(w) {
                lemma_some_way_works(plan, w);
            }
        }
    }
}

/// In the middle of a dictation the clipboard is left alone, and without permission to paste
/// nothing is put on screen at all.
pub proof fn clipboard_is_left_alone(txt: Seq<char>, first: bool)
    ensures
        chunk_route(txt, true, false) matches Route::Commit(p) ==> p.fallback == Fallback::Leave
            && !p.release,
        !(final_route(txt, false) is Commit),
        !(chunk_route(txt, false, first) is Commit),
        !(quiet_route(false) is Commit),
{
}

/// The calls that put text on Plasma's clipboard, in the order in which they are tried.
pub fn set_klipper(txt: &str, b: Buses) -> (r: Vec<CommandLine>)
    ensures
        command::lines(r@) == osd::calls_by_name(
            osd::bus_names(b),
            seq![
                "org.kde.klipper"@,
                "/klipper"@,
                "org.kde.klipper.klipper.setClipboardContents"@,
                txt@,
            ],
        ),
{
    let args: [&str; 4] = [
        "org.kde.klipper",
        "/klipper",
        "org.kde.klipper.klipper.setClipboardContents",
        txt,
    ];
    assert(text::strs(args@) =~= seq![
        "org.kde.klipper"@,
        "/klipper"@,
        "org.kde.klipper.klipper.setClipboardContents"@,
        txt@,
    ]);
    osd::with_each_bus(b, &args)
}

/// The calls that read Plasma's clipboard, in the order in which they are tried.
pub fn read_klipper(b: Buses) -> (r: Vec<CommandLine>)
    ensures
        command::lines(r@) == osd::calls_by_name(
            osd::bus_names(b),
            seq![
                "org.kde.klipper"@,
                "/klipper"@,
                "org.kde.klipper.klipper.getClipboardContents"@,
            ],
        ),
{
    let args: [&str; 3] = [
        "org.kde.klipper",
        "/klipper",
        "org.kde.klipper.klipper.getClipboardContents",
    ];
    assert(text::strs(args@) =~= seq![
        "org.kde.klipper"@,
        "/klipper"@,
        "org.kde.klipper.klipper.getClipboardContents"@,
    ]);
    osd::with_each_bus(b, &args)
}

/// What Plasma's clipboard holds, if it holds text: what was printed without the line ends.
pub fn klipper_text(printed: &str) -> (r: Option<String>)
    ensures
        text::opt_string(r) == if text::without_end(printed@, '\n', '\n').len() == 0 {
            None
        } else {
            Some(text::without_end(printed@, '\n', '\n'))
        },
{
    let t = text::trim_end_of(printed, '\n', '\n');
    if t.unicode_len() == 0 {
        None
    } else {
        Some(t.to_string())
    }
}

/// The program that puts its input on the clipboard, and ends.
pub open spec fn clipboard_line(wl_copy: bool, xclip: bool) -> Option<Line> {
    if wl_copy {
        Some(Line { program: "wl-copy"@, args: seq!["--type"@, "text/plain"@] })
    } else if xclip {
        Some(Line { program: "xclip"@, args: seq!["-selection"@, "clipboard"@] })
    } else {
        None
    }
}

/// The view of an optional command line.
pub open spec fn opt_line(c: Option<CommandLine>) -> Option<Line> {
    match c {
        Some(x) => Some(x@),
        None => None,
    }
}

/// The program that puts its input on the clipboard: the first of the two that is installed.
pub fn set_clipboard_quick(wl_copy: bool, xclip: bool) -> (r: Option<CommandLine>)
    ensures
        opt_line(r) == clipboard_line(wl_copy, xclip),
{
    if wl_copy {
        let args: [&str; 2] = ["--type", "text/plain"];
        assert(text::strs(args@) =~= seq!["--type"@, "text/plain"@]);
        Some(command::command("wl-copy", &args))
    } else if xclip {
        let args: [&str; 2] = ["-selection", "clipboard"];
        assert(text::strs(args@) =~= seq!["-selection"@, "clipboard"@]);
        Some(command::command("xclip", &args))
    } else {
        None
    }
}

/// The program that puts its input on the clipboard and stays.
pub fn set_clipboard_held() -> (r: CommandLine)
    ensures
        r@ == (Line {
            program: "wl-copy"@,
            args: seq!["--foreground"@, "--type"@, "text/plain"@],
        }),
{
    let args: [&str; 3] = ["--foreground", "--type", "text/plain"];
    assert(text::strs(args@) =~= seq!["--foreground"@, "--type"@, "text/plain"@]);
    command::command("wl-copy", &args)
}

/// The text that goes back on the clipboard: what was there before, as long as nobody has put
/// something else there in the meantime.
pub fn clipboard_restore(previous: Option<&str>, now: Option<&str>, current: &str) -> (r: Option<
    String,
>)
    ensures
        text::opt_string(r) == if text::opt_str(now) == Some(current@) {
            text::opt_str(previous)
        } else {
            None
        },
{
    let ours = match now {
        Some(t) => text::same(t, current),
        None => false,
    };
    match previous {
        Some(p) => if ours {
            Some(p.to_string())
        } else {
            None
        },
        None => None,
    }
}

/// A way to press the paste keys.
#[derive(Debug, Clone, Copy, PartialEq, Eq, Structural)]
pub enum PasteMethod {
    Uinput,
    Keyd,
    Ydotool,
    Xdotool,
    Wtype,
}

/// How a way to press the paste keys is called.
pub open spec fn method_label(m: PasteMethod) -> Seq<char> {
    match m {
        PasteMethod::Uinput => "uinput Ctrl+V"@,
        PasteMethod::Keyd => "keyd Ctrl+V"@,
        PasteMethod::Ydotool => "ydotool Ctrl+V"@,
        PasteMethod::Xdotool => "xdotool Ctrl+V"@,
        PasteMethod::Wtype => "wtype Ctrl+V"@,
    }
}

impl PasteMethod {
    /// How the way is called.
    pub fn label(self) -> (r: &'static str)
        ensures
            r@ == method_label(self),
    {
        match self {
            PasteMethod::Uinput => "uinput Ctrl+V",
            PasteMethod::Keyd => "keyd Ctrl+V",
            PasteMethod::Ydotool => "ydotool Ctrl+V",
            PasteMethod::Xdotool => "xdotool Ctrl+V",
            PasteMethod::Wtype => "wtype Ctrl+V",
        }
    }
}

/// The ways to press the paste keys, in the order in which they are tried.
pub fn try_paste_any() -> (r: Vec<PasteMethod>)
    ensures
        r@ == seq![
            PasteMethod::Uinput,
            PasteMethod::Keyd,
            PasteMethod::Ydotool,
            PasteMethod::Xdotool,
            PasteMethod::Wtype,
        ],
{
    vec![
        PasteMethod::Uinput,
        PasteMethod::Keyd,
        PasteMethod::Ydotool,
        PasteMethod::Xdotool,
        PasteMethod::Wtype,
    ]
}

/// A key event: the key, and 1 for down or 0 for up.
pub type KeyEvent = (u16, i32);

/// The releases of all modifier keys.
pub open spec fn releases() -> Seq<KeyEvent> {
    seq![
        (RIGHTALT, 0i32),
        (LEFTALT, 0i32),
        (LEFTCTRL, 0i32),
        (RIGHTCTRL, 0i32),
        (LEFTSHIFT, 0i32),
        (RIGHTSHIFT, 0i32),
        (LEFTMETA, 0i32),
        (RIGHTMETA, 0i32),
    ]
}

/// Control and V, pressed and released.
pub open spec fn ctrl_v() -> Seq<KeyEvent> {
    seq![(LEFTCTRL, 1i32), (V, 1i32), (V, 0i32), (LEFTCTRL, 0i32)]
}

/// Control, Shift and V, pressed and released.
pub open spec fn ctrl_shift_v() -> Seq<KeyEvent> {
    seq![
        (LEFTCTRL, 1i32),
        (LEFTSHIFT, 1i32),
        (V, 1i32),
        (V, 0i32),
        (LEFTSHIFT, 0i32),
        (LEFTCTRL, 0i32),
    ]
}

/// Shift and Insert, pressed and released.
pub open spec fn shift_insert() -> Seq<KeyEvent> {
    seq![(LEFTSHIFT, 1i32), (INSERT, 1i32), (INSERT, 0i32), (LEFTSHIFT, 0i32)]
}

/// The releases of all modifier keys.
pub fn release_modifiers() -> (r: Vec<KeyEvent>)
    ensures
        r@ == releases(),
{
    vec![
        (RIGHTALT, 0),
        (LEFTALT, 0),
        (LEFTCTRL, 0),
        (RIGHTCTRL, 0),
        (LEFTSHIFT, 0),
        (RIGHTSHIFT, 0),
        (LEFTMETA, 0),
        (RIGHTMETA, 0),
    ]
}

/// The key events of a paste: all modifier keys are released, then Control and V are pressed.
pub fn uinput_paste() -> (r: Vec<KeyEvent>)
    ensures
        r@ == releases() + ctrl_v(),
{
    let mut out = release_modifiers();
    out.push((LEFTCTRL, 1));
    out.push((V, 1));
    out.push((V, 0));
    out.push((LEFTCTRL, 0));
    assert(out@ =~= releases() + ctrl_v());
    out
}

/// The keys that the virtual keyboard has.
pub fn uinput_keys() -> (r: Vec<u16>)
    ensures
        r@ == seq![
            LEFTCTRL,
            RIGHTCTRL,
            LEFTALT,
            RIGHTALT,
            LEFTSHIFT,
            RIGHTSHIFT,
            LEFTMETA,
            RIGHTMETA,
            V,
            INSERT,
        ],
{
    vec![
        LEFTCTRL,
        RIGHTCTRL,
        LEFTALT,
        RIGHTALT,
        LEFTSHIFT,
        RIGHTSHIFT,
        LEFTMETA,
        RIGHTMETA,
        V,
        INSERT,
    ]
}

/// The paste keys in three variants, in the order in which they are tried.
pub fn ydotool_variants() -> (r: Vec<Vec<KeyEvent>>)
    ensures
        r.len() == 3,
        r@[0]@ == ctrl_v(),
        r@[1]@ == ctrl_shift_v(),
        r@[2]@ == shift_insert(),
{
    let a: Vec<KeyEvent> = vec![(LEFTCTRL, 1), (V, 1), (V, 0), (LEFTCTRL, 0)];
    let b: Vec<KeyEvent> = vec![
        (LEFTCTRL, 1),
        (LEFTSHIFT, 1),
        (V, 1),
        (V, 0),
        (LEFTSHIFT, 0),
        (LEFTCTRL, 0),
    ];
    let c: Vec<KeyEvent> = vec![(LEFTSHIFT, 1), (INSERT, 1), (INSERT, 0), (LEFTSHIFT, 0)];
    let mut out: Vec<Vec<KeyEvent>> = Vec::new();
    out.push(a);
    out.push(b);
    out.push(c);
    out
}

/// How a key event is written for ydotool.
pub open spec fn written(e: KeyEvent) -> Seq<char> {
    text::decimal(e.0 as nat) + if e.1 == 0 {
        ":0"@
    } else {
        ":1"@
    }
}

/// The arguments of ydotool for key events.
pub fn ydotool_keys(events: &Vec<KeyEvent>) -> (r: CommandLine)
    ensures
        r@ == (Line {
            program: "ydotool"@,
            args: seq!["key"@, "-d"@, "40"@] + events@.map_values(|e: KeyEvent| written(e)),
        }),
{
    let head: [&str; 3] = ["key", "-d", "40"];
    let mut args = text::owned(&head);
    let ghost all = events@.map_values(|e: KeyEvent| written(e));
    let ghost start = seq!["key"@, "-d"@, "40"@];
    assert(text::strs(head@) =~= start);
    let mut i: usize = 0;
    assert(start + all.take(0) =~= start);
    while i < events.len()
        invariant
            i <= events.len(),
            all == events@.map_values(|e: KeyEvent| written(e)),
            text::texts(args@) == start + all.take(i as int),
        decreases events.len() - i,
    {
        let e: KeyEvent = events[i];
        let ghost before = args@;
        let code = text::number(e.0 as u64);
        args.push(
            text::cat(
                code.as_str(),
                if e.1 == 0 {
                    ":0"
                } else {
                    ":1"
                },
            ),
        );
        assert(text::texts(args@) =~= text::texts(before).push(written(e)));
        assert(all.take(i as int + 1) =~= all.take(i as int).push(all[i as int]));
        i += 1;
        assert(text::texts(args@) =~= start + all.take(i as int));
    }
    assert(all.take(all.len() as int) =~= all);
    CommandLine { program: "ydotool".to_string(), args }
}

/// The socket that ydotool is told to use: the one in the runtime directory if it exists,
/// otherwise the one that the environment names.
pub fn ydotool_socket(runtime: Option<&str>, exists: bool, var: Option<&str>) -> (r: Option<String>)
    ensures
        text::opt_string(r) == match text::opt_str(runtime) {
            Some(d) => if exists {
                Some(d + "/.ydotool_socket"@)
            } else {
                text::opt_str(var)
            },
            None => text::opt_str(var),
        },
{
    match runtime {
        Some(d) => {
            if exists {
                return Some(text::cat(d, "/.ydotool_socket"));
            }
        },
        None => {},
    }
    match var {
        Some(t) => Some(t.to_string()),
        None => None,
    }
}

/// The calls of keyd that press the paste keys, in the order in which they are tried. Each names
/// one chord: keyd would type any other word letter by letter.
pub fn keyd_chords() -> (r: Vec<CommandLine>)
    ensures
        command::lines(r@) == seq!["C-v"@, "C-S-v"@, "S-insert"@].map_values(
            |c: Seq<char>| Line { program: "keyd"@, args: seq!["do"@, c] },
        ),
{
    let a: [&str; 2] = ["do", "C-v"];
    let b: [&str; 2] = ["do", "C-S-v"];
    let c: [&str; 2] = ["do", "S-insert"];
    assert(text::strs(a@) =~= seq!["do"@, "C-v"@]);
    assert(text::strs(b@) =~= seq!["do"@, "C-S-v"@]);
    assert(text::strs(c@) =~= seq!["do"@, "S-insert"@]);
    let mut out: Vec<CommandLine> = Vec::new();
    out.push(command::command("keyd", &a));
    out.push(command::command("keyd", &b));
    out.push(command::command("keyd", &c));
    assert(command::lines(out@) =~= seq!["C-v"@, "C-S-v"@, "S-insert"@].map_values(
        |c: Seq<char>| Line { program: "keyd"@, args: seq!["do"@, c] },
    ));
    out
}

/// The call of wtype that presses the paste keys.
pub fn wtype_paste() -> (r: CommandLine)
    ensures
        r@ == (Line {
            program: "wtype"@,
            args: seq!["-M"@, "ctrl"@, "-k"@, "v"@, "-m"@, "ctrl"@],
        }),
{
    let args: [&str; 6] = ["-M", "ctrl", "-k", "v", "-m", "ctrl"];
    assert(text::strs(args@) =~= seq!["-M"@, "ctrl"@, "-k"@, "v"@, "-m"@, "ctrl"@]);
    command::command("wtype", &args)
}

/// The call of xdotool that presses the paste keys.
pub fn xdotool_paste() -> (r: CommandLine)
    ensures
        r@ == (Line { program: "xdotool"@, args: seq!["key"@, "--clearmodifiers"@, "ctrl+v"@] }),
{
    let args: [&str; 3] = ["key", "--clearmodifiers", "ctrl+v"];
    assert(text::strs(args@) =~= seq!["key"@, "--clearmodifiers"@, "ctrl+v"@]);
    command::command("xdotool", &args)
}

/// The keys that are down after key events, `down` being down before.
pub open spec fn down_after(down: Set<u16>, events: Seq<KeyEvent>) -> Set<u16>
    decreases events.len(),
{
    if events.len() == 0 {
        down
    } else if events[0].1 == 0 {
        down_after(down.remove(events[0].0), events.skip(1))
    } else {
        down_after(down.insert(events[0].0), events.skip(1))
    }
}

proof fn lemma_down_joined(down: Set<u16>, a: Seq<KeyEvent>, b: Seq<KeyEvent>)
    ensures
        down_after(down, a + b) == down_after(down_after(down, a), b),
    decreases a.len(),
{
    if a.len() == 0 {
        assert(a + b =~= b);
    } else {
        assert((a + b).skip(1) =~= a.skip(1) + b);
        let next = if a[0].1 == 0 {
            down.remove(a[0].0)
        } else {
            down.insert(a[0].0)
        };
        lemma_down_joined(next, a.skip(1), b);
    }
}

/// No key is left down by a paste, whatever modifier keys were held before; nor by any of the
/// variants once the modifier keys are released.
pub proof fn pastes_leave_no_key_down(down: Set<u16>)
    requires
        forall|k: u16|
            down.contains(k) ==> k == RIGHTALT || k == LEFTALT || k == LEFTCTRL || k == RIGHTCTRL
                || k == LEFTSHIFT || k == RIGHTSHIFT || k == LEFTMETA || k == RIGHTMETA,
    ensures
        down_after(down, releases()) =~= Set::empty(),
        down_after(down, releases() + ctrl_v()) =~= Set::empty(),
        down_after(down, releases() + ctrl_shift_v()) =~= Set::empty(),
        down_after(down, releases() + shift_insert()) =~= Set::empty(),
{
    reveal_with_fuel(down_after, 9);
    assert(down_after(down, releases()) =~= Set::empty());
    assert(down_after(Set::empty(), ctrl_v()) =~= Set::empty());
    assert(down_after(Set::empty(), ctrl_shift_v()) =~= Set::empty());
    assert(down_after(Set::empty(), shift_insert()) =~= Set::empty());
    lemma_down_joined(down, releases(), ctrl_v());
    lemma_down_joined(down, releases(), ctrl_shift_v());
    lemma_down_joined(down, releases(), shift_insert());
}

/// A text is put on screen exactly if there is one and pasting is allowed. Without a text provisional text
/// is taken away, at the end of a phrase; a phrase is offered three times and a text that stands alone
/// five times, with the waits between that belong to each.
pub proof fn texts_are_put_on_screen(txt: Seq<char>, paste: bool, first: bool)
    ensures
        final_route(txt, paste) is Clear <==> txt.len() == 0,
        final_route(txt, paste) is Commit <==> txt.len() > 0 && paste,
        chunk_route(txt, paste, first) is Commit <==> txt.len() > 0 && paste,
        chunk_route(txt, paste, first) is Keep <==> txt.len() == 0 || !paste,
        quiet_route(paste) is Commit <==> paste,
        quiet_route(paste) is Keep <==> !paste,
        final_route(txt, paste) matches Route::Commit(p) ==> p.tries == 3 && p.gap_ms == 50 && p.wait_ms == 0
            && p.gap_after_last && !p.take_down && !p.release && p.fallback == Fallback::Deliver,
        chunk_route(txt, paste, first) matches Route::Commit(p) ==> p.tries == 3 && p.gap_ms == 60
            && p.gap_after_last && !p.take_down && p.release == first && (first ==> p.wait_ms == 120
            && p.fallback == Fallback::Deliver) && (!first ==> p.wait_ms == 0 && p.fallback
            == Fallback::Leave),
        quiet_route(paste) matches Route::Commit(p) ==> p.tries == 5 && p.gap_ms == 120 && p.wait_ms == 280
            && !p.gap_after_last && p.take_down && p.release && p.fallback == Fallback::Paste,
{
}

/// A try that succeeds is the last; one that fails is followed by the next, after the planned wait, until
/// all are made, and then by what was planned for that.
pub proof fn tries_follow_on_failures(plan: CommitPlan, attempt: u32, waited: u64)
    ensures
        ({
            let step = Step::Offer { attempt, wait_ms: waited };
            let gap = if plan.gap_after_last {
                plan.gap_ms
            } else {
                0
            };
            &&& step_after(plan, step, true) == Step::Committed
            &&& attempt < plan.tries ==> step_after(plan, step, false) == (Step::Offer {
                attempt: (attempt + 1) as u32,
                wait_ms: plan.gap_ms,
            })
            &&& attempt >= plan.tries && plan.fallback == Fallback::Leave ==> step_after(
                plan,
                step,
                false,
            ) == (Step::Left { wait_ms: gap })
            &&& attempt >= plan.tries && plan.fallback == Fallback::Deliver ==> step_after(
                plan,
                step,
                false,
            ) == (Step::Alone { wait_ms: gap })
            &&& attempt >= plan.tries && plan.fallback == Fallback::Paste ==> step_after(
                plan,
                step,
                false,
            ) == (Step::SetClipboard { wait_ms: gap })
            &&& first_step() == (Step::Offer { attempt: 1, wait_ms: 0 })
        }),
{
}

/// Once the text is on the clipboard the paste keys are pressed in five ways, one after another, up to the
/// first that succeeds; then, or when all have failed, it is over.
pub proof fn keys_are_pressed_in_every_way(plan: CommitPlan, m: PasteMethod, waited: u64)
    ensures
        step_after(plan, Step::SetClipboard { wait_ms: waited }, true) == Step::Press(
            PasteMethod::Uinput,
        ),
        step_after(plan, Step::SetClipboard { wait_ms: waited }, false) == Step::NoClipboard,
        step_after(plan, Step::Press(m), true) == Step::Pasted(m),
        step_after(plan, Step::Press(PasteMethod::Uinput), false) == Step::Press(PasteMethod::Keyd),
        step_after(plan, Step::Press(PasteMethod::Keyd), false) == Step::Press(PasteMethod::Ydotool),
        step_after(plan, Step::Press(PasteMethod::Ydotool), false) == Step::Press(PasteMethod::Xdotool),
        step_after(plan, Step::Press(PasteMethod::Xdotool), false) == Step::Press(PasteMethod::Wtype),
        step_after(plan, Step::Press(PasteMethod::Wtype), false) == Step::OnClipboard,
{
}

/// A call of the input method names its method and hands over all that goes with it, last of all.
pub proof fn calls_carry_what_goes_with_them(method: Seq<char>, extra: Seq<Seq<char>>, txt: Seq<char>)
    ensures
        extra.is_suffix_of(fcitx_call(method, extra).args),
        fcitx_call(method, extra).args[fcitx_call(method, extra).args.len() - extra.len() - 1] == method,
        fcitx_call(method, seq!["s"@, txt]).args.last() == txt,
{
}

/// A key event is written as the key's code and whether it goes down, so no two events are written alike.
pub proof fn key_events_are_told_apart(a: KeyEvent, b: KeyEvent)
    ensures
        text::decimal(a.0 as nat).is_prefix_of(written(a)),
        written(a).len() == text::decimal(a.0 as nat).len() + 2,
        a.1 == 0 ==> written(a).last() == '0',
        a.1 != 0 ==> written(a).last() == '1',
        a.0 != b.0 || (a.1 == 0) != (b.1 == 0) ==> written(a) != written(b),
{
    reveal_strlit(":0");
    reveal_strlit(":1");
    let (p, q) = (text::decimal(a.0 as nat), text::decimal(b.0 as nat));
    assert(":0"@.len() == 2 && ":1"@.len() == 2);
    assert(written(a).take(p.len() as int) =~= p);
    assert(written(b).take(q.len() as int) =~= q);
    let max = a.0 as nat + b.0 as nat;
    text::numbers_read_back(a.0 as nat, max, Seq::empty());
    text::numbers_read_back(b.0 as nat, max, Seq::empty());
    if written(a) == written(b) {
        assert(p.len() == q.len());
        assert(p == q);
        assert(written(a).last() == written(b).last());
        assert(":0"@.last() == '0' && ":1"@.last() == '1');
    }
}

/// The clipboard's program is Wayland's where it is installed, otherwise that of X, if it is.
pub proof fn waylands_program_comes_first(xclip: bool)
    ensures
        clipboard_line(true, xclip) matches Some(l) && l.program == "wl-copy"@,
        clipboard_line(false, true) matches Some(l) && l.program == "xclip"@,
        clipboard_line(false, false) is None,
{
}

/// Each way to press the paste keys is called by what presses them.
pub proof fn ways_go_by_their_names(m: PasteMethod)
    ensures
        m == PasteMethod::Uinput ==> method_label(m) == "uinput Ctrl+V"@,
        m == PasteMethod::Keyd ==> method_label(m) == "keyd Ctrl+V"@,
        m == PasteMethod::Ydotool ==> method_label(m) == "ydotool Ctrl+V"@,
        m == PasteMethod::Xdotool ==> method_label(m) == "xdotool Ctrl+V"@,
        m == PasteMethod::Wtype ==> method_label(m) == "wtype Ctrl+V"@,
{
}

} // verus!
