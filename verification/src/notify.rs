//! What the daemon shows.

use crate::osd::{self, Card, CardView};
use vstd::prelude::*;

verus! {

/// One thing to do on screen.
#[derive(Debug, Clone)]
pub enum Display {
    /// Take down what is shown.
    Hide,
    /// Show a card.
    Show(Card),
}

/// What a [`Display`] holds.
pub enum DisplayView {
    Hide,
    Show(CardView),
}

impl View for Display {
    type V = DisplayView;

    open spec fn view(&self) -> DisplayView {
        match *self {
            Display::Hide => DisplayView::Hide,
            Display::Show(card) => DisplayView::Show(card@),
        }
    }
}

/// What is done, step by step.
pub open spec fn shows(v: Seq<Display>) -> Seq<DisplayView> {
    v.map_values(|d: Display| d@)
}

/// Showing one card.
pub open spec fn only(card: CardView) -> Seq<DisplayView> {
    seq![DisplayView::Show(card)]
}

/// Taking down what is shown and, unless it is empty, showing a hint.
pub open spec fn idle_with(msg: Seq<char>) -> Seq<DisplayView> {
    if msg.len() == 0 {
        seq![DisplayView::Hide]
    } else {
        seq![DisplayView::Hide, DisplayView::Show(osd::hint_card(msg))]
    }
}

fn one(card: Card) -> (r: Vec<Display>)
    ensures
        shows(r@) == only(card@),
{
    let mut out: Vec<Display> = Vec::new();
    out.push(Display::Show(card));
    assert(shows(out@) =~= only(card@));
    out
}

/// Recording has begun.
pub fn recording() -> (r: Vec<Display>)
    ensures
        shows(r@) == only(osd::recording_card()),
{
    one(osd::recording())
}

/// Recording has ended, recognition goes on.
pub fn transcribing() -> (r: Vec<Display>)
    ensures
        shows(r@) == only(osd::transcribing_card()),
{
    one(osd::transcribing())
}

/// `text` was delivered.
pub fn done(text: &str) -> (r: Vec<Display>)
    ensures
        shows(r@) == only(osd::done_card(text@)),
{
    one(osd::done(text))
}

/// Something went wrong.
pub fn error(msg: &str) -> (r: Vec<Display>)
    ensures
        shows(r@) == only(osd::error_card(msg@)),
{
    one(osd::error(msg))
}

/// Nothing goes on; `msg` is shown unless it is empty.
pub fn idle(msg: &str) -> (r: Vec<Display>)
    ensures
        shows(r@) == idle_with(msg@),
{
    let mut out: Vec<Display> = Vec::new();
    out.push(Display::Hide);
    if msg.unicode_len() > 0 {
        out.push(Display::Show(osd::boot_hint(msg)));
    }
    assert(shows(out@) =~= idle_with(msg@));
    out
}

/// A hint is shown only after what was shown is taken down, and only if there is one.
pub proof fn hints_take_the_place_of_what_is_shown(msg: Seq<char>, card: CardView)
    ensures
        idle_with(msg)[0] is Hide,
        msg.len() == 0 ==> idle_with(msg).len() == 1,
        msg.len() > 0 ==> idle_with(msg).len() == 2 && idle_with(msg)[1] == DisplayView::Show(
            osd::hint_card(msg),
        ),
        only(card).len() == 1 && only(card)[0] == DisplayView::Show(card),
{
}

} // verus!
