//! The global hotkey: which key it is, which keyboards to watch, and which of their events count.

use crate::text;
use vstd::prelude::*;

verus! {

/// Two presses closer together than this, in milliseconds, count as one.
pub const DEBOUNCE_MS: u64 = 120;

/// How long a list of keyboards stays valid, in milliseconds.
pub const RESCAN_MS: u64 = 5_000;

/// A key that can be the hotkey.
#[derive(Debug, Clone, Copy, PartialEq, Eq, Structural)]
pub enum Key {
    RightAlt,
    LeftAlt,
}

/// What the hotkey did.
#[derive(Debug, Clone, Copy, PartialEq, Eq, Structural)]
pub enum HotkeyEvent {
    Press,
    Release,
}

/// The key that a setting names: the right Alt key unless it names the left one or none.
pub open spec fn key_named(name: Seq<char>) -> Option<Key> {
    let n = text::lowered(text::trimmed(name));
    if n == "none"@ || n == "off"@ || n == "disabled"@ {
        None
    } else if n == "leftalt"@ || n == "alt_l"@ || n == "lalt"@ || n == "left_alt"@ {
        Some(Key::LeftAlt)
    } else {
        Some(Key::RightAlt)
    }
}

/// The key that a setting names.
pub fn parse_key(name: &str) -> (r: Option<Key>)
    ensures
        r == key_named(name@),
{
    let n = text::to_lower(text::trim(name));
    let n = n.as_str();
    if text::same(n, "none") || text::same(n, "off") || text::same(n, "disabled") {
        None
    } else if text::same(n, "leftalt") || text::same(n, "alt_l") || text::same(n, "lalt")
        || text::same(n, "left_alt") {
        Some(Key::LeftAlt)
    } else {
        Some(Key::RightAlt)
    }
}

/// How a key is called.
pub open spec fn label_of(key: Key) -> Seq<char> {
    match key {
        Key::RightAlt => "Right Alt"@,
        Key::LeftAlt => "Left Alt"@,
    }
}

/// How a key is called.
pub fn key_label(key: Key) -> (r: &'static str)
    ensures
        r@ == label_of(key),
{
    match key {
        Key::RightAlt => "Right Alt",
        Key::LeftAlt => "Left Alt",
    }
}

impl Key {
    /// The kernel's code of the key.
    pub fn code(self) -> (r: u16)
        ensures
            r == match self {
                Key::RightAlt => 100u16,
                Key::LeftAlt => 56u16,
            },
    {
        match self {
            Key::RightAlt => 100,
            Key::LeftAlt => 56,
        }
    }
}

/// An input device.
#[derive(Debug, Clone)]
pub struct Candidate {
    pub path: String,
    /// The last part of the path.
    pub file_name: String,
    /// Whether it could be opened and has the hotkey.
    pub has_key: bool,
    /// What the device calls itself.
    pub name: String,
}

/// Whether the device is an event device with the hotkey.
pub open spec fn usable(c: Candidate) -> bool {
    "event"@.is_prefix_of(c.file_name@) && c.has_key
}

/// Whether the device is the virtual keyboard of keyd, which takes the events of the others.
pub open spec fn virtual_keyboard(c: Candidate) -> bool {
    usable(c) && text::has(text::lowered(c.name@), "keyd"@)
}

/// The paths of the devices that fit, in order.
pub open spec fn paths_where(cs: Seq<Candidate>, fits: spec_fn(Candidate) -> bool) -> Seq<Seq<char>> {
    cs.filter(fits).map_values(|c: Candidate| c.path@)
}

/// The devices to watch: the virtual keyboards if there are any, otherwise all that have the key.
pub open spec fn keyboards(cs: Seq<Candidate>) -> Seq<Seq<char>> {
    let keyd = paths_where(cs, |c: Candidate| virtual_keyboard(c));
    if keyd.len() > 0 {
        keyd
    } else {
        paths_where(cs, |c: Candidate| usable(c))
    }
}

proof fn lemma_paths_push(cs: Seq<Candidate>, fits: spec_fn(Candidate) -> bool, c: Candidate)
    ensures
        paths_where(cs.push(c), fits) == if fits(c) {
            paths_where(cs, fits).push(c.path@)
        } else {
            paths_where(cs, fits)
        },
{
    reveal(Seq::filter);
    assert(cs.push(c).drop_last() =~= cs);
    if fits(c) {
        assert(cs.push(c).filter(fits) =~= cs.filter(fits).push(c));
        assert(paths_where(cs.push(c), fits) =~= paths_where(cs, fits).push(c.path@));
    }
}

/// Picks the devices to watch.
pub fn list_keyboards(cs: &Vec<Candidate>) -> (r: Vec<String>)
    ensures
        text::texts(r@) == keyboards(cs@),
{
    let ghost any = |c: Candidate| usable(c);
    let ghost keyd_only = |c: Candidate| virtual_keyboard(c);
    let mut all: Vec<String> = Vec::new();
    let mut keyd: Vec<String> = Vec::new();
    let mut i: usize = 0;
    proof {
        reveal(Seq::filter);
        assert(cs@.take(0) =~= seq![]);
        assert(text::texts(all@) =~= paths_where(cs@.take(0), any));
        assert(text::texts(keyd@) =~= paths_where(cs@.take(0), keyd_only));
    }
    while i < cs.len()
        invariant
            i <= cs.len(),
            any == (|c: Candidate| usable(c)),
            keyd_only == (|c: Candidate| virtual_keyboard(c)),
            text::texts(all@) == paths_where(cs@.take(i as int), any),
            text::texts(keyd@) == paths_where(cs@.take(i as int), keyd_only),
        decreases cs.len() - i,
    {
        let c = &cs[i];
        let ghost (a, k) = (all@, keyd@);
        proof {
            assert(cs@.take(i as int + 1) =~= cs@.take(i as int).push(*c));
            lemma_paths_push(cs@.take(i as int), any, *c);
            lemma_paths_push(cs@.take(i as int), keyd_only, *c);
        }
        if text::starts_with(c.file_name.as_str(), "event") && c.has_key {
            let name = text::to_lower(c.name.as_str());
            if text::contains(name.as_str(), "keyd") {
                keyd.push(c.path.clone());
                assert(text::texts(keyd@) =~= text::texts(k).push(c.path@));
            }
            all.push(c.path.clone());
            assert(text::texts(all@) =~= text::texts(a).push(c.path@));
        }
        i += 1;
    }
    assert(cs@.take(cs@.len() as int) =~= cs@);
    if keyd.len() > 0 {
        keyd
    } else {
        all
    }
}

/// Whether a file below `/dev/input` is an event device.
pub fn is_event_device(file_name: &str) -> (r: bool)
    ensures
        r == "event"@.is_prefix_of(file_name@),
{
    text::starts_with(file_name, "event")
}

/// The listener for the hotkey.
#[derive(Debug, Clone)]
pub struct Listener {
    /// Whether the key is held while speaking, so that its release counts too.
    pub ptt: bool,
    /// The devices of the last scan.
    pub watched: Vec<String>,
    /// How many of them are open.
    pub open: usize,
    /// When the devices were last listed, in milliseconds.
    pub last_scan: Option<u64>,
    /// When a press last counted, in milliseconds.
    pub last_fire: Option<u64>,
    /// Whether it was reported that no device has the key.
    pub reported: bool,
}

/// What a [`Listener`] holds.
#[verifier::ext_equal]
pub struct Listening {
    pub ptt: bool,
    pub watched: Seq<Seq<char>>,
    pub open: usize,
    pub last_scan: Option<u64>,
    pub last_fire: Option<u64>,
    pub reported: bool,
}

impl View for Listener {
    type V = Listening;

    open spec fn view(&self) -> Listening {
        Listening {
            ptt: self.ptt,
            watched: text::texts(self.watched@),
            open: self.open,
            last_scan: self.last_scan,
            last_fire: self.last_fire,
            reported: self.reported,
        }
    }
}

/// Whether more than `ms` milliseconds have passed since `then`, if it ever was.
pub open spec fn over(then: Option<u64>, now: u64, ms: u64) -> bool {
    match then {
        None => true,
        Some(t) => now - t > ms,
    }
}

/// Whether a press at time `now` counts, the last that counted having been at `last`.
pub open spec fn counts(last: Option<u64>, now: u64) -> bool {
    match last {
        None => true,
        Some(t) => now - t >= DEBOUNCE_MS,
    }
}

impl Listening {
    /// Before the first scan.
    pub open spec fn start(ptt: bool) -> Listening {
        Listening { ptt, watched: seq![], open: 0, last_scan: None, last_fire: None, reported: false }
    }

    /// Whether the devices have to be listed.
    pub open spec fn stale(self, now: u64) -> bool {
        self.open == 0 || over(self.last_scan, now, RESCAN_MS)
    }

    /// After the devices were listed, and whether they have to be opened anew.
    pub open spec fn scanned(self, paths: Seq<Seq<char>>, now: u64) -> (Listening, bool) {
        if paths != self.watched || self.open == 0 {
            (Listening { watched: paths, open: 0, last_scan: Some(now), ..self }, true)
        } else {
            (Listening { last_scan: Some(now), ..self }, false)
        }
    }

    /// After a key event of the hotkey (0 for a release, 1 for a press, 2 for a repeat), and what
    /// it means.
    pub open spec fn heard(self, value: i32, now: u64) -> (Listening, Option<HotkeyEvent>) {
        if value == 1 && counts(self.last_fire, now) {
            (Listening { last_fire: Some(now), ..self }, Some(HotkeyEvent::Press))
        } else if value == 0 && self.ptt {
            (self, Some(HotkeyEvent::Release))
        } else {
            (self, None)
        }
    }
}

/// What to do once the devices were opened.
#[derive(Debug, Clone, Copy, PartialEq, Eq, Structural)]
pub enum Opened {
    /// Read events.
    Ready,
    /// No device has the key: report it and try again in two seconds.
    Report,
    /// No device has the key, which was reported before: try again in two seconds.
    Wait,
}

impl Listener {
    /// A listener before its first scan.
    pub fn new(ptt: bool) -> (r: Self)
        ensures
            r@ == Listening::start(ptt),
    {
        let r = Listener {
            ptt,
            watched: Vec::new(),
            open: 0,
            last_scan: None,
            last_fire: None,
            reported: false,
        };
        assert(r@.watched =~= seq![]);
        r
    }

    /// Whether the devices have to be listed.
    pub fn needs_scan(&self, now: u64) -> (r: bool)
        ensures
            r == self@.stale(now),
    {
        self.open == 0 || match self.last_scan {
            None => true,
            Some(t) => now >= t && now - t > RESCAN_MS,
        }
    }

    fn same_devices(&self, paths: &Vec<String>) -> (r: bool)
        ensures
            r == (text::texts(paths@) == self@.watched),
    {
        if paths.len() != self.watched.len() {
            assert(text::texts(paths@).len() != self@.watched.len());
            return false;
        }
        let mut i: usize = 0;
        while i < paths.len()
            invariant
                i <= paths.len(),
                paths.len() == self.watched.len(),
                forall|k: int| 0 <= k < i ==> paths@[k]@ == self.watched@[k]@,
            decreases paths.len() - i,
        {
            if !text::same(paths[i].as_str(), self.watched[i].as_str()) {
                assert(text::texts(paths@)[i as int] != self@.watched[i as int]);
                return false;
            }
            i += 1;
        }
        assert(text::texts(paths@) =~= self@.watched);
        true
    }

    /// The devices were listed. Says whether they have to be opened anew.
    pub fn scanned(&mut self, paths: Vec<String>, now: u64) -> (r: bool)
        ensures
            (final(self)@, r) == old(self)@.scanned(text::texts(paths@), now),
    {
        self.last_scan = Some(now);
        if self.open == 0 || !self.same_devices(&paths) {
            self.watched = paths;
            self.open = 0;
            true
        } else {
            false
        }
    }

    /// `opened` of the devices could be opened.
    pub fn opened(&mut self, opened: usize) -> (r: Opened)
        ensures
            final(self)@ == (Listening { open: opened, reported: opened == 0, ..old(self)@ }),
            r == if opened > 0 {
                Opened::Ready
            } else if old(self)@.reported {
                Opened::Wait
            } else {
                Opened::Report
            },
    {
        self.open = opened;
        let before = self.reported;
        self.reported = opened == 0;
        if opened > 0 {
            Opened::Ready
        } else if before {
            Opened::Wait
        } else {
            Opened::Report
        }
    }

    /// A device went away: all are to be opened anew.
    pub fn lost(&mut self)
        ensures
            final(self)@ == (Listening { open: 0, ..old(self)@ }),
    {
        self.open = 0;
    }

    /// An event of the hotkey arrived.
    pub fn key_event(&mut self, value: i32, now: u64) -> (r: Option<HotkeyEvent>)
        ensures
            (final(self)@, r) == old(self)@.heard(value, now),
    {
        if value == 1 {
            let fire = match self.last_fire {
                None => true,
                Some(t) => now >= t && now - t >= DEBOUNCE_MS,
            };
            if fire {
                self.last_fire = Some(now);
                return Some(HotkeyEvent::Press);
            }
            None
        } else if value == 0 && self.ptt {
            Some(HotkeyEvent::Release)
        } else {
            None
        }
    }
}

/// The times of the presses that count among key events, each a value and a time.
pub open spec fn presses(l: Listening, events: Seq<(i32, u64)>) -> Seq<u64>
    decreases events.len(),
{
    if events.len() == 0 {
        seq![]
    } else {
        let (next, what) = l.heard(events[0].0, events[0].1);
        if what == Some(HotkeyEvent::Press) {
            seq![events[0].1] + presses(next, events.skip(1))
        } else {
            presses(next, events.skip(1))
        }
    }
}

proof fn lemma_presses_spaced(l: Listening, events: Seq<(i32, u64)>)
    ensures
        forall|i: int, j: int|
            0 <= i < j < presses(l, events).len() ==> presses(l, events)[j] - presses(l, events)[i]
                >= DEBOUNCE_MS,
        l.last_fire is Some ==> forall|i: int|
            0 <= i < presses(l, events).len() ==> #[trigger] presses(l, events)[i]
                - l.last_fire->Some_0 >= DEBOUNCE_MS,
    decreases events.len(),
{
    if events.len() > 0 {
        let (next, what) = l.heard(events[0].0, events[0].1);
        lemma_presses_spaced(next, events.skip(1));
        let rest = presses(next, events.skip(1));
        if what == Some(HotkeyEvent::Press) {
            let all = seq![events[0].1] + rest;
            assert(presses(l, events) == all);
            assert forall|i: int, j: int| 0 <= i < j < all.len() implies all[j] - all[i]
                >= DEBOUNCE_MS by {
                assert(all[j] == rest[j - 1]);
                if i > 0 {
                    assert(all[i] == rest[i - 1]);
                }
            }
            if l.last_fire is Some {
                assert forall|i: int| 0 <= i < all.len() implies #[trigger] all[i]
                    - l.last_fire->Some_0 >= DEBOUNCE_MS by {
                    if i > 0 {
                        assert(all[i] == rest[i - 1]);
                    }
                }
            }
        }
    }
}

/// However a key chatters and however many devices report it, two presses that count are at
/// least 120 milliseconds apart.
pub proof fn presses_are_spaced(l: Listening, events: Seq<(i32, u64)>, i: int, j: int)
    requires
        0 <= i < j < presses(l, events).len(),
    ensures
        presses(l, events)[j] - presses(l, events)[i] >= 120,
{
    lemma_presses_spaced(l, events);
}

/// A repeat never means anything, a release only where the key is held while speaking, and there
/// it always does.
pub proof fn releases_count_when_held(l: Listening, now: u64)
    ensures
        l.heard(2, now) == (l, None::<HotkeyEvent>),
        l.heard(0, now) == (
            l,
            if l.ptt {
                Some(HotkeyEvent::Release)
            } else {
                None
            },
        ),
{
}

/// A press counts if it is the first or comes at least 120 milliseconds after the last one that counted,
/// and then the next one is measured from it; otherwise it changes nothing.
pub proof fn presses_count_unless_they_follow_too_soon(l: Listening, last: u64, now: u64)
    ensures
        ({
            let first = Listening { last_fire: None, ..l };
            let later = Listening { last_fire: Some(last), ..l };
            let fired = (Listening { last_fire: Some(now), ..l }, Some(HotkeyEvent::Press));
            &&& first.heard(1, now) == fired
            &&& now >= last + 120 ==> later.heard(1, now) == fired
            &&& now < last + 120 ==> later.heard(1, now) == (later, None::<HotkeyEvent>)
        }),
{
}

/// A setting names the left key by one of its names, none by one of the words for none, and otherwise the
/// right key; case and white space around the name do not matter.
pub proof fn the_right_key_is_the_usual_one(name: Seq<char>)
    ensures
        ({
            let n = text::lowered(text::trimmed(name));
            let none = n == "none"@ || n == "off"@ || n == "disabled"@;
            let left = n == "leftalt"@ || n == "alt_l"@ || n == "lalt"@ || n == "left_alt"@;
            &&& none <==> key_named(name) is None
            &&& left <==> key_named(name) == Some(Key::LeftAlt)
            &&& !none && !left <==> key_named(name) == Some(Key::RightAlt)
        }),
{
    reveal_strlit("none");
    reveal_strlit("off");
    reveal_strlit("disabled");
    reveal_strlit("leftalt");
    reveal_strlit("alt_l");
    reveal_strlit("lalt");
    reveal_strlit("left_alt");
    assert("none"@.len() == 4 && "none"@[0] == 'n' && "lalt"@.len() == 4 && "lalt"@[0] == 'l');
    assert("off"@.len() == 3 && "alt_l"@.len() == 5 && "leftalt"@.len() == 7);
    assert("disabled"@.len() == 8 && "disabled"@[0] == 'd' && "left_alt"@.len() == 8 && "left_alt"@[0]
        == 'l');
}

/// The devices are taken one by one, in order. As long as none of them is keyd's, each event device with
/// the key is watched; from the first of keyd's on, only keyd's are.
pub proof fn devices_are_taken_in_order(cs: Seq<Candidate>, c: Candidate)
    ensures
        ({
            let event = "event"@.is_prefix_of(c.file_name@) && c.has_key;
            let keyd = event && text::has(text::lowered(c.name@), "keyd"@);
            let before = exists|i: int|
                0 <= i < cs.len() && "event"@.is_prefix_of((#[trigger] cs[i]).file_name@)
                    && cs[i].has_key && text::has(text::lowered(cs[i].name@), "keyd"@);
            &&& keyboards(Seq::empty()).len() == 0
            &&& keyd && before ==> keyboards(cs.push(c)) == keyboards(cs).push(c.path@)
            &&& keyd && !before ==> keyboards(cs.push(c)) == seq![c.path@]
            &&& !keyd && event && !before ==> keyboards(cs.push(c)) == keyboards(cs).push(c.path@)
            &&& !keyd && event && before ==> keyboards(cs.push(c)) == keyboards(cs)
            &&& !event ==> keyboards(cs.push(c)) == keyboards(cs)
        }),
{
    let any = |c: Candidate| usable(c);
    let only = |c: Candidate| virtual_keyboard(c);
    lemma_paths_push(cs, any, c);
    lemma_paths_push(cs, only, c);
    lemma_some_path(cs, only);
    reveal(Seq::filter);
    assert(paths_where(Seq::empty(), any) =~= Seq::<Seq<char>>::empty());
    assert(paths_where(Seq::empty(), only) =~= Seq::<Seq<char>>::empty());
    let before = exists|i: int|
        0 <= i < cs.len() && "event"@.is_prefix_of((#[trigger] cs[i]).file_name@) && cs[i].has_key
            && text::has(text::lowered(cs[i].name@), "keyd"@);
    if before {
        let i = choose|i: int|
            0 <= i < cs.len() && "event"@.is_prefix_of((#[trigger] cs[i]).file_name@)
                && cs[i].has_key && text::has(text::lowered(cs[i].name@), "keyd"@);
        assert(only(cs[i]));
    } else if paths_where(cs, only).len() > 0 {
        let i = choose|i: int| 0 <= i < cs.len() && only(#[trigger] cs[i]);
        assert(virtual_keyboard(cs[i]));
    } else {
        assert(paths_where(cs, only) =~= Seq::<Seq<char>>::empty());
    }
}

proof fn lemma_some_path(cs: Seq<Candidate>, fits: spec_fn(Candidate) -> bool)
    ensures
        paths_where(cs, fits).len() > 0 <==> exists|i: int| 0 <= i < cs.len() && fits(#[trigger] cs[i]),
    decreases cs.len(),
{
    reveal(Seq::filter);
    if cs.len() > 0 {
        let less = cs.drop_last();
        assert(cs =~= less.push(cs.last()));
        lemma_paths_push(less, fits, cs.last());
        lemma_some_path(less, fits);
        if fits(cs.last()) {
            assert(fits(cs[cs.len() - 1]));
        } else if paths_where(less, fits).len() > 0 {
            let i = choose|i: int| 0 <= i < less.len() && fits(#[trigger] less[i]);
            assert(cs[i] == less[i]);
        } else if exists|i: int| 0 <= i < cs.len() && fits(#[trigger] cs[i]) {
            let i = choose|i: int| 0 <= i < cs.len() && fits(#[trigger] cs[i]);
            assert(i < cs.len() - 1);
            assert(less[i] == cs[i]);
        }
    }
}

/// The devices are listed as long as none is open, and again when more than five seconds have passed; a
/// list that brings nothing new leaves open devices open.
pub proof fn devices_are_listed_anew(l: Listening, last: u64, now: u64, paths: Seq<Seq<char>>)
    ensures
        ({
            let listed = Listening { last_scan: Some(last), ..l };
            &&& l.open == 0 ==> l.stale(now)
            &&& l.open > 0 ==> (listed.stale(now) <==> now > last + 5_000)
            &&& (Listening { last_scan: None, ..l }).stale(now)
            &&& l.scanned(paths, now).0.last_scan == Some(now)
            &&& l.scanned(paths, now).0.watched == paths
            &&& l.scanned(paths, now).1 <==> paths != l.watched || l.open == 0
            &&& l.scanned(paths, now).1 ==> l.scanned(paths, now).0.open == 0
            &&& !l.scanned(paths, now).1 ==> l.scanned(paths, now).0.open == l.open
            &&& l.scanned(paths, now).0.last_fire == l.last_fire
            &&& l.scanned(paths, now).0.ptt == l.ptt
            &&& l.scanned(paths, now).0.reported == l.reported
        }),
{
}

/// A listener starts without devices, so that it lists them, and its first press counts.
pub proof fn listening_starts_with_a_scan(ptt: bool, now: u64)
    ensures
        Listening::start(ptt).stale(now),
        Listening::start(ptt).heard(1, now).1 == Some(HotkeyEvent::Press),
        Listening::start(ptt).ptt == ptt,
        Listening::start(ptt).watched.len() == 0,
        !Listening::start(ptt).reported,
{
}

/// Each key is called by its side.
pub proof fn keys_go_by_their_side()
    ensures
        label_of(Key::RightAlt) == "Right Alt"@,
        label_of(Key::LeftAlt) == "Left Alt"@,
{
}

} // verus!
