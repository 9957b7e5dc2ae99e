//! From the microphone to recognised text: collecting sound, and what is fit to be recognised.

use crate::config::{Bits, Config, Provider};
use crate::stream_vad::{pcms, Gates, PhraseGates, Segmenter, SpeechSegment, Vad, VadConfig};
use crate::{stream_vad, text, wav};
use vstd::prelude::*;

verus! {

/// What happens while sound is collected for two recognisers at once: a chunk always comes before
/// the segments that it completes.
#[derive(Debug)]
pub enum DualEvent {
    /// Whole samples of 16-bit mono sound.
    Chunk(Vec<u8>),
    /// A phrase of speech.
    Segment(SpeechSegment),
}

/// What a [`DualEvent`] holds.
pub enum Heard {
    Chunk(Seq<u8>),
    Segment(Seq<u8>),
}

impl View for DualEvent {
    type V = Heard;

    open spec fn view(&self) -> Heard {
        match *self {
            DualEvent::Chunk(b) => Heard::Chunk(b@),
            DualEvent::Segment(s) => Heard::Segment(s.pcm@),
        }
    }
}

/// What events hold, one after another.
pub open spec fn heards(v: Seq<DualEvent>) -> Seq<Heard> {
    v.map_values(|e: DualEvent| e@)
}

/// Segments as events.
pub open spec fn segments(v: Seq<Seq<u8>>) -> Seq<Heard> {
    v.map_values(|b: Seq<u8>| Heard::Segment(b))
}

/// Limits of what the microphone delivers.
#[derive(Debug, Clone, Copy, PartialEq, Eq, Structural)]
pub struct CaptureTune {
    /// The limit of the software gain.
    pub agc_max_gain: Bits,
    /// Chunks whose RMS stays below this many thousandths of a sample step are not passed on for
    /// provisional text; with 0 all are.
    pub preedit_min_rms_milli: u32,
}

impl Default for CaptureTune {
    /// A gain of at most 4, and provisional text from an RMS of 700.
    fn default() -> (r: Self)
        ensures
            r.agc_max_gain == 0x4010_0000_0000_0000u64,
            r.preedit_min_rms_milli == 700_000,
    {
        CaptureTune { agc_max_gain: 0x4010_0000_0000_0000, preedit_min_rms_milli: 700_000 }
    }
}

/// A recording in progress.
pub struct LiveCapture {
    pcm: Vec<u8>,
    dual: bool,
    preedit_min: u32,
    odd_carry: Option<u8>,
    segmenter: Option<Segmenter>,
}

/// What a [`LiveCapture`] holds.
#[verifier::ext_equal]
pub struct Capture {
    /// All sound so far.
    pub pcm: Seq<u8>,
    /// Whether chunks are passed on.
    pub dual: bool,
    /// The RMS, in thousandths, from which a chunk is passed on.
    pub preedit_min: nat,
    /// The first byte of a sample whose second byte has not come yet.
    pub carry: Option<u8>,
    /// The division into phrases, if there is one.
    pub vad: Option<Vad>,
}

impl View for LiveCapture {
    type V = Capture;

    closed spec fn view(&self) -> Capture {
        Capture {
            pcm: self.pcm@,
            dual: self.dual,
            preedit_min: self.preedit_min as nat,
            carry: self.odd_carry,
            vad: match self.segmenter {
                Some(s) => Some(s@),
                None => None,
            },
        }
    }
}

/// The byte carried over, if there is one.
pub open spec fn carried(carry: Option<u8>) -> Seq<u8> {
    match carry {
        Some(b) => seq![b],
        None => seq![],
    }
}

/// Where the events of a recording go.
#[derive(Debug, Clone, Copy, PartialEq, Eq, Structural)]
pub enum Outlet {
    /// There are none.
    Nowhere,
    /// Only phrases come out.
    Phrases,
    /// Chunks come out, and phrases if there is a division, in one order.
    Dual,
}

/// The gates of a division into phrases, if there is one.
pub open spec fn division(vad: Option<VadConfig>, gates: PhraseGates) -> Option<Gates> {
    match vad {
        Some(cfg) => Some(stream_vad::gates_with(cfg, gates)),
        None => None,
    }
}

impl Capture {
    /// Where the events go.
    pub open spec fn outlet(self) -> Outlet {
        if self.dual {
            Outlet::Dual
        } else if self.vad is Some {
            Outlet::Phrases
        } else {
            Outlet::Nowhere
        }
    }

    /// Nothing heard yet.
    pub open spec fn start(gates: Option<Gates>, dual: bool, preedit_min: nat) -> Capture {
        Capture {
            pcm: Seq::empty(),
            dual,
            preedit_min,
            carry: None,
            vad: match gates {
                Some(g) => Some(Vad::start(g)),
                None => None,
            },
        }
    }

    /// What holds between chunks: no byte is lost. All that was recorded was also passed on to be
    /// divided, but for the first half of a sample that is not complete.
    pub open spec fn wf(self) -> bool {
        &&& !self.dual ==> self.carry is None
        &&& match self.vad {
            Some(v) => v.wf() && v.heard + carried(self.carry) == self.pcm && (self.dual
                ==> v.heard.len() % 2 == 0),
            None => true,
        }
    }

    /// The bytes that are ready when `chunk` comes, and the byte carried over to the next.
    pub open spec fn aligned(self, chunk: Seq<u8>) -> (Seq<u8>, Option<u8>) {
        let all = carried(self.carry) + chunk;
        if self.dual && all.len() % 2 == 1 {
            (all.drop_last(), Some(all.last()))
        } else {
            (all, None)
        }
    }

    /// After a chunk of sound, and the events that it makes.
    pub open spec fn collected(self, chunk: Seq<u8>) -> (Capture, Seq<Heard>) {
        let (ready, carry) = self.aligned(chunk);
        let first = if self.dual && ready.len() > 0 && stream_vad::loud(self.preedit_min, ready) {
            seq![Heard::Chunk(ready)]
        } else {
            seq![]
        };
        let (vad, rest) = match self.vad {
            Some(v) => (Some(v.pushed(ready).0), segments(v.pushed(ready).1)),
            None => (None, seq![]),
        };
        (Capture { pcm: self.pcm + chunk, carry, vad, ..self }, first + rest)
    }

    /// After the last chunk, and the events that the end makes.
    pub open spec fn ended(self) -> (Capture, Seq<Heard>) {
        match self.vad {
            Some(v) => (
                Capture { vad: Some(v.flushed().0), ..self },
                match v.flushed().1 {
                    Some(b) => seq![Heard::Segment(b)],
                    None => seq![],
                },
            ),
            None => (self, seq![]),
        }
    }
}

impl LiveCapture {
    /// A recording that is not divided into phrases.
    pub fn start() -> (r: Self)
        ensures
            r@ == Capture::start(None, false, 0),
            r@.wf(),
    {
        Self::start_inner(None, PhraseGates::default(), false, 0)
    }

    /// A recording that is divided into phrases; only near-silence is dropped.
    pub fn start_streaming(vad: VadConfig) -> (r: Self)
        requires
            stream_vad::fits(vad),
        ensures
            r@ == Capture::start(Some(stream_vad::gates_of(vad)), false, 0),
            r@.wf(),
    {
        Self::start_streaming_gated(vad, PhraseGates::default())
    }

    /// A recording that is divided into phrases, of which those count that are as loud as `gates`
    /// asks.
    pub fn start_streaming_gated(vad: VadConfig, gates: PhraseGates) -> (r: Self)
        requires
            stream_vad::fits(vad),
        ensures
            r@ == Capture::start(Some(stream_vad::gates_with(vad, gates)), false, 0),
            r@.wf(),
    {
        Self::start_inner(Some(vad), gates, false, 0)
    }

    /// A recording that is divided into phrases, of which only near-silence is dropped, and passed
    /// on chunk by chunk as it comes.
    pub fn start_dual(vad: VadConfig) -> (r: Self)
        requires
            stream_vad::fits(vad),
        ensures
            r@ == Capture::start(Some(stream_vad::gates_of(vad)), true, 0),
            r@.wf(),
    {
        Self::start_inner(Some(vad), PhraseGates::default(), true, 0)
    }

    /// A recording that is divided into phrases, of which those count that are as loud as `gates`
    /// asks, and passed on as it comes, but for the chunks that are less loud than `tune` asks.
    pub fn start_dual_gated(vad: VadConfig, gates: PhraseGates, tune: CaptureTune) -> (r: Self)
        requires
            stream_vad::fits(vad),
        ensures
            r@ == Capture::start(
                Some(stream_vad::gates_with(vad, gates)),
                true,
                tune.preedit_min_rms_milli as nat,
            ),
            r@.wf(),
    {
        Self::start_inner(Some(vad), gates, true, tune.preedit_min_rms_milli)
    }

    /// A recording that is divided into phrases if `vad` says how, of which those count that are as
    /// loud as `gates` asks, and, if it is `dual`, passed on as it comes, but for the chunks whose RMS
    /// stays below `preedit_min` thousandths.
    pub fn start_inner(
        vad: Option<VadConfig>,
        gates: PhraseGates,
        dual: bool,
        preedit_min: u32,
    ) -> (r: Self)
        requires
            vad matches Some(cfg) ==> stream_vad::fits(cfg),
        ensures
            r@ == Capture::start(division(vad, gates), dual, preedit_min as nat),
            r@.wf(),
    {
        let segmenter = match vad {
            Some(cfg) => Some(Segmenter::gated(cfg, gates)),
            None => None,
        };
        let r = LiveCapture { pcm: Vec::new(), dual, preedit_min, odd_carry: None, segmenter };
        if r.segmenter.is_some() {
            assert(r@.vad->Some_0.heard + carried(None) =~= r@.pcm);
        }
        r
    }

    /// Where the events of this recording go.
    pub fn outlet(&self) -> (r: Outlet)
        ensures
            r == self@.outlet(),
    {
        if self.dual {
            Outlet::Dual
        } else if self.segmenter.is_some() {
            Outlet::Phrases
        } else {
            Outlet::Nowhere
        }
    }

    /// The bytes that are ready when `chunk` comes; what is left over is carried.
    fn align(&mut self, chunk: &[u8]) -> (r: Vec<u8>)
        ensures
            (r@, final(self)@.carry) == old(self)@.aligned(chunk@),
            final(self)@ == (Capture { carry: final(self)@.carry, ..old(self)@ }),
    {
        let mut ready: Vec<u8> = Vec::new();
        match self.odd_carry {
            Some(b) => ready.push(b),
            None => {},
        }
        ready.extend_from_slice(chunk);
        assert(ready@ =~= carried(old(self)@.carry) + chunk@);
        self.odd_carry = None;
        if self.dual && ready.len() % 2 == 1 {
            self.odd_carry = ready.pop();
        }
        ready
    }

    /// Passes bytes on to be divided into phrases.
    fn divide(&mut self, ready: &Vec<u8>, out: &mut Vec<DualEvent>)
        requires
            old(self)@.vad matches Some(v) ==> v.wf() && v.heard.len() + ready.len() <= usize::MAX,
        ensures
            match old(self)@.vad {
                Some(v) => {
                    &&& final(self)@ == (Capture { vad: Some(v.pushed(ready@).0), ..old(self)@ })
                    &&& v.pushed(ready@).0.wf()
                    &&& heards(final(out)@) == heards(old(out)@) + segments(v.pushed(ready@).1)
                },
                None => final(self)@ == old(self)@ && final(out)@ == old(out)@,
            },
    {
        let mut seg = None;
        core::mem::swap(&mut seg, &mut self.segmenter);
        match seg {
            Some(mut s) => {
                let found = s.push(ready.as_slice());
                self.segmenter = Some(s);
                append_segments(found, out);
            },
            None => {},
        }
    }

    /// Takes in a chunk of sound and returns the events that it makes.
    pub fn collect(&mut self, chunk: &[u8]) -> (r: Vec<DualEvent>)
        requires
            old(self)@.wf(),
            old(self)@.pcm.len() + chunk@.len() <= usize::MAX,
        ensures
            final(self)@.wf(),
            (final(self)@, heards(r@)) == old(self)@.collected(chunk@),
    {
        let ghost was = self@;
        let ready = self.align(chunk);
        self.pcm.extend_from_slice(chunk);
        let mut out: Vec<DualEvent> = Vec::new();
        let pass = self.dual && ready.len() > 0 && stream_vad::is_loud(
            self.preedit_min,
            ready.as_slice(),
        );
        if pass {
            out.push(DualEvent::Chunk(ready.clone()));
        }
        let ghost first = if was.dual && ready@.len() > 0 && stream_vad::loud(
            was.preedit_min,
            ready@,
        ) {
            seq![Heard::Chunk(ready@)]
        } else {
            seq![]
        };
        proof {
            assert(heards(out@) =~= first);
            assert(self.pcm@ =~= was.pcm + chunk@);
            lemma_aligned(was, chunk@);
        }
        self.divide(&ready, &mut out);
        assert(first + Seq::<Heard>::empty() =~= first);
        out
    }

    /// The end of the sound: closes the phrase that is still open.
    pub fn end(&mut self) -> (r: Vec<DualEvent>)
        requires
            old(self)@.wf(),
        ensures
            final(self)@.wf(),
            (final(self)@, heards(r@)) == old(self)@.ended(),
    {
        let ghost was = self@;
        let mut out: Vec<DualEvent> = Vec::new();
        let mut seg = None;
        core::mem::swap(&mut seg, &mut self.segmenter);
        match seg {
            Some(mut s) => {
                assert(was.vad == Some(s@));
                let last = s.flush();
                self.segmenter = Some(s);
                match last {
                    Some(x) => out.push(DualEvent::Segment(x)),
                    None => {},
                }
            },
            None => {},
        }
        assert(heards(out@) =~= was.ended().1);
        out
    }

    /// All sound.
    pub fn finish(self) -> (r: Vec<u8>)
        ensures
            r@ == self@.pcm,
    {
        self.pcm
    }
}

fn append_segments(found: Vec<SpeechSegment>, out: &mut Vec<DualEvent>)
    ensures
        heards(final(out)@) == heards(old(out)@) + segments(pcms(found@)),
{
    let ghost all = segments(pcms(found@));
    assert(heards(out@) =~= heards(old(out)@) + all.take(0));
    for s in it: found
        invariant
            it.seq() == found@,
            all == segments(pcms(found@)),
            heards(out@) == heards(old(out)@) + all.take(it.index()),
    {
        let ghost before = out@;
        let ghost k = it.index();
        assert(s == found@[k]);
        out.push(DualEvent::Segment(s));
        assert(heards(out@) =~= heards(before).push(Heard::Segment(s.pcm@)));
        assert(all.take(k + 1) =~= all.take(k).push(all[k]));
        assert(heards(out@) =~= heards(old(out)@) + all.take(k + 1));
    }
    assert(all.take(all.len() as int) =~= all);
}

/// Aligning loses no byte and, where chunks are passed on, leaves whole samples.
proof fn lemma_aligned(c: Capture, chunk: Seq<u8>)
    requires
        c.wf(),
    ensures
        ({
            let (ready, carry) = c.aligned(chunk);
            &&& ready + carried(carry) == carried(c.carry) + chunk
            &&& c.dual ==> ready.len() % 2 == 0
            &&& !c.dual ==> carry is None
            &&& c.vad matches Some(v) ==> {
                &&& (v.heard + ready) + carried(carry) == c.pcm + chunk
                &&& v.heard.len() + ready.len() <= c.pcm.len() + chunk.len()
            }
        }),
{
    let (ready, carry) = c.aligned(chunk);
    assert(ready + carried(carry) =~= carried(c.carry) + chunk);
    if let Some(v) = c.vad {
        assert((v.heard + ready) + carried(carry) =~= v.heard + (ready + carried(carry)));
        assert(v.heard + (carried(c.carry) + chunk) =~= (v.heard + carried(c.carry)) + chunk);
    }
}

/// The events of a chunk: whole samples come first, if they are loud enough to be passed on, and are
/// what was recorded, then only phrases. No byte is lost on the way.
pub proof fn chunks_come_first(c: Capture, chunk: Seq<u8>)
    requires
        c.wf(),
        c.dual,
    ensures
        ({
            let (after, events) = c.collected(chunk);
            let (ready, carry) = c.aligned(chunk);
            &&& after.wf()
            &&& ready + carried(after.carry) == carried(c.carry) + chunk
            &&& after.pcm == c.pcm + chunk
            &&& c.vad is Some ==> after.vad->Some_0.heard + carried(after.carry) == after.pcm
            &&& ready.len() % 2 == 0
            &&& ready.len() > 0 && stream_vad::loud(c.preedit_min, ready) ==> events.len() > 0
                && events[0] == Heard::Chunk(ready)
            &&& forall|i: int|
                0 <= i < events.len() ==> (#[trigger] events[i] is Chunk <==> i == 0 && ready.len()
                    > 0 && stream_vad::loud(c.preedit_min, ready))
        }),
{
    lemma_aligned(c, chunk);
    if let Some(v) = c.vad {
        stream_vad::segments_are_sound(v, c.aligned(chunk).0);
    }
}

/// The sound of the chunks among events.
pub open spec fn passed_on(events: Seq<Heard>) -> Seq<u8>
    decreases events.len(),
{
    if events.len() == 0 {
        seq![]
    } else {
        match events.last() {
            Heard::Chunk(b) => passed_on(events.drop_last()) + b,
            Heard::Segment(_) => passed_on(events.drop_last()),
        }
    }
}

/// Whether each phrase among events is the slice at its place in `spans` of the sound passed on
/// before it, and none overlaps an earlier one or comes before it in the sound.
pub open spec fn in_order(events: Seq<Heard>, spans: Seq<(int, int)>) -> bool {
    &&& spans.len() == events.len()
    &&& forall|i: int|
        0 <= i < events.len() && (#[trigger] events[i]) is Segment ==> {
            let before = passed_on(events.take(i));
            let (a, b) = spans[i];
            0 <= a < b <= before.len() && events[i] == Heard::Segment(before.subrange(a, b))
        }
    &&& forall|i: int, j: int|
        0 <= i < j < events.len() && (#[trigger] events[i]) is Segment && (#[trigger] events[j]) is Segment
            ==> spans[i].1 <= spans[j].0
}

impl Capture {
    /// After chunks of sound, one after another, and the events that they make.
    pub open spec fn collected_all(self, chunks: Seq<Seq<u8>>) -> (Capture, Seq<Heard>)
        decreases chunks.len(),
    {
        if chunks.len() == 0 {
            (self, seq![])
        } else {
            let (c, events) = self.collected_all(chunks.drop_last());
            let (d, more) = c.collected(chunks.last());
            (d, events + more)
        }
    }

    /// All events of a recording: those of its chunks, and that of its end.
    pub open spec fn recorded(self, chunks: Seq<Seq<u8>>) -> Seq<Heard> {
        let (c, events) = self.collected_all(chunks);
        events + c.ended().1
    }
}

proof fn lemma_passed_on(events: Seq<Heard>, phrases: Seq<Seq<u8>>)
    ensures
        passed_on(events + segments(phrases)) == passed_on(events),
    decreases phrases.len(),
{
    let all = events + segments(phrases);
    if phrases.len() == 0 {
        assert(all =~= events);
    } else {
        assert(all.drop_last() =~= events + segments(phrases.drop_last()));
        lemma_passed_on(events, phrases.drop_last());
    }
}

/// Phrases that are slices of the sound passed on, from `from` on, keep events in order.
proof fn lemma_in_order(
    events: Seq<Heard>,
    spans: Seq<(int, int)>,
    ranges: Seq<(int, int)>,
    from: int,
    to: int,
)
    requires
        in_order(events, spans),
        forall|i: int|
            0 <= i < events.len() && (#[trigger] events[i]) is Segment ==> spans[i].1 <= from,
        forall|i: int|
            0 <= i < ranges.len() ==> from <= (#[trigger] ranges[i]).0 < ranges[i].1 <= to,
        forall|i: int, j: int|
            0 <= i < j < ranges.len() ==> (#[trigger] ranges[i]).1 <= (#[trigger] ranges[j]).0,
        0 <= from <= to <= passed_on(events).len(),
    ensures
        ({
            let phrases = stream_vad::slices(passed_on(events), ranges);
            let all = events + segments(phrases);
            &&& in_order(all, spans + ranges)
            &&& passed_on(all) == passed_on(events)
            &&& forall|i: int|
                0 <= i < all.len() && (#[trigger] all[i]) is Segment ==> (spans + ranges)[i].1 <= to
        }),
{
    let heard = passed_on(events);
    let phrases = stream_vad::slices(heard, ranges);
    let all = events + segments(phrases);
    let places = spans + ranges;
    let n = events.len() as int;
    lemma_passed_on(events, phrases);
    assert forall|i: int| 0 <= i < all.len() && (#[trigger] all[i]) is Segment implies ({
        let before = passed_on(all.take(i));
        let (a, b) = places[i];
        0 <= a < b <= before.len() && all[i] == Heard::Segment(before.subrange(a, b))
    }) by {
        if i < n {
            assert(all.take(i) =~= events.take(i));
            assert(all[i] == events[i]);
        } else {
            assert(all.take(i) =~= events + segments(phrases.take(i - n)));
            lemma_passed_on(events, phrases.take(i - n));
            assert(places[i] == ranges[i - n]);
            assert(all[i] == Heard::Segment(phrases[i - n]));
        }
    }
    assert forall|i: int, j: int|
        0 <= i < j < all.len() && (#[trigger] all[i]) is Segment && (#[trigger] all[j]) is Segment implies places[i].1
        <= places[j].0 by {
        if j < n {
            assert(all[i] == events[i] && all[j] == events[j]);
        } else if i < n {
            assert(all[i] == events[i] && places[j] == ranges[j - n]);
        } else {
            assert(places[i] == ranges[i - n] && places[j] == ranges[j - n]);
        }
    }
    assert forall|i: int| 0 <= i < all.len() && (#[trigger] all[i]) is Segment implies places[i].1
        <= to by {
        if i < n {
            assert(all[i] == events[i]);
        } else {
            assert(places[i] == ranges[i - n]);
        }
    }
}

/// A chunk that is passed on keeps events in order.
proof fn lemma_chunk_in_order(events: Seq<Heard>, spans: Seq<(int, int)>, b: Seq<u8>)
    requires
        in_order(events, spans),
    ensures
        in_order(events.push(Heard::Chunk(b)), spans.push((0, 0))),
        passed_on(events.push(Heard::Chunk(b))) == passed_on(events) + b,
{
    let all = events.push(Heard::Chunk(b));
    assert(all.drop_last() =~= events);
    assert forall|i: int| 0 <= i < all.len() && (#[trigger] all[i]) is Segment implies ({
        let before = passed_on(all.take(i));
        let (x, y) = spans.push((0, 0))[i];
        0 <= x < y <= before.len() && all[i] == Heard::Segment(before.subrange(x, y))
    }) by {
        assert(all.take(i) =~= events.take(i));
        assert(all[i] == events[i]);
    }
    assert forall|i: int, j: int|
        0 <= i < j < all.len() && (#[trigger] all[i]) is Segment && (#[trigger] all[j]) is Segment implies spans.push(
        (0, 0),
    )[i].1 <= spans.push((0, 0))[j].0 by {
        assert(all[i] == events[i] && all[j] == events[j]);
    }
}

/// What holds of the events of a recording that is passed on as it comes.
spec fn run_so_far(c: Capture, events: Seq<Heard>, spans: Seq<(int, int)>) -> bool {
    &&& c.wf() && c.dual && c.preedit_min == 0 && c.vad is Some
    &&& passed_on(events) == c.vad->Some_0.heard
    &&& in_order(events, spans)
    &&& forall|i: int|
        0 <= i < events.len() && (#[trigger] events[i]) is Segment ==> spans[i].1
            <= stream_vad::open_from(c.vad->Some_0)
    &&& stream_vad::open_from(c.vad->Some_0) <= c.vad->Some_0.heard.len()
}

proof fn lemma_run_step(c: Capture, events: Seq<Heard>, spans: Seq<(int, int)>, chunk: Seq<u8>) -> (r:
    Seq<(int, int)>)
    requires
        run_so_far(c, events, spans),
    ensures
        run_so_far(c.collected(chunk).0, events + c.collected(chunk).1, r),
{
    let v = c.vad->Some_0;
    let ready = c.aligned(chunk).0;
    let after = v.pushed(ready).0;
    let ranges = stream_vad::scan(v.gates, v.heard + ready, v.cursor, v.phase).2;
    let (from, to) = (stream_vad::open_from(v) as int, stream_vad::open_from(after) as int);
    chunks_come_first(c, chunk);
    stream_vad::segments_are_sound(v, ready);
    stream_vad::zero_is_always_reached(ready);
    let more = c.collected(chunk).1;
    let phrases = segments(v.pushed(ready).1);
    let (now, places) = if ready.len() > 0 {
        (events.push(Heard::Chunk(ready)), spans.push((0, 0)))
    } else {
        (events, spans)
    };
    if ready.len() > 0 {
        lemma_chunk_in_order(events, spans, ready);
    } else {
        assert(v.heard + ready =~= v.heard);
    }
    assert forall|i: int| 0 <= i < now.len() && (#[trigger] now[i]) is Segment implies places[i].1
        <= from by {
        assert(now[i] == events[i]);
    }
    assert(forall|i: int|
        0 <= i < ranges.len() ==> from <= (#[trigger] ranges[i]).0 < ranges[i].1 <= to);
    lemma_in_order(now, places, ranges, from, to);
    assert(events + more =~= now + phrases);
    places + ranges
}

proof fn lemma_run(gates: Gates, chunks: Seq<Seq<u8>>) -> (spans: Seq<(int, int)>)
    requires
        Vad::start(gates).wf(),
    ensures
        ({
            let (c, events) = Capture::start(Some(gates), true, 0).collected_all(chunks);
            run_so_far(c, events, spans)
        }),
    decreases chunks.len(),
{
    let start = Capture::start(Some(gates), true, 0);
    if chunks.len() == 0 {
        assert(start.vad->Some_0.heard + carried(None) =~= start.pcm);
        seq![]
    } else {
        let spans = lemma_run(gates, chunks.drop_last());
        let (c, events) = start.collected_all(chunks.drop_last());
        lemma_run_step(c, events, spans, chunks.last())
    }
}

/// Over a whole recording that is passed on as it comes, each phrase is a slice of the chunks that
/// came before it, and phrases come in the order of the sound, one that the end closes last. The
/// chunks are not empty, made of whole samples, and all that was recorded, but for the first half of
/// a sample that never was complete. All come out in one order.
pub proof fn recordings_are_in_order(cfg: VadConfig, gates: PhraseGates, chunks: Seq<Seq<u8>>)
    ensures
        ({
            let start = Capture::start(Some(stream_vad::gates_with(cfg, gates)), true, 0);
            let events = start.recorded(chunks);
            let c = start.collected_all(chunks).0;
            &&& start.outlet() == Outlet::Dual
            &&& exists|spans: Seq<(int, int)>| in_order(events, spans)
            &&& forall|i: int|
                0 <= i < events.len() ==> ((#[trigger] events[i]) matches Heard::Chunk(b) ==> b.len()
                    > 0 && b.len() % 2 == 0)
            &&& passed_on(events) + carried(c.carry) == stream_vad::all_of(chunks)
            &&& c.ended().1.len() <= 1
            &&& c.ended().1.len() == 1 ==> events.last() is Segment
        }),
{
    let g = stream_vad::gates_with(cfg, gates);
    let start = Capture::start(Some(g), true, 0);
    let spans = lemma_run(g, chunks);
    let (c, events) = start.collected_all(chunks);
    let v = c.vad->Some_0;
    let from = stream_vad::open_from(v) as int;
    let to = v.heard.len() as int;
    lemma_pcm(start, chunks);
    assert(start.pcm + stream_vad::all_of(chunks) =~= stream_vad::all_of(chunks));
    let last = c.ended().1;
    let ranges = if last.len() == 0 {
        seq![]
    } else {
        seq![(from, to)]
    };
    lemma_in_order(events, spans, ranges, from, to);
    let phrases = stream_vad::slices(v.heard, ranges);
    assert(segments(phrases) =~= last);
    assert(in_order(events + last, spans + ranges));
    lemma_whole_samples(g, 0, chunks);
    let all = start.recorded(chunks);
    assert forall|i: int| 0 <= i < all.len() implies ((#[trigger] all[i]) matches Heard::Chunk(b)
        ==> b.len() > 0 && b.len() % 2 == 0) by {
        if i < events.len() {
            assert(all[i] == events[i]);
        }
    }
}

proof fn lemma_pcm(c: Capture, chunks: Seq<Seq<u8>>)
    ensures
        c.collected_all(chunks).0.pcm == c.pcm + stream_vad::all_of(chunks),
    decreases chunks.len(),
{
    if chunks.len() == 0 {
        assert(c.pcm + stream_vad::all_of(chunks) =~= c.pcm);
    } else {
        lemma_pcm(c, chunks.drop_last());
        assert(c.pcm + stream_vad::all_of(chunks) =~= (c.pcm + stream_vad::all_of(
            chunks.drop_last(),
        )) + chunks.last());
    }
}

/// Whatever loudness a chunk needs to be passed on: every chunk among the events of a recording is
/// that loud, not empty, and made of whole samples.
pub proof fn chunks_are_whole_samples(
    cfg: VadConfig,
    gates: PhraseGates,
    preedit_min: nat,
    chunks: Seq<Seq<u8>>,
    i: int,
)
    requires
        ({
            let start = Capture::start(Some(stream_vad::gates_with(cfg, gates)), true, preedit_min);
            0 <= i < start.recorded(chunks).len() && start.recorded(chunks)[i] is Chunk
        }),
    ensures
        ({
            let start = Capture::start(Some(stream_vad::gates_with(cfg, gates)), true, preedit_min);
            let b = start.recorded(chunks)[i]->Chunk_0;
            b.len() > 0 && b.len() % 2 == 0 && stream_vad::loud(preedit_min, b)
        }),
{
    let g = stream_vad::gates_with(cfg, gates);
    lemma_whole_samples(g, preedit_min, chunks);
    let start = Capture::start(Some(g), true, preedit_min);
    let (c, events) = start.collected_all(chunks);
    assert(i < events.len());
    assert(start.recorded(chunks)[i] == events[i]);
}

proof fn lemma_whole_samples(gates: Gates, preedit_min: nat, chunks: Seq<Seq<u8>>)
    requires
        Vad::start(gates).wf(),
    ensures
        ({
            let (c, events) = Capture::start(Some(gates), true, preedit_min).collected_all(chunks);
            &&& c.wf() && c.dual && c.preedit_min == preedit_min && c.vad is Some
            &&& forall|i: int|
                0 <= i < events.len() ==> ((#[trigger] events[i]) matches Heard::Chunk(b) ==> b.len()
                    > 0 && b.len() % 2 == 0 && stream_vad::loud(preedit_min, b))
        }),
    decreases chunks.len(),
{
    let start = Capture::start(Some(gates), true, preedit_min);
    if chunks.len() == 0 {
        assert(start.vad->Some_0.heard + carried(None) =~= start.pcm);
    } else {
        lemma_whole_samples(gates, preedit_min, chunks.drop_last());
        let (c, events) = start.collected_all(chunks.drop_last());
        chunks_come_first(c, chunks.last());
        let more = c.collected(chunks.last()).1;
        let all = events + more;
        assert forall|i: int| 0 <= i < all.len() implies ((#[trigger] all[i]) matches Heard::Chunk(
            b,
        ) ==> b.len() > 0 && b.len() % 2 == 0 && stream_vad::loud(preedit_min, b)) by {
            if i < events.len() {
                assert(all[i] == events[i]);
            } else {
                assert(all[i] == more[i - events.len()]);
            }
        }
    }
}

/// A recording that is not passed on makes no chunk events, and one that is not divided none at
/// all; both keep every byte.
pub proof fn plain_recordings_keep_all(c: Capture, chunk: Seq<u8>, i: int)
    requires
        c.wf(),
        !c.dual,
    ensures
        c.collected(chunk).0.pcm == c.pcm + chunk,
        c.vad is None ==> c.collected(chunk).1.len() == 0 && c.ended().1.len() == 0,
        0 <= i < c.collected(chunk).1.len() ==> c.collected(chunk).1[i] is Segment,
{
}

/// Why a phrase is not recognised.
#[derive(Debug, Clone, Copy, PartialEq, Eq, Structural)]
pub enum SegmentError {
    /// Under a quarter of a second.
    TooShort,
    /// Hardly any sound.
    Silent,
}

/// Why a recording is not recognised.
#[derive(Debug, Clone, Copy, PartialEq, Eq, Structural)]
pub enum TakeError {
    /// Under two fifths of a second.
    TooShort,
    /// Hardly any sound.
    NoSignal { peak: i32 },
}

/// The peak under which there is hardly any sound.
pub const SILENT_PEAK: i32 = 120;

/// What is wrong with a phrase.
pub open spec fn segment_fault(sample_rate: u32, pcm: Seq<u8>) -> Option<SegmentError> {
    if pcm.len() < sample_rate * 2 / 4 {
        Some(SegmentError::TooShort)
    } else if wav::peak_of(wav::samples(pcm)) < SILENT_PEAK {
        Some(SegmentError::Silent)
    } else {
        None
    }
}

/// Whether a phrase is fit to be recognised.
pub fn check_segment(sample_rate: u32, pcm: &[u8]) -> (r: Result<(), SegmentError>)
    ensures
        match segment_fault(sample_rate, pcm@) {
            Some(e) => r == Err::<(), SegmentError>(e),
            None => r is Ok,
        },
{
    if (pcm.len() as u64) < (sample_rate as u64) * 2 / 4 {
        return Err(SegmentError::TooShort);
    }
    if wav::pcm16_levels(pcm).peak < SILENT_PEAK {
        return Err(SegmentError::Silent);
    }
    Ok(())
}

/// What is wrong with a recording.
pub open spec fn take_fault(sample_rate: u32, pcm: Seq<u8>) -> Option<TakeError> {
    if pcm.len() < sample_rate * 2 * 2 / 5 {
        Some(TakeError::TooShort)
    } else if wav::peak_of(wav::samples(pcm)) < SILENT_PEAK {
        Some(TakeError::NoSignal { peak: wav::peak_of(wav::samples(pcm)) as i32 })
    } else {
        None
    }
}

/// Whether a recording is fit to be recognised.
pub fn check_take(sample_rate: u32, pcm: &[u8]) -> (r: Result<(), TakeError>)
    ensures
        match take_fault(sample_rate, pcm@) {
            Some(e) => r == Err::<(), TakeError>(e),
            None => r is Ok,
        },
{
    if (pcm.len() as u64) < (sample_rate as u64) * 2 * 2 / 5 {
        return Err(TakeError::TooShort);
    }
    let peak: i32 = wav::pcm16_levels(pcm).peak;
    if peak < SILENT_PEAK {
        return Err(TakeError::NoSignal { peak });
    }
    Ok(())
}

/// The words that name the microphone, if a name was found.
pub open spec fn source_hint(printed: Option<Seq<char>>) -> Seq<char> {
    match printed {
        Some(t) => if text::trimmed(t).len() > 0 {
            "，当前输入="@ + text::trimmed(t)
        } else {
            seq![]
        },
        None => seq![],
    }
}

/// The words that name the microphone, from what `pactl get-default-source` printed.
pub fn default_source_hint(printed: Option<&str>) -> (r: String)
    ensures
        r@ == source_hint(text::opt_str(printed)),
{
    match printed {
        Some(t) => {
            let name = text::trim(t);
            if name.unicode_len() > 0 {
                text::cat("，当前输入=", name)
            } else {
                String::new()
            }
        },
        None => String::new(),
    }
}

/// Who recognises a recording, and with which options.
#[derive(Debug, Clone, Copy, PartialEq, Eq, Structural)]
pub enum Engine {
    Qwen3,
    /// whisper.cpp; traditional characters may be turned into simplified ones.
    Whisper { to_simplified: bool },
    Xai,
    /// Qwen3-ASR is asked for and its model is not there.
    NotReady,
}

/// Whether a language may come out in traditional characters.
pub open spec fn may_be_traditional(language: Seq<char>) -> bool {
    language == "zh"@ || language == "chinese"@ || language == "auto"@
}

/// Chooses who recognises a recording.
pub fn engine_for(cfg: &Config, qwen3_ready: bool) -> (r: Engine)
    ensures
        r == match cfg@.provider {
            Provider::Qwen3 => if qwen3_ready {
                Engine::Qwen3
            } else {
                Engine::NotReady
            },
            Provider::Local => Engine::Whisper {
                to_simplified: may_be_traditional(cfg@.language),
            },
            Provider::Xai => Engine::Xai,
        },
{
    match cfg.provider {
        Provider::Qwen3 => if qwen3_ready {
            Engine::Qwen3
        } else {
            Engine::NotReady
        },
        Provider::Local => {
            let lang = cfg.language.as_str();
            let to_simplified = text::same(lang, "zh") || text::same(lang, "chinese") || text::same(
                lang,
                "auto",
            );
            Engine::Whisper { to_simplified }
        },
        Provider::Xai => Engine::Xai,
    }
}

/// A recording that ends gives the phrase that was still open, from where its speech began to the end of
/// what was divided, if it is long and loud enough, and nothing else; the sound stays as it is.
pub proof fn the_end_gives_the_open_phrase(c: Capture, start: nat, silence: nat)
    requires
        c.wf(),
        c.vad is Some,
    ensures
        ({
            let v = c.vad->Some_0;
            let open = v.heard.skip(start as int);
            let (after, events) = c.ended();
            let kept = open.len() >= v.gates.min_speech && wav::peak_of(wav::samples(open))
                >= v.gates.min_peak && stream_vad::loud(v.gates.min_rms, open);
            &&& after.pcm == c.pcm && after.carry == c.carry && after.dual == c.dual
            &&& v.phase is Silence ==> events.len() == 0
            &&& v.phase == (stream_vad::Listening::Speech { start, silence }) && kept ==> events
                == seq![Heard::Segment(open)]
            &&& v.phase == (stream_vad::Listening::Speech { start, silence }) && !kept ==> events.len() == 0
        }),
{
    let v = c.vad->Some_0;
    if v.phase is Silence {
        stream_vad::stopping_in_silence_gives_nothing(v);
    }
    if v.phase == (stream_vad::Listening::Speech { start, silence }) {
        stream_vad::stopping_keeps_open_speech(v, start, silence);
    }
}

/// The phrases of a chunk are those that its bytes complete, all of them and in order, behind the chunk.
pub proof fn every_phrase_comes_out(c: Capture, chunk: Seq<u8>, i: int)
    requires
        c.wf(),
        c.vad is Some,
    ensures
        ({
            let (after, events) = c.collected(chunk);
            let ready = c.aligned(chunk).0;
            let phrases = c.vad->Some_0.pushed(ready).1;
            let front = events.len() - phrases.len();
            &&& after.vad == Some(c.vad->Some_0.pushed(ready).0)
            &&& after.pcm == c.pcm + chunk
            &&& 0 <= front <= 1
            &&& front == 1 <==> c.dual && ready.len() > 0 && stream_vad::loud(c.preedit_min, ready)
            &&& 0 <= i < phrases.len() ==> events[front + i] == Heard::Segment(phrases[i])
            &&& !c.dual ==> ready == chunk
            &&& c.dual ==> ready.len() % 2 == 0 && carried(c.carry).len() + chunk.len() <= ready.len() + 1
        }),
{
    lemma_aligned(c, chunk);
    if !c.dual {
        assert(carried(c.carry) + chunk =~= chunk);
    }
}

/// A recording starts with nothing heard; it is divided exactly if it is said how, and its events go where
/// that and passing on lead.
pub proof fn recordings_start_empty(gates: Option<Gates>, dual: bool, preedit_min: nat)
    ensures
        ({
            let c = Capture::start(gates, dual, preedit_min);
            &&& c.pcm.len() == 0 && c.carry is None && c.dual == dual && c.preedit_min == preedit_min
            &&& c.vad is Some <==> gates is Some
            &&& c.vad matches Some(v) ==> v.heard.len() == 0 && v.gates == gates->Some_0
            &&& dual <==> c.outlet() == Outlet::Dual
            &&& !dual && gates is Some <==> c.outlet() == Outlet::Phrases
            &&& !dual && gates is None <==> c.outlet() == Outlet::Nowhere
        }),
{
}

/// A phrase is recognised exactly if it lasts a quarter of a second and has a peak of 120; a recording, if it
/// lasts two fifths of a second and has that peak. Length is looked at first.
pub proof fn sound_is_fit_from_a_length_and_a_peak(rate: u32, pcm: Seq<u8>)
    ensures
        ({
            let peak = wav::peak_of(wav::samples(pcm));
            &&& 2 * pcm.len() + 1 < rate ==> segment_fault(rate, pcm) == Some(SegmentError::TooShort)
            &&& 2 * pcm.len() >= rate && peak < 120 ==> segment_fault(rate, pcm) == Some(
                SegmentError::Silent,
            )
            &&& 2 * pcm.len() >= rate && peak >= 120 ==> segment_fault(rate, pcm) is None
            &&& 2 * pcm.len() + 1 == rate && peak >= 120 ==> segment_fault(rate, pcm) is None
            &&& 2 * pcm.len() + 1 == rate && peak < 120 ==> segment_fault(rate, pcm) == Some(
                SegmentError::Silent,
            )
            &&& 5 * pcm.len() + 5 <= 4 * rate ==> take_fault(rate, pcm) == Some(TakeError::TooShort)
            &&& 5 * pcm.len() + 5 > 4 * rate && peak < 120 ==> take_fault(rate, pcm) == Some(
                TakeError::NoSignal { peak: peak as i32 },
            )
            &&& 5 * pcm.len() + 5 > 4 * rate && peak >= 120 ==> take_fault(rate, pcm) is None
        }),
{
}

/// The microphone is named in the hint without the white space around its name, and no name gives no hint.
pub proof fn hints_name_the_microphone(t: Seq<char>)
    ensures
        text::trimmed(t).len() > 0 ==> source_hint(Some(t)) == "，当前输入="@ + text::trimmed(t),
        text::trimmed(t).len() == 0 ==> source_hint(Some(t)).len() == 0,
        source_hint(None).len() == 0,
{
}

/// Only Chinese, by either name, and an open language may come out in traditional characters.
pub proof fn chinese_may_be_traditional(language: Seq<char>)
    ensures
        may_be_traditional(language) <==> language == "zh"@ || language == "chinese"@ || language == "auto"@,
{
}

} // verus!
