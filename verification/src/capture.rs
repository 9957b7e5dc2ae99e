//! The microphone: which program records, with which arguments, and what it delivers.

use crate::pipeline::carried;
use crate::text;
use vstd::prelude::*;

verus! {

/// How many bytes are read at a time: a tenth of a second at 16 kHz.
pub const READ_CHUNK: usize = 3200;

/// A program that records.
#[derive(Debug, Clone, Copy, PartialEq, Eq, Structural)]
pub enum Recorder {
    PwRecord,
    Parec,
    Arecord,
}

/// The name of a program that records.
pub open spec fn program_of(r: Recorder) -> Seq<char> {
    match r {
        Recorder::PwRecord => "pw-record"@,
        Recorder::Parec => "parec"@,
        Recorder::Arecord => "arecord"@,
    }
}

/// The microphone that is meant, if one is named.
pub open spec fn named(device: Option<Seq<char>>) -> Option<Seq<char>> {
    match device {
        Some(d) => if text::trimmed(d).len() == 0 {
            None
        } else {
            Some(text::trimmed(d))
        },
        None => None,
    }
}

/// An option and its value, where there is one.
pub open spec fn with_value(option: Seq<char>, value: Option<Seq<char>>) -> Seq<Seq<char>> {
    match value {
        Some(v) => seq![option, v],
        None => seq![],
    }
}

/// The arguments with which a program records 16-bit mono sound to its output.
pub open spec fn args_of(r: Recorder, rate: u32, device: Option<Seq<char>>) -> Seq<Seq<char>> {
    let hz = text::decimal(rate as nat);
    match r {
        Recorder::PwRecord => seq![
            "--raw"@,
            "--media-category"@,
            "Capture"@,
            "--media-role"@,
            "Communication"@,
            "--rate"@,
            hz,
            "--channels"@,
            "1"@,
            "--format"@,
            "s16"@,
        ] + with_value("--target"@, named(device)) + seq!["-"@],
        Recorder::Parec => seq![
            "--raw"@,
            "--format=s16le"@,
            "--rate="@ + hz,
            "--channels=1"@,
            "--device="@ + match named(device) {
                Some(d) => d,
                None => "@DEFAULT_SOURCE@"@,
            },
        ],
        Recorder::Arecord => seq![
            "-q"@,
            "-t"@,
            "raw"@,
            "-f"@,
            "S16_LE"@,
            "-c"@,
            "1"@,
            "-r"@,
            hz,
        ] + with_value("-D"@, named(device)) + seq!["-"@],
    }
}

fn pick_device(device: Option<&str>) -> (r: Option<&str>)
    ensures
        text::opt_str(r) == named(text::opt_str(device)),
{
    match device {
        Some(d) => {
            let d = text::trim(d);
            if d.unicode_len() == 0 {
                None
            } else {
                Some(d)
            }
        },
        None => None,
    }
}

impl Recorder {
    /// The name of the program.
    pub fn program(self) -> (r: &'static str)
        ensures
            r@ == program_of(self),
    {
        match self {
            Recorder::PwRecord => "pw-record",
            Recorder::Parec => "parec",
            Recorder::Arecord => "arecord",
        }
    }

    /// The arguments with which the program records.
    pub fn args(self, rate: u32, device: Option<&str>) -> (r: Vec<String>)
        ensures
            text::texts(r@) == args_of(self, rate, text::opt_str(device)),
    {
        let hz = text::number(rate as u64);
        let source = pick_device(device);
        let mut out: Vec<String> = Vec::new();
        match self {
            Recorder::PwRecord => {
                out.push("--raw".to_string());
                out.push("--media-category".to_string());
                out.push("Capture".to_string());
                out.push("--media-role".to_string());
                out.push("Communication".to_string());
                out.push("--rate".to_string());
                out.push(hz);
                out.push("--channels".to_string());
                out.push("1".to_string());
                out.push("--format".to_string());
                out.push("s16".to_string());
                match source {
                    Some(d) => {
                        out.push("--target".to_string());
                        out.push(d.to_string());
                    },
                    None => {},
                }
                out.push("-".to_string());
            },
            Recorder::Parec => {
                out.push("--raw".to_string());
                out.push("--format=s16le".to_string());
                out.push(text::cat("--rate=", hz.as_str()));
                out.push("--channels=1".to_string());
                out.push(
                    text::cat(
                        "--device=",
                        match source {
                            Some(d) => d,
                            None => "@DEFAULT_SOURCE@",
                        },
                    ),
                );
            },
            Recorder::Arecord => {
                out.push("-q".to_string());
                out.push("-t".to_string());
                out.push("raw".to_string());
                out.push("-f".to_string());
                out.push("S16_LE".to_string());
                out.push("-c".to_string());
                out.push("1".to_string());
                out.push("-r".to_string());
                out.push(hz);
                match source {
                    Some(d) => {
                        out.push("-D".to_string());
                        out.push(d.to_string());
                    },
                    None => {},
                }
                out.push("-".to_string());
            },
        }
        assert(text::texts(out@) =~= args_of(self, rate, text::opt_str(device)));
        out
    }
}

/// The program that records: the first of the three that is installed.
pub fn detect_recorder(pw_record: bool, parec: bool, arecord: bool) -> (r: Option<Recorder>)
    ensures
        r == if pw_record {
            Some(Recorder::PwRecord)
        } else if parec {
            Some(Recorder::Parec)
        } else if arecord {
            Some(Recorder::Arecord)
        } else {
            None
        },
{
    if pw_record {
        Some(Recorder::PwRecord)
    } else if parec {
        Some(Recorder::Parec)
    } else if arecord {
        Some(Recorder::Arecord)
    } else {
        None
    }
}

/// The whole samples that are ready once `read` has come after `carry`, and the byte left over.
pub open spec fn aligned(carry: Option<u8>, read: Seq<u8>) -> (Seq<u8>, Option<u8>) {
    let all = carried(carry) + read;
    if all.len() % 2 == 1 {
        (all.drop_last(), Some(all.last()))
    } else {
        (all, None)
    }
}

/// Cuts what was read into whole samples. A byte left over is carried to the next read.
pub fn align(carry: &mut Option<u8>, read: &[u8]) -> (r: Vec<u8>)
    ensures
        (r@, *final(carry)) == aligned(*old(carry), read@),
{
    let mut chunk: Vec<u8> = Vec::new();
    match *carry {
        Some(b) => chunk.push(b),
        None => {},
    }
    chunk.extend_from_slice(read);
    assert(chunk@ =~= carried(*old(carry)) + read@);
    *carry = None;
    if chunk.len() % 2 == 1 {
        *carry = chunk.pop();
    }
    chunk
}

/// However reads fall, samples are never split and no byte is lost: two reads give the same bytes
/// as one.
pub proof fn alignment_loses_nothing(carry: Option<u8>, a: Seq<u8>, b: Seq<u8>)
    ensures
        ({
            let (x, c) = aligned(carry, a);
            let (y, d) = aligned(c, b);
            &&& x.len() % 2 == 0 && y.len() % 2 == 0
            &&& x + carried(c) == carried(carry) + a
            &&& aligned(carry, a + b) == (x + y, d)
        }),
{
    let (x, c) = aligned(carry, a);
    let (y, d) = aligned(c, b);
    assert(x + carried(c) =~= carried(carry) + a);
    assert(carried(carry) + (a + b) =~= (carried(carry) + a) + b);
    assert((x + carried(c)) + b =~= x + (carried(c) + b));
    assert(y + carried(d) =~= carried(c) + b);
    let all = carried(carry) + (a + b);
    assert(all =~= x + (y + carried(d)));
    if d is Some {
        assert(all.drop_last() =~= x + y);
    } else {
        assert(all =~= x + y);
    }
}

/// The whole samples of a recording that was made to measure its level, or nothing if there is not
/// a single one.
pub fn measured(pcm: Vec<u8>) -> (r: Option<Vec<u8>>)
    ensures
        match r {
            Some(p) => pcm@.len() >= 2 && p@ == pcm@.take(pcm@.len() - pcm@.len() % 2),
            None => pcm@.len() < 2,
        },
{
    if pcm.len() < 2 {
        return None;
    }
    let mut p = pcm;
    if p.len() % 2 == 1 {
        let _ = p.pop();
    }
    assert(p@ =~= pcm@.take(pcm@.len() - pcm@.len() % 2));
    Some(p)
}

/// What a peak says about a microphone.
pub open spec fn level_hint(peak: i32) -> Seq<char> {
    if peak < 200 {
        "信号过弱 — 检查静音/输入设备，或改用内置麦；可设 near_field=false 再试"@
    } else if peak < 1500 {
        "偏轻但可用 — 近讲模式可开；USB 麦可调大系统输入音量"@
    } else if peak > 28000 {
        "很响 — 注意削波；可降低系统输入增益"@
    } else {
        "电平正常"@
    }
}

/// Says what a peak says about a microphone.
pub fn mic_hint(peak: i32) -> (r: &'static str)
    ensures
        r@ == level_hint(peak),
{
    if peak < 200 {
        "信号过弱 — 检查静音/输入设备，或改用内置麦；可设 near_field=false 再试"
    } else if peak < 1500 {
        "偏轻但可用 — 近讲模式可开；USB 麦可调大系统输入音量"
    } else if peak > 28000 {
        "很响 — 注意削波；可降低系统输入增益"
    } else {
        "电平正常"
    }
}

/// The microphone to test: the one asked for, otherwise the one that is set, otherwise the
/// system's default.
pub fn test_device(asked: Option<&str>, set: &str) -> (r: Option<String>)
    ensures
        text::opt_string(r) == match named(text::opt_str(asked)) {
            Some(d) => Some(d),
            None => named(Some(set@)),
        },
{
    match pick_device(asked) {
        Some(d) => Some(d.to_string()),
        None => match pick_device(Some(set)) {
            Some(d) => Some(d.to_string()),
            None => None,
        },
    }
}

/// The microphone that a line of `pactl list short sources` names: its second word, unless it is
/// the monitor of a loudspeaker.
pub open spec fn pactl_source(line: Seq<char>) -> Option<Seq<char>> {
    let ws = text::words_of(line);
    if ws.len() >= 2 && !".monitor"@.is_suffix_of(ws[1]) {
        Some(ws[1])
    } else {
        None
    }
}

/// The microphones that the lines of `pactl list short sources` name.
pub open spec fn pactl_sources(ls: Seq<Seq<char>>) -> Seq<Seq<char>>
    decreases ls.len(),
{
    if ls.len() == 0 {
        seq![]
    } else {
        match pactl_source(ls[0]) {
            Some(d) => seq![d] + pactl_sources(ls.skip(1)),
            None => pactl_sources(ls.skip(1)),
        }
    }
}

/// The microphone that a line of `wpctl status` names: what stands between its first point and a
/// bracket.
pub open spec fn wpctl_source(line: Seq<char>) -> Option<Seq<char>> {
    match text::after(line, '.') {
        Some(rest) => {
            let name = text::trimmed(text::up_to(text::trimmed(rest), '['));
            if name.len() > 0 {
                Some(name)
            } else {
                None
            }
        },
        None => None,
    }
}

/// The microphones that the lines of `wpctl status` name; `inside` says that the list of sources
/// has begun.
pub open spec fn wpctl_sources(ls: Seq<Seq<char>>, inside: bool) -> Seq<Seq<char>>
    decreases ls.len(),
{
    if ls.len() == 0 {
        seq![]
    } else if text::has(ls[0], "Sources:"@) {
        wpctl_sources(ls.skip(1), true)
    } else if !inside {
        wpctl_sources(ls.skip(1), false)
    } else if text::has(ls[0], "Filters:"@) || text::has(ls[0], "Sinks:"@) {
        seq![]
    } else {
        match wpctl_source(ls[0]) {
            Some(d) => seq![d] + wpctl_sources(ls.skip(1), true),
            None => wpctl_sources(ls.skip(1), true),
        }
    }
}

/// The microphones, from what `pactl` printed and, if that names none, from what `wpctl` printed.
pub open spec fn sources(pactl: Option<Seq<char>>, wpctl: Option<Seq<char>>) -> Seq<Seq<char>> {
    let first = match pactl {
        Some(t) => pactl_sources(text::lines_of(t)),
        None => seq![],
    };
    if first.len() > 0 {
        first
    } else {
        match wpctl {
            Some(t) => wpctl_sources(text::lines_of(t), false),
            None => seq![],
        }
    }
}

fn read_pactl(printed: &str) -> (r: Vec<String>)
    ensures
        text::texts(r@) == pactl_sources(text::lines_of(printed@)),
{
    let ls = text::lines(printed);
    let ghost all = text::texts(ls@);
    let mut out: Vec<String> = Vec::new();
    let mut i: usize = 0;
    assert(all.skip(0) =~= all);
    assert(text::texts(out@) + pactl_sources(all) =~= pactl_sources(all));
    while i < ls.len()
        invariant
            i <= ls.len(),
            all == text::texts(ls@),
            pactl_sources(all) == text::texts(out@) + pactl_sources(all.skip(i as int)),
        decreases ls.len() - i,
    {
        let ghost before = out@;
        let ghost rest = pactl_sources(all.skip(i as int + 1));
        assert(all.skip(i as int)[0] == ls@[i as int]@);
        assert(all.skip(i as int).skip(1) =~= all.skip(i as int + 1));
        let ws = text::words(ls[i].as_str());
        assert(text::texts(ws@).len() == ws.len());
        if ws.len() >= 2 {
            assert(text::texts(ws@)[1] == ws@[1]@);
            if !text::ends_with(ws[1].as_str(), ".monitor") {
                out.push(ws[1].clone());
                assert(text::texts(out@) + rest =~= text::texts(before) + (seq![ws@[1]@] + rest));
            }
        }
        i += 1;
    }
    assert(text::texts(out@) + pactl_sources(all.skip(all.len() as int)) =~= text::texts(out@));
    out
}

fn read_wpctl(printed: &str) -> (r: Vec<String>)
    ensures
        text::texts(r@) == wpctl_sources(text::lines_of(printed@), false),
{
    let ls = text::lines(printed);
    let ghost all = text::texts(ls@);
    let mut out: Vec<String> = Vec::new();
    let mut inside = false;
    let mut i: usize = 0;
    assert(all.skip(0) =~= all);
    assert(text::texts(out@) + wpctl_sources(all, false) =~= wpctl_sources(all, false));
    while i < ls.len()
        invariant
            i <= ls.len(),
            all == text::texts(ls@),
            all == text::lines_of(printed@),
            wpctl_sources(all, false) == text::texts(out@) + wpctl_sources(
                all.skip(i as int),
                inside,
            ),
        decreases ls.len() - i,
    {
        let ghost before = out@;
        let ghost rest = wpctl_sources(all.skip(i as int + 1), true);
        let line = ls[i].as_str();
        assert(all.skip(i as int)[0] == line@);
        assert(all.skip(i as int).skip(1) =~= all.skip(i as int + 1));
        if text::contains(line, "Sources:") {
            inside = true;
        } else if inside {
            if text::contains(line, "Filters:") || text::contains(line, "Sinks:") {
                assert(text::texts(out@) + Seq::<Seq<char>>::empty() =~= text::texts(out@));
                return out;
            }
            match text::after_char(line, '.') {
                Some(after) => {
                    let name = text::trim(text::before_char(text::trim(after), '['));
                    if name.unicode_len() > 0 {
                        out.push(name.to_string());
                        assert(text::texts(out@) + rest =~= text::texts(before) + (seq![name@]
                            + rest));
                    }
                },
                None => {},
            }
        }
        i += 1;
    }
    assert(text::texts(out@) + wpctl_sources(all.skip(all.len() as int), inside) =~= text::texts(
        out@,
    ));
    out
}

/// Lists the microphones.
pub fn list_input_devices(pactl: Option<&str>, wpctl: Option<&str>) -> (r: Vec<String>)
    ensures
        text::texts(r@) == sources(text::opt_str(pactl), text::opt_str(wpctl)),
{
    let first = match pactl {
        Some(t) => read_pactl(t),
        None => Vec::new(),
    };
    assert(text::texts(first@).len() == first.len());
    if first.len() > 0 {
        return first;
    }
    match wpctl {
        Some(t) => read_wpctl(t),
        None => {
            assert(text::texts(first@) =~= seq![]);
            first
        },
    }
}

/// Every program is told to record at the given rate, and is told of a microphone exactly if one is named;
/// white space around its name does not count.
pub proof fn recorders_are_told_what_is_set(rate: u32, device: Option<Seq<char>>, d: Seq<char>)
    ensures
        ({
            let hz = text::decimal(rate as nat);
            let pw = args_of(Recorder::PwRecord, rate, device);
            let pa = args_of(Recorder::Parec, rate, device);
            let al = args_of(Recorder::Arecord, rate, device);
            &&& pw[5] == "--rate"@ && pw[6] == hz && pw[7] == "--channels"@ && pw[8] == "1"@ && pw[10] == "s16"@
            &&& pw.last() == "-"@
            &&& pa.contains("--rate="@ + hz)
            &&& pa.contains("--channels=1"@)
            &&& pa.contains("--format=s16le"@)
            &&& al[3] == "-f"@ && al[4] == "S16_LE"@ && al[5] == "-c"@ && al[6] == "1"@ && al[7] == "-r"@
                && al[8] == hz
            &&& al.last() == "-"@
            &&& device == Some(d) && text::trimmed(d).len() > 0 ==> {
                &&& pw.len() == 14 && pw[11] == "--target"@ && pw[12] == text::trimmed(d)
                &&& pa.last() == "--device="@ + text::trimmed(d)
                &&& al.len() == 12 && al[9] == "-D"@ && al[10] == text::trimmed(d)
            }
            &&& device is None || (device == Some(d) && text::trimmed(d).len() == 0) ==> {
                &&& pw.len() == 12
                &&& pa.last() == "--device="@ + "@DEFAULT_SOURCE@"@
                &&& al.len() == 10
            }
        }),
{
    let pa = args_of(Recorder::Parec, rate, device);
    assert(pa[1] == "--format=s16le"@);
    assert(pa[2] == "--rate="@ + text::decimal(rate as nat));
    assert(pa[3] == "--channels=1"@);
}

/// The microphones of `pactl` are the second words of its lines, in order, without the monitors of
/// loudspeakers.
pub proof fn pactl_names_microphones_line_by_line(line: Seq<char>, rest: Seq<Seq<char>>)
    ensures
        ({
            let ws = text::words_of(line);
            let kept = ws.len() >= 2 && !".monitor"@.is_suffix_of(ws[1]);
            &&& pactl_sources(Seq::empty()).len() == 0
            &&& kept ==> pactl_sources(seq![line] + rest) == seq![ws[1]] + pactl_sources(rest)
            &&& !kept ==> pactl_sources(seq![line] + rest) == pactl_sources(rest)
        }),
{
    let all = seq![line] + rest;
    assert(all[0] == line);
    assert(all.skip(1) =~= rest);
}

/// Of what `wpctl` prints only what stands below the heading of the sources counts, up to the next
/// heading; there each line names what stands between its first point and a bracket, without the white
/// space around it, if anything does.
pub proof fn wpctl_names_microphones_below_their_heading(
    line: Seq<char>,
    rest: Seq<Seq<char>>,
    number: Seq<char>,
    before: Seq<char>,
    name: Seq<char>,
    between: Seq<char>,
    tail: Seq<char>,
)
    requires
        forall|i: int| 0 <= i < number.len() ==> number[i] != '.',
        forall|i: int| 0 <= i < before.len() ==> text::is_white(#[trigger] before[i]),
        forall|i: int| 0 <= i < between.len() ==> text::is_white(#[trigger] between[i]),
        forall|i: int| 0 <= i < name.len() ==> name[i] != '[',
        name.len() > 0,
        !text::is_white(name[0]),
        !text::is_white(name.last()),
    ensures
        ({
            let sources = text::has(line, "Sources:"@);
            let other = text::has(line, "Filters:"@) || text::has(line, "Sinks:"@);
            let all = seq![line] + rest;
            &&& wpctl_sources(Seq::empty(), true).len() == 0
            &&& wpctl_sources(Seq::empty(), false).len() == 0
            &&& sources ==> wpctl_sources(all, false) == wpctl_sources(rest, true) && wpctl_sources(
                all,
                true,
            ) == wpctl_sources(rest, true)
            &&& !sources ==> wpctl_sources(all, false) == wpctl_sources(rest, false)
            &&& !sources && other ==> wpctl_sources(all, true).len() == 0
            &&& !sources && !other && (forall|i: int| 0 <= i < line.len() ==> line[i] != '.')
                ==> wpctl_sources(all, true) == wpctl_sources(rest, true)
            &&& !sources && !other && line == number.push('.') + (before + name + between).push('[') + tail.push(
                ']',
            ) ==> wpctl_sources(all, true) == seq![name] + wpctl_sources(rest, true)
            &&& !sources && !other && line == number.push('.') + before ==> wpctl_sources(all, true)
                == wpctl_sources(rest, true)
        }),
{
    let all = seq![line] + rest;
    assert(all[0] == line);
    assert(all.skip(1) =~= rest);
    if forall|i: int| 0 <= i < line.len() ==> line[i] != '.' {
        text::texts_are_cut_at_the_first(line, '.', Seq::empty());
    }
    if line == number.push('.') + before {
        let none = Seq::<char>::empty();
        text::texts_are_cut_at_the_first(number, '.', before);
        text::trimming_undoes_padding(before, none, none);
        assert(before + none + none =~= before);
        text::texts_are_cut_at_the_first(none, '[', none);
        text::trimming_undoes_padding(none, none, none);
        assert(none + none + none =~= none);
        assert(text::trimmed(before) =~= none);
    }
    let last = tail.push(']');
    if line == number.push('.') + (before + name + between).push('[') + last {
        let behind = (before + name + between).push('[') + last;
        assert(line =~= number.push('.') + behind);
        text::texts_are_cut_at_the_first(number, '.', behind);
        let core = (name + between).push('[') + last;
        assert(behind =~= before + core + Seq::<char>::empty());
        assert(core[0] == name[0]);
        assert(core.last() == ']');
        text::white_space_is_what_parts_words(']');
        text::white_space_is_what_parts_words('[');
        text::trimming_undoes_padding(before, core, Seq::empty());
        let head = name + between;
        assert forall|i: int| 0 <= i < head.len() implies head[i] != '[' by {
            if i >= name.len() {
                assert(text::is_white(between[i - name.len()]));
            }
        }
        text::texts_are_cut_at_the_first(head, '[', last);
        assert(head =~= Seq::<char>::empty() + name + between);
        text::trimming_undoes_padding(Seq::empty(), name, between);
    }
}

/// What `pactl` names counts before what `wpctl` names, which counts where `pactl` names nothing.
pub proof fn pactl_counts_first(p: Seq<char>, wpctl: Option<Seq<char>>, w: Seq<char>)
    ensures
        ({
            let named = pactl_sources(text::lines_of(p));
            &&& named.len() > 0 ==> sources(Some(p), wpctl) == named
            &&& named.len() == 0 ==> sources(Some(p), wpctl) == sources(None, wpctl)
            &&& sources(None, Some(w)) == wpctl_sources(text::lines_of(w), false)
            &&& sources(None, None).len() == 0
        }),
{
}

/// A peak is too weak below 200, light below 1500, very loud above 28000 and fine in between.
pub proof fn peaks_are_judged(peak: i32)
    ensures
        peak < 200 <==> level_hint(peak)
            == "信号过弱 — 检查静音/输入设备，或改用内置麦；可设 near_field=false 再试"@,
        200 <= peak < 1500 <==> level_hint(peak)
            == "偏轻但可用 — 近讲模式可开；USB 麦可调大系统输入音量"@,
        1500 <= peak <= 28000 <==> level_hint(peak) == "电平正常"@,
        peak > 28000 <==> level_hint(peak) == "很响 — 注意削波；可降低系统输入增益"@,
{
    reveal_strlit("信号过弱 — 检查静音/输入设备，或改用内置麦；可设 near_field=false 再试");
    reveal_strlit("偏轻但可用 — 近讲模式可开；USB 麦可调大系统输入音量");
    reveal_strlit("电平正常");
    reveal_strlit("很响 — 注意削波；可降低系统输入增益");
    assert("信号过弱 — 检查静音/输入设备，或改用内置麦；可设 near_field=false 再试"@[0] == '信');
    assert("偏轻但可用 — 近讲模式可开；USB 麦可调大系统输入音量"@[0] == '偏');
    assert("电平正常"@[0] == '电');
    assert("很响 — 注意削波；可降低系统输入增益"@[0] == '很');
}

/// Each way to record runs the program that it is named after.
pub proof fn recorders_go_by_their_names()
    ensures
        program_of(Recorder::PwRecord) == "pw-record"@,
        program_of(Recorder::Parec) == "parec"@,
        program_of(Recorder::Arecord) == "arecord"@,
{
}

} // verus!
