//! Recognition with whisper.cpp.

use crate::{config, text};
use vstd::prelude::*;

verus! {

/// Where the model is kept unless set otherwise.
pub fn default_model_path(data_dir: Option<&str>) -> (r: String)
    ensures
        r@ == config::in_data_dir(text::opt_str(data_dir), "xai-dict/models/ggml-small.bin"@),
{
    config::data_path(data_dir, "xai-dict/models/ggml-small.bin")
}

/// The language that is asked for: `auto` if none is set.
pub open spec fn asked_language(language: Seq<char>) -> Seq<char> {
    if language.len() == 0 {
        "auto"@
    } else {
        language
    }
}

/// The arguments of the tool. For Chinese it is asked for simplified characters.
pub open spec fn whisper_line(model: Seq<char>, wav: Seq<char>, language: Seq<char>, threads: u32) -> Seq<
    Seq<char>,
> {
    let lang = asked_language(language);
    seq![
        "-m"@,
        model,
        "-f"@,
        wav,
        "-l"@,
        lang,
        "-nt"@,
        "-np"@,
        "-t"@,
        text::decimal(threads as nat),
        "-nth"@,
        "0.6"@,
    ] + if lang == "zh"@ || lang == "chinese"@ {
        seq!["--prompt"@, "以下是普通话的简体中文句子。"@]
    } else {
        seq![]
    }
}

/// The arguments of the tool.
pub fn whisper_args(model: &str, wav: &str, language: &str, threads: u32) -> (r: Vec<String>)
    ensures
        text::texts(r@) == whisper_line(model@, wav@, language@, threads),
{
    let lang: &str = if language.unicode_len() == 0 {
        "auto"
    } else {
        language
    };
    let count = text::number(threads as u64);
    let common: [&str; 12] = [
        "-m",
        model,
        "-f",
        wav,
        "-l",
        lang,
        "-nt",
        "-np",
        "-t",
        count.as_str(),
        "-nth",
        "0.6",
    ];
    let ghost head = text::strs(common@);
    let mut out = text::owned(&common);
    proof {
        assert(head =~= seq![
            "-m"@,
            model@,
            "-f"@,
            wav@,
            "-l"@,
            lang@,
            "-nt"@,
            "-np"@,
            "-t"@,
            count@,
            "-nth"@,
            "0.6"@,
        ]);
        assert(head + Seq::<Seq<char>>::empty() =~= head);
    }
    let ghost plain = out@;
    if text::same(lang, "zh") || text::same(lang, "chinese") {
        out.push("--prompt".to_string());
        out.push("以下是普通话的简体中文句子。".to_string());
        assert(text::texts(out@) =~= text::texts(plain) + seq![
            "--prompt"@,
            "以下是普通话的简体中文句子。"@,
        ]);
    }
    out
}

/// Whether a character is a Chinese one.
pub open spec fn is_han(c: char) -> bool {
    0x4e00 <= c as u32 <= 0x9fff
}

/// Whether a text holds a Chinese character.
pub fn looks_chinese(s: &str) -> (r: bool)
    ensures
        r == exists|i: int| 0 <= i < s@.len() && is_han(#[trigger] s@[i]),
{
    let cs = text::chars_of(s);
    let mut i: usize = 0;
    while i < cs.len()
        invariant
            i <= cs.len(),
            cs@ == s@,
            forall|k: int| 0 <= k < i ==> !is_han(#[trigger] s@[k]),
        decreases cs.len() - i,
    {
        let n: u32 = cs[i] as u32;
        if 0x4e00 <= n && n <= 0x9fff {
            assert(is_han(s@[i as int]));
            return true;
        }
        i += 1;
    }
    false
}

/// Whether a line of the tool's output is speech: not blank, and not one of its reports.
pub open spec fn is_speech(line: Seq<char>) -> bool {
    &&& line.len() > 0
    &&& !"ggml_"@.is_prefix_of(line)
    &&& !"load_backend"@.is_prefix_of(line)
    &&& !"whisper_"@.is_prefix_of(line)
    &&& !"system_info"@.is_prefix_of(line)
    &&& !"main:"@.is_prefix_of(line)
    &&& !text::has(line, "processing"@)
}

fn speech(line: &str) -> (r: bool)
    ensures
        r == is_speech(line@),
{
    line.unicode_len() > 0 && !text::starts_with(line, "ggml_") && !text::starts_with(
        line,
        "load_backend",
    ) && !text::starts_with(line, "whisper_") && !text::starts_with(line, "system_info")
        && !text::starts_with(line, "main:") && !text::contains(line, "processing")
}

/// The lines of speech among `ls`, each trimmed.
pub open spec fn speech_lines(ls: Seq<Seq<char>>) -> Seq<Seq<char>> {
    ls.map_values(|l: Seq<char>| text::trimmed(l)).filter(|l: Seq<char>| is_speech(l))
}

/// The speech in the tool's output, on one line.
pub open spec fn cleaned(raw: Seq<char>) -> Seq<char> {
    text::trimmed(text::joined(speech_lines(text::lines_of(raw)), " "@))
}

proof fn lemma_speech_push(ls: Seq<Seq<char>>, l: Seq<char>)
    ensures
        speech_lines(ls.push(l)) == if is_speech(text::trimmed(l)) {
            speech_lines(ls).push(text::trimmed(l))
        } else {
            speech_lines(ls)
        },
{
    reveal(Seq::filter);
    let f = |l: Seq<char>| text::trimmed(l);
    assert(ls.push(l).map_values(f).drop_last() =~= ls.map_values(f));
}

/// Cleans the tool's output.
pub fn clean_transcript(raw: &str) -> (r: String)
    ensures
        r@ == cleaned(raw@),
{
    let ls = text::lines(raw);
    let ghost all = text::texts(ls@);
    let mut kept: Vec<String> = Vec::new();
    let mut i: usize = 0;
    proof {
        reveal(Seq::filter);
        assert(all.take(0) =~= seq![]);
        assert(text::texts(kept@) =~= speech_lines(all.take(0)));
    }
    while i < ls.len()
        invariant
            i <= ls.len(),
            all == text::texts(ls@),
            text::texts(kept@) == speech_lines(all.take(i as int)),
        decreases ls.len() - i,
    {
        let ghost before = kept@;
        proof {
            assert(all.take(i as int + 1) =~= all.take(i as int).push(all[i as int]));
            lemma_speech_push(all.take(i as int), all[i as int]);
        }
        let line = text::trim(ls[i].as_str());
        if speech(line) {
            kept.push(line.to_string());
            assert(text::texts(kept@) =~= text::texts(before).push(line@));
        }
        i += 1;
    }
    assert(all.take(all.len() as int) =~= all);
    let whole = text::join(&kept, " ");
    text::trim(whole.as_str()).to_string()
}

/// What to do with the tool's output.
#[derive(Debug, Clone)]
pub enum Cleaned {
    /// This is the text.
    Done(String),
    /// This is the text, but for traditional characters that are to be turned into simplified ones.
    Simplify(String),
}

/// Cleans the tool's output and says whether its characters are to be simplified.
pub fn transcript(raw: &str, to_simplified: bool) -> (r: Cleaned)
    ensures
        ({
            let t = cleaned(raw@);
            if to_simplified && exists|i: int| 0 <= i < t.len() && is_han(#[trigger] t[i]) {
                r matches Cleaned::Simplify(x) && x@ == t
            } else {
                r matches Cleaned::Done(x) && x@ == t
            }
        }),
{
    let t = clean_transcript(raw);
    if to_simplified && looks_chinese(t.as_str()) {
        Cleaned::Simplify(t)
    } else {
        Cleaned::Done(t)
    }
}

/// The configurations with which characters are simplified, in the order in which they are tried.
pub fn opencc_configs() -> (r: Vec<String>)
    ensures
        text::texts(r@) == seq!["t2s.json"@, "t2s"@, "tw2s.json"@, "tw2sp.json"@],
{
    let names: [&str; 4] = ["t2s.json", "t2s", "tw2s.json", "tw2sp.json"];
    assert(text::strs(names@) =~= seq!["t2s.json"@, "t2s"@, "tw2s.json"@, "tw2sp.json"@]);
    text::owned(&names)
}

/// The first of the attempts to simplify that came to something, trimmed, or else the text itself.
pub open spec fn simplified(txt: Seq<char>, attempts: Seq<Option<Seq<char>>>) -> Seq<char>
    decreases attempts.len(),
{
    if attempts.len() == 0 {
        txt
    } else {
        match attempts[0] {
            Some(t) if text::trimmed(t).len() > 0 => text::trimmed(t),
            _ => simplified(txt, attempts.skip(1)),
        }
    }
}

/// Chooses among the attempts to simplify a text, each what a configuration made of it, or
/// nothing where it failed.
pub fn traditional_to_simplified(txt: &str, attempts: &Vec<Option<String>>) -> (r: String)
    ensures
        r@ == simplified(txt@, text::opt_strings(attempts@)),
{
    let ghost all = text::opt_strings(attempts@);
    let mut i: usize = 0;
    assert(all.skip(0) =~= all);
    while i < attempts.len()
        invariant
            i <= attempts.len(),
            all == text::opt_strings(attempts@),
            simplified(txt@, all) == simplified(txt@, all.skip(i as int)),
        decreases attempts.len() - i,
    {
        assert(all.skip(i as int)[0] == text::opt_string(attempts@[i as int]));
        assert(all.skip(i as int).skip(1) =~= all.skip(i as int + 1));
        match &attempts[i] {
            Some(t) => {
                let t = text::trim(t.as_str());
                if t.unicode_len() > 0 {
                    return t.to_string();
                }
            },
            None => {},
        }
        i += 1;
    }
    txt.to_string()
}

/// The names of the tool, in the order in which each directory of the search path is asked.
pub fn whisper_names() -> (r: Vec<String>)
    ensures
        text::texts(r@) == seq!["whisper-cli"@, "whisper-cpp"@, "main"@],
{
    let names: [&str; 3] = ["whisper-cli", "whisper-cpp", "main"];
    assert(text::strs(names@) =~= seq!["whisper-cli"@, "whisper-cpp"@, "main"@]);
    text::owned(&names)
}

/// The tool is told the model, the file, the language or that it is open, and the threads; that the
/// characters be simplified is asked exactly for Chinese.
pub proof fn the_tool_is_told_what_is_set(
    model: Seq<char>,
    wav: Seq<char>,
    language: Seq<char>,
    threads: u32,
)
    ensures
        ({
            let args = whisper_line(model, wav, language, threads);
            let follows = |option: Seq<char>, value: Seq<char>|
                exists|i: int|
                    0 <= i < args.len() - 1 && #[trigger] args[i] == option && args[i + 1] == value;
            &&& follows("-m"@, model)
            &&& follows("-f"@, wav)
            &&& language.len() > 0 ==> follows("-l"@, language)
            &&& language.len() == 0 ==> follows("-l"@, "auto"@)
            &&& follows("-t"@, text::decimal(threads as nat))
            &&& language == "zh"@ || language == "chinese"@ ==> args.len() == 14
            &&& language != "zh"@ && language != "chinese"@ ==> args.len() == 12
        }),
{
    reveal_strlit("auto");
    reveal_strlit("zh");
    reveal_strlit("chinese");
    assert("auto"@.len() == 4 && "zh"@.len() == 2 && "chinese"@.len() == 7);
    let args = whisper_line(model, wav, language, threads);
    assert(args[0] == "-m"@ && args[1] == model);
    assert(args[2] == "-f"@ && args[3] == wav);
    assert(args[4] == "-l"@ && args[5] == asked_language(language));
    assert(args[8] == "-t"@ && args[9] == text::decimal(threads as nat));
}

/// Speech is told from the tool's reports line by line, in order, and each line is trimmed.
pub proof fn speech_is_kept_line_by_line(a: Seq<Seq<char>>, line: Seq<char>)
    ensures
        ({
            let t = text::trimmed(line);
            let report = t.len() == 0 || "ggml_"@.is_prefix_of(t) || "load_backend"@.is_prefix_of(t)
                || "whisper_"@.is_prefix_of(t) || "system_info"@.is_prefix_of(t)
                || "main:"@.is_prefix_of(t) || text::has(t, "processing"@);
            &&& report ==> speech_lines(a.push(line)) == speech_lines(a)
            &&& !report ==> speech_lines(a.push(line)) == speech_lines(a).push(t)
            &&& speech_lines(Seq::empty()).len() == 0
        }),
{
    lemma_speech_push(a, line);
    reveal(Seq::filter);
    assert(Seq::<Seq<char>>::empty().map_values(|l: Seq<char>| text::trimmed(l)) =~= Seq::<
        Seq<char>,
    >::empty());
}

/// The text is the lines of speech, all on one line with a space between them: two lines without white
/// space around them come out as they are, one behind the other.
pub proof fn lines_of_speech_make_one_text(a: Seq<char>, b: Seq<char>)
    requires
        is_speech(a),
        is_speech(b),
        forall|i: int| 0 <= i < a.len() ==> a[i] != '\n',
        forall|i: int| 0 <= i < b.len() ==> b[i] != '\n',
        !text::is_white(a[0]) && !text::is_white(a.last()),
        !text::is_white(b[0]) && !text::is_white(b.last()),
    ensures
        cleaned(a) == a,
        cleaned(a.push('\n')) == a,
        cleaned(a.push('\n') + b) == a + seq![' '] + b,
{
    reveal_strlit(" ");
    assert(" "@ =~= seq![' ']);
    let none = Seq::<Seq<char>>::empty();
    assert(text::is_white('\r'));
    text::line_feeds_part_lines(a, b);
    text::line_feeds_part_lines(a, Seq::empty());
    text::line_feeds_part_lines(b, Seq::empty());
    assert(a.push('\n') + Seq::<char>::empty() =~= a.push('\n'));
    assert(seq![a] + text::lines_of(Seq::<char>::empty()) =~= seq![a]);
    text::trimming_undoes_padding(Seq::empty(), a, Seq::empty());
    text::trimming_undoes_padding(Seq::empty(), b, Seq::empty());
    assert(Seq::<char>::empty() + a + Seq::<char>::empty() =~= a);
    assert(Seq::<char>::empty() + b + Seq::<char>::empty() =~= b);
    speech_is_kept_line_by_line(none, a);
    speech_is_kept_line_by_line(seq![a], b);
    lemma_speech_push(none, a);
    lemma_speech_push(seq![a], b);
    assert(none.push(a) =~= seq![a]);
    assert(seq![a].push(b) =~= seq![a] + seq![b]);
    assert(speech_lines(seq![a]) =~= seq![a]);
    let both = speech_lines(seq![a] + seq![b]);
    assert(both =~= seq![a, b]);
    assert(both =~= seq![a] + seq![b]);
    text::joining_parts_neighbours(seq![a], seq![b], " "@, a);
    text::joining_parts_neighbours(seq![a], seq![b], " "@, b);
    let whole = a + " "@ + b;
    assert(text::joined(both, " "@) == whole);
    assert(whole[0] == a[0] && whole.last() == b.last());
    text::trimming_undoes_padding(Seq::empty(), whole, Seq::empty());
    assert(Seq::<char>::empty() + whole + Seq::<char>::empty() =~= whole);
}

/// Of the attempts to simplify a text the first counts that came to something, trimmed, and where none
/// did the text stays as it is.
pub proof fn the_first_attempt_that_worked_counts(
    txt: Seq<char>,
    before: Seq<Option<Seq<char>>>,
    t: Seq<char>,
    behind: Seq<Option<Seq<char>>>,
)
    requires
        forall|i: int|
            0 <= i < before.len() ==> ((#[trigger] before[i]) matches Some(x) ==> text::trimmed(
                x,
            ).len() == 0),
    ensures
        text::trimmed(t).len() > 0 ==> simplified(txt, before.push(Some(t)) + behind) == text::trimmed(
            t,
        ),
        simplified(txt, before) == txt,
    decreases before.len(),
{
    let all = before.push(Some(t)) + behind;
    if before.len() == 0 {
        assert(all[0] == Some(t));
    } else {
        assert(all[0] == before[0]);
        let less = before.skip(1);
        assert(all.skip(1) =~= less.push(Some(t)) + behind);
        assert forall|i: int| 0 <= i < less.len() implies ((#[trigger] less[i]) matches Some(x)
            ==> text::trimmed(x).len() == 0) by {
            assert(less[i] == before[i + 1]);
        }
        the_first_attempt_that_worked_counts(txt, less, t, behind);
    }
}

/// The Chinese characters are the common ones of Unicode, and no other character is one.
pub proof fn chinese_characters_are_told_apart(c: char)
    ensures
        (c as u32) < 0x4e00 ==> !is_han(c),
        (c as u32) > 0x9fff ==> !is_han(c),
        '一' <= c && c <= '龥' ==> is_han(c),
{
}

} // verus!
