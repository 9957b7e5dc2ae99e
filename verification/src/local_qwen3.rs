//! Recognition with Qwen3-ASR: a process that keeps the model at hand, and the command-line tool
//! where that process fails.

use crate::json::{self, Member, MemberView};
use crate::worker::{self, Health, ReplyError, ReplyErrorView, Warm};
use crate::{config, text};
use vstd::prelude::*;

verus! {

/// Where the model is kept unless set otherwise.
pub fn default_model_dir(data_dir: Option<&str>) -> (r: String)
    ensures
        r@ == config::in_data_dir(
            text::opt_str(data_dir),
            "xai-dict/models/sherpa-onnx-qwen3-asr-0.6B-int8-2026-03-25"@,
        ),
{
    config::data_path(data_dir, "xai-dict/models/sherpa-onnx-qwen3-asr-0.6B-int8-2026-03-25")
}

/// Which parts of a model are there.
#[derive(Debug, Clone, Copy, PartialEq, Eq, Structural)]
pub struct ModelFiles {
    /// The directory itself.
    pub dir: bool,
    pub conv_frontend: bool,
    pub encoder: bool,
    pub decoder: bool,
    pub tokenizer: bool,
}

/// Whether all parts of a model are there.
pub open spec fn complete(f: ModelFiles) -> bool {
    f.encoder && f.decoder && f.conv_frontend && f.tokenizer
}

/// Whether all parts of a model are there.
pub fn model_ready(f: ModelFiles) -> (r: bool)
    ensures
        r == complete(f),
{
    f.encoder && f.decoder && f.conv_frontend && f.tokenizer
}

/// Which part of a model is missing.
#[derive(Debug, Clone, Copy, PartialEq, Eq, Structural)]
pub enum ModelError {
    NoDir,
    NoConvFrontend,
    NoEncoder,
    NoDecoder,
    NoTokenizer,
}

/// The first part of a model that is missing.
pub open spec fn missing(f: ModelFiles) -> Option<ModelError> {
    if !f.dir {
        Some(ModelError::NoDir)
    } else if !f.conv_frontend {
        Some(ModelError::NoConvFrontend)
    } else if !f.encoder {
        Some(ModelError::NoEncoder)
    } else if !f.decoder {
        Some(ModelError::NoDecoder)
    } else if !f.tokenizer {
        Some(ModelError::NoTokenizer)
    } else {
        None
    }
}

/// Where the parts of a model are.
#[derive(Debug, Clone)]
pub struct ModelPaths {
    pub conv_frontend: String,
    pub encoder: String,
    pub decoder: String,
    pub tokenizer: String,
}

/// What [`ModelPaths`] holds.
pub struct Parts {
    pub conv_frontend: Seq<char>,
    pub encoder: Seq<char>,
    pub decoder: Seq<char>,
    pub tokenizer: Seq<char>,
}

impl View for ModelPaths {
    type V = Parts;

    open spec fn view(&self) -> Parts {
        Parts {
            conv_frontend: self.conv_frontend@,
            encoder: self.encoder@,
            decoder: self.decoder@,
            tokenizer: self.tokenizer@,
        }
    }
}

/// Where the parts of a model in `dir` are.
pub open spec fn parts_in(dir: Seq<char>) -> Parts {
    Parts {
        conv_frontend: text::below(dir, "conv_frontend.onnx"@),
        encoder: text::below(dir, "encoder.int8.onnx"@),
        decoder: text::below(dir, "decoder.int8.onnx"@),
        tokenizer: text::below(dir, "tokenizer"@),
    }
}

/// Finds the parts of a model, or the first that is missing.
pub fn resolve_model_paths(dir: &str, f: ModelFiles) -> (r: Result<ModelPaths, ModelError>)
    ensures
        match missing(f) {
            Some(e) => r == Err::<ModelPaths, ModelError>(e),
            None => r matches Ok(p) && p@ == parts_in(dir@),
        },
{
    if !f.dir {
        return Err(ModelError::NoDir);
    }
    if !f.conv_frontend {
        return Err(ModelError::NoConvFrontend);
    }
    if !f.encoder {
        return Err(ModelError::NoEncoder);
    }
    if !f.decoder {
        return Err(ModelError::NoDecoder);
    }
    if !f.tokenizer {
        return Err(ModelError::NoTokenizer);
    }
    Ok(
        ModelPaths {
            conv_frontend: text::join_path(dir, "conv_frontend.onnx"),
            encoder: text::join_path(dir, "encoder.int8.onnx"),
            decoder: text::join_path(dir, "decoder.int8.onnx"),
            tokenizer: text::join_path(dir, "tokenizer"),
        },
    )
}

/// A model in an existing directory is ready exactly if its parts can be found.
pub proof fn ready_models_resolve(f: ModelFiles)
    requires
        f.dir,
    ensures
        complete(f) <==> missing(f) is None,
{
}

/// The number of tokens a process may produce: as set, but neither under 32 nor over 256.
pub open spec fn bounded_tokens(n: u32) -> u32 {
    if n < 32 {
        32
    } else if n > 256 {
        256
    } else {
        n
    }
}

/// The arguments of the process.
pub open spec fn worker_line(p: Parts, threads: u32, max_new_tokens: u32, hotwords: Seq<char>) -> Seq<
    Seq<char>,
> {
    seq![
        "--conv="@ + p.conv_frontend,
        "--encoder="@ + p.encoder,
        "--decoder="@ + p.decoder,
        "--tokenizer="@ + p.tokenizer,
        "--threads="@ + text::decimal(threads as nat),
        "--max-new-tokens="@ + text::decimal(bounded_tokens(max_new_tokens) as nat),
    ] + if hotwords.len() == 0 {
        seq![]
    } else {
        seq!["--hotwords="@ + hotwords]
    }
}

/// The arguments of the process that keeps the model at hand.
pub fn worker_args(p: &ModelPaths, threads: u32, max_new_tokens: u32, hotwords: &str) -> (r: Vec<
    String,
>)
    ensures
        text::texts(r@) == worker_line(p@, threads, max_new_tokens, hotwords@),
{
    let tokens: u32 = if max_new_tokens < 32 {
        32
    } else if max_new_tokens > 256 {
        256
    } else {
        max_new_tokens
    };
    let mut out: Vec<String> = Vec::new();
    out.push(text::cat("--conv=", p.conv_frontend.as_str()));
    out.push(text::cat("--encoder=", p.encoder.as_str()));
    out.push(text::cat("--decoder=", p.decoder.as_str()));
    out.push(text::cat("--tokenizer=", p.tokenizer.as_str()));
    out.push(text::cat("--threads=", text::number(threads as u64).as_str()));
    out.push(text::cat("--max-new-tokens=", text::number(tokens as u64).as_str()));
    if hotwords.unicode_len() > 0 {
        out.push(text::cat("--hotwords=", hotwords));
    }
    assert(text::texts(out@) =~= worker_line(p@, threads, max_new_tokens, hotwords@));
    out
}

/// What keeps the process at hand.
pub fn ensure_warm(health: Health) -> (r: Warm)
    ensures
        r == Warm::Keep <==> health == Health::Running,
{
    worker::warm_up(health)
}

/// The request to recognise a file.
pub fn wav_request(path: &str) -> (r: String)
    ensures
        r@ == "WAV "@ + path@ + "\n"@,
{
    let mut out = text::cat("WAV ", path);
    out.append("\n");
    out
}

/// The text that a reply carries: what follows `OK `, nothing after a bare `OK`, or why there is
/// none.
pub open spec fn reply_text(line: Seq<char>) -> Result<Seq<char>, ReplyErrorView> {
    if "OK "@.is_prefix_of(line) {
        Ok(line.skip("OK "@.len() as int))
    } else if "OK"@.is_prefix_of(line) {
        Ok(Seq::empty())
    } else {
        Err(worker::reply_fault(line))
    }
}

/// Reads the reply of the process.
pub fn warm_transcribe(reply: &str) -> (r: Result<String, ReplyError>)
    ensures
        match reply_text(worker::line_body(reply@)) {
            Ok(t) => r matches Ok(x) && x@ == t,
            Err(e) => r matches Err(x) && x@ == e,
        },
{
    let line = worker::line_text(reply);
    match text::strip_prefix(line, "OK ") {
        Some(t) => return Ok(t.to_string()),
        None => {},
    }
    if text::starts_with(line, "OK") {
        return Ok(String::new());
    }
    Err(worker::bad_reply(line))
}

/// What became of the attempt to have a file recognised by the process.
#[derive(Debug, Clone)]
pub enum Attempt {
    /// It recognised this.
    Done(String),
    /// Forget the process and use the command-line tool.
    FallBack,
}

/// What an [`Attempt`] holds.
pub open spec fn attempted(a: Attempt) -> Option<Seq<char>> {
    match a {
        Attempt::Done(t) => Some(t@),
        Attempt::FallBack => None,
    }
}

/// Judges the attempt to have a file recognised by the process: `warm` says whether it is at
/// hand, `reply` is what it replied, if it did.
pub fn transcribe_file(warm: bool, reply: Option<&str>) -> (r: Attempt)
    ensures
        attempted(r) == match reply {
            Some(line) => if warm {
                match reply_text(worker::line_body(line@)) {
                    Ok(t) => Some(t),
                    Err(_) => None,
                }
            } else {
                None
            },
            None => None,
        },
{
    if !warm {
        return Attempt::FallBack;
    }
    match reply {
        Some(line) => match warm_transcribe(line) {
            Ok(t) => Attempt::Done(t),
            Err(_) => Attempt::FallBack,
        },
        None => Attempt::FallBack,
    }
}

/// The arguments of the command-line tool.
pub open spec fn cli_line(
    p: Parts,
    threads: u32,
    max_new_tokens: u32,
    hotwords: Seq<char>,
    wav: Seq<char>,
) -> Seq<Seq<char>> {
    seq![
        "--qwen3-asr-conv-frontend="@ + p.conv_frontend,
        "--qwen3-asr-encoder="@ + p.encoder,
        "--qwen3-asr-decoder="@ + p.decoder,
        "--qwen3-asr-tokenizer="@ + p.tokenizer,
        "--qwen3-asr-max-new-tokens="@ + text::decimal(max_new_tokens as nat),
        "--num-threads="@ + text::decimal(threads as nat),
    ] + (if hotwords.len() == 0 {
        seq![]
    } else {
        seq!["--qwen3-asr-hotwords="@ + hotwords]
    }) + seq![wav]
}

/// The arguments of the command-line tool.
pub fn cli_args(p: &ModelPaths, threads: u32, max_new_tokens: u32, hotwords: &str, wav: &str) -> (r:
    Vec<String>)
    ensures
        text::texts(r@) == cli_line(p@, threads, max_new_tokens, hotwords@, wav@),
{
    let mut out: Vec<String> = Vec::new();
    out.push(text::cat("--qwen3-asr-conv-frontend=", p.conv_frontend.as_str()));
    out.push(text::cat("--qwen3-asr-encoder=", p.encoder.as_str()));
    out.push(text::cat("--qwen3-asr-decoder=", p.decoder.as_str()));
    out.push(text::cat("--qwen3-asr-tokenizer=", p.tokenizer.as_str()));
    out.push(
        text::cat("--qwen3-asr-max-new-tokens=", text::number(max_new_tokens as u64).as_str()),
    );
    out.push(text::cat("--num-threads=", text::number(threads as u64).as_str()));
    if hotwords.unicode_len() > 0 {
        out.push(text::cat("--qwen3-asr-hotwords=", hotwords));
    }
    out.push(wav.to_string());
    assert(text::texts(out@) =~= cli_line(p@, threads, max_new_tokens, hotwords@, wav@));
    out
}

/// The text in a JSON object: its member `text`, trimmed, if that is a string and not blank.
pub open spec fn text_in(ms: Seq<MemberView>) -> Option<Seq<char>> {
    match json::member_text(ms, "text"@) {
        Some(t) => if text::trimmed(t).len() > 0 {
            Some(text::trimmed(t))
        } else {
            None
        },
        None => None,
    }
}

/// The text in a JSON object.
pub fn text_of(ms: &Vec<Member>) -> (r: Option<String>)
    ensures
        text::opt_string(r) == text_in(json::members_view(ms@)),
{
    match json::get_text(ms, "text") {
        Some(t) => {
            let t = text::trim(t.as_str());
            if t.unicode_len() > 0 {
                Some(t.to_string())
            } else {
                None
            }
        },
        None => None,
    }
}

/// The text in a line, given what it is as JSON.
pub open spec fn text_parsed(parsed: Option<Option<Seq<MemberView>>>) -> Option<Seq<char>> {
    match parsed {
        Some(Some(ms)) => text_in(ms),
        _ => None,
    }
}

/// Whether a line may be a result: it opens an object and speaks of a text.
pub open spec fn may_be_result(line: Seq<char>) -> bool {
    "{"@.is_prefix_of(line) && text::has(line, "\"text\""@)
}

/// The text in the last of `ls` that holds one.
pub open spec fn last_text(ls: Seq<Seq<char>>) -> Option<Seq<char>>
    decreases ls.len(),
{
    if ls.len() == 0 {
        None
    } else {
        let line = text::trimmed(ls.last());
        if may_be_result(line) && text_parsed(json::json_object(line)) is Some {
            text_parsed(json::json_object(line))
        } else {
            last_text(ls.drop_last())
        }
    }
}

fn line_result(line: &str) -> (r: Option<String>)
    ensures
        text::opt_string(r) == if may_be_result(line@) {
            text_parsed(json::json_object(line@))
        } else {
            None
        },
{
    if !(text::starts_with(line, "{") && text::contains(line, "\"text\"")) {
        return None;
    }
    match json::parse_object(line) {
        Ok(Some(ms)) => text_of(&ms),
        Ok(None) => None,
        Err(_) => None,
    }
}

/// Finds the recognised text in what the command-line tool printed: in the last line that holds
/// one.
pub fn extract_text(raw: &str) -> (r: Option<String>)
    ensures
        text::opt_string(r) == last_text(text::lines_of(raw@)),
{
    let ls = text::lines(raw);
    let mut n: usize = ls.len();
    assert(text::texts(ls@).take(n as int) =~= text::texts(ls@));
    while n > 0
        invariant
            n <= ls.len(),
            text::texts(ls@) == text::lines_of(raw@),
            last_text(text::lines_of(raw@)) == last_text(text::texts(ls@).take(n as int)),
        decreases n,
    {
        let ghost now = text::texts(ls@).take(n as int);
        assert(now.last() == ls@[n - 1]@);
        assert(now.drop_last() =~= text::texts(ls@).take(n - 1));
        match line_result(text::trim(ls[n - 1].as_str())) {
            Some(t) => return Some(t),
            None => {},
        }
        n = n - 1;
    }
    None
}

/// What the command-line tool printed, both ways together.
pub open spec fn printed(stdout: Seq<char>, stderr: Seq<char>) -> Seq<char> {
    stdout + "\n"@ + stderr
}

/// The outcome of the command-line tool: the text it printed or, if it failed, the end of what it
/// printed.
pub fn cli_outcome(success: bool, stdout: &str, stderr: &str) -> (r: Result<String, String>)
    ensures
        ({
            let all = printed(stdout@, stderr@);
            if success {
                r matches Ok(t) && t@ == match last_text(text::lines_of(all)) {
                    Some(x) => text::trimmed(x),
                    None => Seq::empty(),
                }
            } else {
                r matches Err(t) && t@ == text::trimmed(text::last_chars(all, 600))
            }
        }),
{
    let mut all = text::cat(stdout, "\n");
    all.append(stderr);
    if !success {
        return Err(text::trim(text::suffix(all.as_str(), 600)).to_string());
    }
    match extract_text(all.as_str()) {
        Some(t) => Ok(text::trim(t.as_str()).to_string()),
        None => Ok(String::new()),
    }
}

/// Of several results the last one counts: lines without a result after it change nothing.
pub proof fn last_result_counts(before: Seq<Seq<char>>, line: Seq<char>, noise: Seq<char>)
    requires
        may_be_result(text::trimmed(line)),
        text_parsed(json::json_object(text::trimmed(line))) is Some,
        !may_be_result(text::trimmed(noise)),
    ensures
        last_text(before.push(line)) == text_parsed(json::json_object(text::trimmed(line))),
        last_text(before.push(line).push(noise)) == last_text(before.push(line)),
{
    assert(before.push(line).push(noise).drop_last() =~= before.push(line));
}

/// What the process recognised is read back whole, spaces and all, from the line that carries it,
/// however that line ends; an error is read back as its reason, and whatever is neither is no text.
pub proof fn replies_carry_all_of_the_text(t: Seq<char>, end: Seq<char>)
    requires
        t.len() == 0 || (t.last() != '\r' && t.last() != '\n'),
        forall|i: int| 0 <= i < end.len() ==> #[trigger] end[i] == '\r' || end[i] == '\n',
    ensures
        reply_text(worker::line_body("OK "@ + t + end)) == Ok::<Seq<char>, ReplyErrorView>(t),
        reply_text("OK "@ + t) == Ok::<Seq<char>, ReplyErrorView>(t),
        reply_text("ERR "@ + t) == Err::<Seq<char>, ReplyErrorView>(ReplyErrorView::Worker(t)),
        reply_text("OK"@) == Ok::<Seq<char>, ReplyErrorView>(Seq::empty()),
        !"OK"@.is_prefix_of(t) && !"ERR "@.is_prefix_of(t) ==> reply_text(t) == Err::<
            Seq<char>,
            ReplyErrorView,
        >(ReplyErrorView::Bad(t)),
{
    reveal_strlit("OK ");
    reveal_strlit("OK");
    reveal_strlit("ERR ");
    let line = "OK "@ + t;
    assert(line.take(3) =~= "OK "@);
    assert(line.skip(3) =~= t);
    assert(line.last() == if t.len() == 0 {
        ' '
    } else {
        t.last()
    });
    worker::lines_carry_their_text(line, end);
    let err = "ERR "@ + t;
    assert(err[0] == 'E');
    if "OK "@.is_prefix_of(err) {
        assert(err[0] == "OK "@[0]);
    }
    if "OK"@.is_prefix_of(err) {
        assert(err[0] == "OK"@[0]);
    }
    worker::faults_are_told_apart(t);
    assert("OK"@.len() == 2 && "OK "@.len() == 3);
    if "OK "@.is_prefix_of(t) {
        assert(t.take(2) =~= "OK"@);
    }
}

/// Exactly one part is named as missing where one is: the first that is, and nothing is missing where
/// all are there.
pub proof fn the_first_missing_part_is_named(f: ModelFiles)
    ensures
        missing(f) == Some(ModelError::NoDir) <==> !f.dir,
        missing(f) == Some(ModelError::NoConvFrontend) <==> f.dir && !f.conv_frontend,
        missing(f) == Some(ModelError::NoEncoder) <==> f.dir && f.conv_frontend && !f.encoder,
        missing(f) == Some(ModelError::NoDecoder) <==> f.dir && f.conv_frontend && f.encoder
            && !f.decoder,
        missing(f) == Some(ModelError::NoTokenizer) <==> f.dir && f.conv_frontend && f.encoder
            && f.decoder && !f.tokenizer,
        missing(f) is None <==> f.dir && f.conv_frontend && f.encoder && f.decoder && f.tokenizer,
        complete(f) <==> f.conv_frontend && f.encoder && f.decoder && f.tokenizer,
{
}

/// The process is told all parts of the model, the threads, a number of tokens between 32 and 256 that
/// is the one set where that lies between, and the preferred words exactly if there are any.
pub proof fn the_process_is_told_what_is_set(
    p: Parts,
    threads: u32,
    max_new_tokens: u32,
    hotwords: Seq<char>,
)
    ensures
        ({
            let args = worker_line(p, threads, max_new_tokens, hotwords);
            &&& args.contains("--conv="@ + p.conv_frontend)
            &&& args.contains("--encoder="@ + p.encoder)
            &&& args.contains("--decoder="@ + p.decoder)
            &&& args.contains("--tokenizer="@ + p.tokenizer)
            &&& args.contains("--threads="@ + text::decimal(threads as nat))
            &&& exists|n: u32|
                #![trigger text::decimal(n as nat)]
                32 <= n <= 256 && (32 <= max_new_tokens <= 256 ==> n == max_new_tokens) && (
                max_new_tokens < 32 ==> n == 32) && (max_new_tokens > 256 ==> n == 256)
                    && args.contains("--max-new-tokens="@ + text::decimal(n as nat))
            &&& hotwords.len() > 0 ==> args.len() == 7 && args.last() == "--hotwords="@ + hotwords
            &&& hotwords.len() == 0 ==> args.len() == 6
        }),
{
    let args = worker_line(p, threads, max_new_tokens, hotwords);
    assert(args[0] == "--conv="@ + p.conv_frontend);
    assert(args[1] == "--encoder="@ + p.encoder);
    assert(args[2] == "--decoder="@ + p.decoder);
    assert(args[3] == "--tokenizer="@ + p.tokenizer);
    assert(args[4] == "--threads="@ + text::decimal(threads as nat));
    let n = bounded_tokens(max_new_tokens);
    assert(args[5] == "--max-new-tokens="@ + text::decimal(n as nat));
}

/// The command-line tool is told the same, with the number of tokens as it is set, and the file last.
pub proof fn the_tool_is_told_what_is_set(
    p: Parts,
    threads: u32,
    max_new_tokens: u32,
    hotwords: Seq<char>,
    wav: Seq<char>,
)
    ensures
        ({
            let args = cli_line(p, threads, max_new_tokens, hotwords, wav);
            &&& args.last() == wav
            &&& args.contains("--qwen3-asr-conv-frontend="@ + p.conv_frontend)
            &&& args.contains("--qwen3-asr-encoder="@ + p.encoder)
            &&& args.contains("--qwen3-asr-decoder="@ + p.decoder)
            &&& args.contains("--qwen3-asr-tokenizer="@ + p.tokenizer)
            &&& args.contains("--num-threads="@ + text::decimal(threads as nat))
            &&& args.contains("--qwen3-asr-max-new-tokens="@ + text::decimal(max_new_tokens as nat))
            &&& hotwords.len() > 0 ==> args.len() == 8 && args.contains(
                "--qwen3-asr-hotwords="@ + hotwords,
            )
            &&& hotwords.len() == 0 ==> args.len() == 7
        }),
{
    let args = cli_line(p, threads, max_new_tokens, hotwords, wav);
    assert(args[0] == "--qwen3-asr-conv-frontend="@ + p.conv_frontend);
    assert(args[1] == "--qwen3-asr-encoder="@ + p.encoder);
    assert(args[2] == "--qwen3-asr-decoder="@ + p.decoder);
    assert(args[3] == "--qwen3-asr-tokenizer="@ + p.tokenizer);
    assert(args[4] == "--qwen3-asr-max-new-tokens="@ + text::decimal(max_new_tokens as nat));
    assert(args[5] == "--num-threads="@ + text::decimal(threads as nat));
    if hotwords.len() > 0 {
        assert(args[6] == "--qwen3-asr-hotwords="@ + hotwords);
    }
}

/// The text of an object is its first member of that name, trimmed, whatever stands before and after it;
/// one that is blank or no string is none, and so is an object without such a member.
pub proof fn the_member_text_is_the_text(
    before: Seq<MemberView>,
    m: MemberView,
    behind: Seq<MemberView>,
)
    requires
        forall|i: int| 0 <= i < before.len() ==> (#[trigger] before[i]).0 != "text"@,
        m.0 == "text"@,
    ensures
        text_in(before + seq![m] + behind) == match m.1 {
            Some(t) => if text::trimmed(t).len() > 0 {
                Some(text::trimmed(t))
            } else {
                None
            },
            None => None,
        },
        text_in(before) is None,
{
    json::the_first_member_counts(before, m, behind, "text"@);
}

/// The result is that of the last line that has one: lines behind it without one change nothing, lines
/// before it never count, and where no line has one there is none. A line has one if it is an object
/// that holds a text, white space around it apart.
pub proof fn the_last_line_with_a_text_counts(
    before: Seq<Seq<char>>,
    line: Seq<char>,
    behind: Seq<Seq<char>>,
)
    requires
        forall|i: int|
            0 <= i < behind.len() ==> ({
                let l = text::trimmed(#[trigger] behind[i]);
                l.len() == 0 || l[0] != '{' || !text::has(l, "\"text\""@)
            }),
    ensures
        ({
            let l = text::trimmed(line);
            l.len() > 0 && l[0] == '{' && text::has(l, "\"text\""@) && text_parsed(
                json::json_object(l),
            ) is Some ==> last_text(before.push(line) + behind) == text_parsed(json::json_object(l))
        }),
        last_text(behind) is None,
    decreases behind.len(),
{
    reveal_strlit("{");
    let all = before.push(line) + behind;
    if behind.len() == 0 {
        assert(all =~= before.push(line));
        assert(all.drop_last() =~= before);
        let l = text::trimmed(line);
        if l.len() > 0 && l[0] == '{' {
            assert(l.take(1) =~= "{"@);
        }
    } else {
        let less = behind.drop_last();
        let last = text::trimmed(behind[behind.len() - 1]);
        assert(all.last() == behind[behind.len() - 1]);
        assert(all.drop_last() =~= before.push(line) + less);
        if "{"@.is_prefix_of(last) {
            assert(last[0] == "{"@[0]);
        }
        assert forall|i: int| 0 <= i < less.len() implies ({
            let l = text::trimmed(#[trigger] less[i]);
            l.len() == 0 || l[0] != '{' || !text::has(l, "\"text\""@)
        }) by {
            assert(less[i] == behind[i]);
        }
        the_last_line_with_a_text_counts(before, line, less);
    }
}

} // verus!
