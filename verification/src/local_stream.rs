//! Provisional recognition while speech goes on: a process that runs a streaming Paraformer or
//! Zipformer model and speaks a line protocol.

use crate::worker::{self, Health, ReplyError, ReplyErrorView, Warm};
use crate::{config, text};
use vstd::prelude::*;

verus! {

/// How long a reply may take, in milliseconds.
pub const REPLY_TIMEOUT_MS: u64 = 8_000;

/// Where the model is kept unless set otherwise.
pub fn default_model_dir(data_dir: Option<&str>) -> (r: String)
    ensures
        r@ == config::in_data_dir(
            text::opt_str(data_dir),
            "xai-dict/models/sherpa-onnx-streaming-paraformer-bilingual-zh-en"@,
        ),
{
    config::data_path(data_dir, "xai-dict/models/sherpa-onnx-streaming-paraformer-bilingual-zh-en")
}

/// A provisional or final text.
#[derive(Debug, Clone)]
pub struct PartialResult {
    pub text: String,
    /// Whether the speech has ended.
    pub is_final: bool,
}

/// What kind of model it is.
#[derive(Debug, Clone, Copy, PartialEq, Eq, Structural)]
pub enum StreamBackend {
    /// An encoder and a decoder.
    Paraformer,
    /// An encoder, a decoder and a joiner.
    Zipformer,
}

/// The first of `names` that is among the files `present`.
pub open spec fn first_of(present: Seq<Seq<char>>, names: Seq<Seq<char>>) -> Option<Seq<char>>
    decreases names.len(),
{
    if names.len() == 0 {
        None
    } else if present.contains(names[0]) {
        Some(names[0])
    } else {
        first_of(present, names.skip(1))
    }
}

fn is_present(present: &Vec<String>, name: &str) -> (r: bool)
    ensures
        r == text::texts(present@).contains(name@),
{
    let mut i: usize = 0;
    while i < present.len()
        invariant
            i <= present.len(),
            forall|k: int| 0 <= k < i ==> present@[k]@ != name@,
        decreases present.len() - i,
    {
        if text::same(present[i].as_str(), name) {
            assert(text::texts(present@)[i as int] == name@);
            return true;
        }
        i += 1;
    }
    assert(forall|k: int|
        0 <= k < present.len() ==> text::texts(present@)[k] == present@[k]@);
    false
}

/// Finds the first of `names` among the files `present`.
pub fn first_existing<'a>(present: &Vec<String>, names: &[&'a str]) -> (r: Option<&'a str>)
    ensures
        text::opt_str(r) == first_of(text::texts(present@), text::strs(names@)),
{
    let ghost all = text::strs(names@);
    let mut i: usize = 0;
    assert(all.skip(0) =~= all);
    while i < names.len()
        invariant
            i <= names.len(),
            all == text::strs(names@),
            first_of(text::texts(present@), all) == first_of(
                text::texts(present@),
                all.skip(i as int),
            ),
        decreases names.len() - i,
    {
        let name: &'a str = names[i];
        assert(all.skip(i as int)[0] == name@);
        assert(all.skip(i as int).skip(1) =~= all.skip(i as int + 1));
        if is_present(present, name) {
            return Some(name);
        }
        i += 1;
    }
    None
}

/// The names that a part of a model may have, the preferred one first; `part` is what they start
/// with.
pub open spec fn part_names(part: Seq<char>) -> Seq<Seq<char>> {
    seq![part + ".int8.onnx"@, part + ".onnx"@, part + ".int8"@, part]
}

/// The names under which a part of a model can be loaded.
pub open spec fn onnx_names(part: Seq<char>) -> Seq<Seq<char>> {
    seq![part + ".int8.onnx"@, part + ".onnx"@]
}

/// Whether a part of a model is there under any of its names.
pub open spec fn has_part(present: Seq<Seq<char>>, part: Seq<char>) -> bool {
    first_of(present, part_names(part)) is Some
}

/// The kind of the model whose files are `present`: none without tokens, an encoder and a
/// decoder, and a joiner makes the difference.
pub open spec fn backend_of(present: Seq<Seq<char>>) -> Option<StreamBackend> {
    if present.contains("tokens.txt"@) && has_part(present, "encoder"@) && has_part(
        present,
        "decoder"@,
    ) {
        if has_part(present, "joiner"@) {
            Some(StreamBackend::Zipformer)
        } else {
            Some(StreamBackend::Paraformer)
        }
    } else {
        None
    }
}

fn find_part(present: &Vec<String>, part: &str) -> (r: bool)
    ensures
        r == has_part(text::texts(present@), part@),
{
    let a = text::cat(part, ".int8.onnx");
    let b = text::cat(part, ".onnx");
    let c = text::cat(part, ".int8");
    let names: [&str; 4] = [a.as_str(), b.as_str(), c.as_str(), part];
    assert(text::strs(names@) =~= part_names(part@));
    first_existing(present, &names).is_some()
}

/// Tells what kind of model the files `present` in its directory make.
pub fn detect_backend(present: &Vec<String>) -> (r: Option<StreamBackend>)
    ensures
        r == backend_of(text::texts(present@)),
{
    if !is_present(present, "tokens.txt") {
        return None;
    }
    if !find_part(present, "encoder") || !find_part(present, "decoder") {
        return None;
    }
    if find_part(present, "joiner") {
        Some(StreamBackend::Zipformer)
    } else {
        Some(StreamBackend::Paraformer)
    }
}

/// Whether the files `present` make a model.
pub fn model_ready(present: &Vec<String>) -> (r: bool)
    ensures
        r == (backend_of(text::texts(present@)) is Some),
{
    detect_backend(present).is_some()
}

/// Where the parts of a model are.
#[derive(Debug, Clone)]
pub struct ModelPaths {
    pub backend: StreamBackend,
    pub encoder: String,
    pub decoder: String,
    pub joiner: Option<String>,
    pub tokens: String,
}

/// What [`ModelPaths`] holds.
pub struct Parts {
    pub backend: StreamBackend,
    pub encoder: Seq<char>,
    pub decoder: Seq<char>,
    pub joiner: Option<Seq<char>>,
    pub tokens: Seq<char>,
}

impl View for ModelPaths {
    type V = Parts;

    open spec fn view(&self) -> Parts {
        Parts {
            backend: self.backend,
            encoder: self.encoder@,
            decoder: self.decoder@,
            joiner: text::opt_string(self.joiner),
            tokens: self.tokens@,
        }
    }
}

/// Why a model cannot be loaded.
#[derive(Debug, Clone, Copy, PartialEq, Eq, Structural)]
pub enum ModelError {
    NotReady,
    NoEncoder,
    NoDecoder,
    NoJoiner,
}

/// A part of a model in `dir` that can be loaded.
pub open spec fn loadable(dir: Seq<char>, present: Seq<Seq<char>>, part: Seq<char>) -> Option<
    Seq<char>,
> {
    match first_of(present, onnx_names(part)) {
        Some(name) => Some(text::below(dir, name)),
        None => None,
    }
}

/// The parts of the model in `dir` whose files are `present`, or why it cannot be loaded.
pub open spec fn parts_in(dir: Seq<char>, present: Seq<Seq<char>>) -> Result<Parts, ModelError> {
    match backend_of(present) {
        None => Err(ModelError::NotReady),
        Some(backend) => match (
            loadable(dir, present, "encoder"@),
            loadable(dir, present, "decoder"@),
        ) {
            (None, _) => Err(ModelError::NoEncoder),
            (Some(_), None) => Err(ModelError::NoDecoder),
            (Some(encoder), Some(decoder)) => {
                let joiner = loadable(dir, present, "joiner"@);
                if backend == StreamBackend::Zipformer && joiner is None {
                    Err(ModelError::NoJoiner)
                } else {
                    Ok(
                        Parts {
                            backend,
                            encoder,
                            decoder,
                            joiner,
                            tokens: text::below(dir, "tokens.txt"@),
                        },
                    )
                }
            },
        },
    }
}

fn load_path(dir: &str, present: &Vec<String>, part: &str) -> (r: Option<String>)
    ensures
        text::opt_string(r) == loadable(dir@, text::texts(present@), part@),
{
    let a = text::cat(part, ".int8.onnx");
    let b = text::cat(part, ".onnx");
    let names: [&str; 2] = [a.as_str(), b.as_str()];
    assert(text::strs(names@) =~= onnx_names(part@));
    match first_existing(present, &names) {
        Some(name) => Some(text::join_path(dir, name)),
        None => None,
    }
}

/// Finds the parts of the model in `dir` whose files are `present`.
pub fn resolve_model_paths(dir: &str, present: &Vec<String>) -> (r: Result<ModelPaths, ModelError>)
    ensures
        match parts_in(dir@, text::texts(present@)) {
            Ok(p) => r matches Ok(x) && x@ == p,
            Err(e) => r == Err::<ModelPaths, ModelError>(e),
        },
{
    let backend = match detect_backend(present) {
        Some(b) => b,
        None => return Err(ModelError::NotReady),
    };
    let encoder = match load_path(dir, present, "encoder") {
        Some(p) => p,
        None => return Err(ModelError::NoEncoder),
    };
    let decoder = match load_path(dir, present, "decoder") {
        Some(p) => p,
        None => return Err(ModelError::NoDecoder),
    };
    let joiner = load_path(dir, present, "joiner");
    if backend == StreamBackend::Zipformer && joiner.is_none() {
        return Err(ModelError::NoJoiner);
    }
    Ok(ModelPaths { backend, encoder, decoder, joiner, tokens: text::join_path(dir, "tokens.txt") })
}

/// A model that can be loaded is ready, and a Zipformer that can be loaded has its joiner.
pub proof fn loadable_models_are_ready(dir: Seq<char>, present: Seq<Seq<char>>)
    requires
        parts_in(dir, present) is Ok,
    ensures
        backend_of(present) == Some(parts_in(dir, present)->Ok_0.backend),
        parts_in(dir, present)->Ok_0.backend == StreamBackend::Zipformer ==> parts_in(
            dir,
            present,
        )->Ok_0.joiner is Some,
{
}

/// The arguments of the process.
pub open spec fn worker_line(p: Parts, threads: u32, sample_rate: u32) -> Seq<Seq<char>> {
    seq![
        "--encoder="@ + p.encoder,
        "--decoder="@ + p.decoder,
        "--tokens="@ + p.tokens,
        "--threads="@ + text::decimal(
            if threads < 1 {
                1
            } else {
                threads as nat
            },
        ),
        "--sample-rate="@ + text::decimal(sample_rate as nat),
    ] + match (p.backend, p.joiner) {
        (StreamBackend::Zipformer, j) => seq![
            "--joiner="@ + j->Some_0,
            "--model-type=transducer"@,
        ],
        (StreamBackend::Paraformer, _) => seq!["--model-type=paraformer"@],
    }
}

/// The arguments of the process.
pub fn worker_args(p: &ModelPaths, threads: u32, sample_rate: u32) -> (r: Vec<String>)
    requires
        p.backend == StreamBackend::Zipformer ==> p.joiner is Some,
    ensures
        text::texts(r@) == worker_line(p@, threads, sample_rate),
{
    let threads: u32 = if threads < 1 {
        1
    } else {
        threads
    };
    let mut out: Vec<String> = Vec::new();
    out.push(text::cat("--encoder=", p.encoder.as_str()));
    out.push(text::cat("--decoder=", p.decoder.as_str()));
    out.push(text::cat("--tokens=", p.tokens.as_str()));
    out.push(text::cat("--threads=", text::number(threads as u64).as_str()));
    out.push(text::cat("--sample-rate=", text::number(sample_rate as u64).as_str()));
    match p.backend {
        StreamBackend::Paraformer => out.push("--model-type=paraformer".to_string()),
        StreamBackend::Zipformer => {
            match &p.joiner {
                Some(j) => out.push(text::cat("--joiner=", j.as_str())),
                None => {},
            }
            out.push("--model-type=transducer".to_string());
        },
    }
    assert(text::texts(out@) =~= worker_line(p@, threads, sample_rate));
    out
}

/// What keeps the process at hand.
pub fn ensure_warm(health: Health) -> (r: Warm)
    ensures
        r == Warm::Keep <==> health == Health::Running,
{
    worker::warm_up(health)
}

/// The line that begins an utterance.
pub fn start_request() -> (r: String)
    ensures
        r@ == "START\n"@,
{
    "START\n".to_string()
}

/// Reads the reply to the line that begins an utterance: only `OK` is good, anything else is
/// handed back.
pub fn start_utterance(reply: &str) -> (r: Result<(), String>)
    ensures
        r is Ok <==> worker::line_body(reply@) == "OK"@,
        r matches Err(t) ==> t@ == worker::line_body(reply@),
{
    let line = worker::line_text(reply);
    if text::same(line, "OK") {
        Ok(())
    } else {
        Err(line.to_string())
    }
}

/// A request that carries sound.
#[derive(Debug, Clone)]
pub struct PcmRequest {
    /// The line in front.
    pub header: String,
    /// The sound.
    pub pcm: Vec<u8>,
}

/// The whole samples that `pcm` starts with.
pub open spec fn whole_samples(pcm: Seq<u8>) -> Seq<u8> {
    pcm.take(pcm.len() - pcm.len() % 2)
}

/// Makes the request that carries sound, or none if there is not a single sample.
pub fn feed_pcm(pcm: &[u8]) -> (r: Option<PcmRequest>)
    ensures
        match r {
            Some(q) => {
                &&& pcm@.len() >= 2
                &&& q.pcm@ == whole_samples(pcm@)
                &&& q.header@ == "PCM "@ + text::decimal(whole_samples(pcm@).len()) + "\n"@
            },
            None => pcm@.len() < 2,
        },
{
    let n: usize = pcm.len() - pcm.len() % 2;
    if n == 0 {
        return None;
    }
    let body = vstd::slice::slice_subrange(pcm, 0, n);
    assert(body@ =~= whole_samples(pcm@));
    let mut header = text::cat("PCM ", text::number(n as u64).as_str());
    header.append("\n");
    Some(PcmRequest { header, pcm: vstd::slice::slice_to_vec(body) })
}

/// The line that ends an utterance.
pub fn finish_request() -> (r: String)
    ensures
        r@ == "FINISH\n"@,
{
    "FINISH\n".to_string()
}

/// What a reply carries: provisional text, final text, or a fault.
pub open spec fn partial_in(line: Seq<char>) -> Result<(Seq<char>, bool), ReplyErrorView> {
    if "PARTIAL "@.is_prefix_of(line) {
        Ok((line.skip("PARTIAL "@.len() as int), false))
    } else if "FINAL "@.is_prefix_of(line) {
        Ok((line.skip("FINAL "@.len() as int), true))
    } else if line == "PARTIAL"@ {
        Ok((Seq::empty(), false))
    } else if line == "FINAL"@ {
        Ok((Seq::empty(), true))
    } else {
        Err(worker::reply_fault(line))
    }
}

/// Reads a reply without its line end.
pub fn parse_partial(line: &str) -> (r: Result<PartialResult, ReplyError>)
    ensures
        match partial_in(line@) {
            Ok((t, is_final)) => r matches Ok(x) && x.text@ == t && x.is_final == is_final,
            Err(e) => r matches Err(x) && x@ == e,
        },
{
    match text::strip_prefix(line, "PARTIAL ") {
        Some(t) => return Ok(PartialResult { text: t.to_string(), is_final: false }),
        None => {},
    }
    match text::strip_prefix(line, "FINAL ") {
        Some(t) => return Ok(PartialResult { text: t.to_string(), is_final: true }),
        None => {},
    }
    if text::same(line, "PARTIAL") {
        return Ok(PartialResult { text: String::new(), is_final: false });
    }
    if text::same(line, "FINAL") {
        return Ok(PartialResult { text: String::new(), is_final: true });
    }
    Err(worker::bad_reply(line))
}

/// Reads the reply to sound.
pub fn fed(reply: &str) -> (r: Result<PartialResult, ReplyError>)
    ensures
        match partial_in(worker::line_body(reply@)) {
            Ok((t, is_final)) => r matches Ok(x) && x.text@ == t && x.is_final == is_final,
            Err(e) => r matches Err(x) && x@ == e,
        },
{
    parse_partial(worker::line_text(reply))
}

/// Reads the reply to the line that ends an utterance.
pub fn finish_utterance(reply: &str) -> (r: Result<PartialResult, ReplyError>)
    ensures
        match partial_in(worker::line_body(reply@)) {
            Ok((t, is_final)) => r matches Ok(x) && x.text@ == t && x.is_final == is_final,
            Err(e) => r matches Err(x) && x@ == e,
        },
{
    parse_partial(worker::line_text(reply))
}

/// Whether a failure means that the process is of no more use: it did not answer in time, or it
/// closed its output.
pub fn loses_worker(error: &str) -> (r: bool)
    ensures
        r == (text::has(error@, "timeout"@) || text::has(error@, "EOF"@)),
{
    text::contains(error, "timeout") || text::contains(error, "EOF")
}

/// For how many milliseconds to wait for a reply at a time: what is left, at least one and no
/// more than the system call takes.
pub fn poll_ms(left_ms: u64) -> (r: i32)
    ensures
        r == if left_ms < 1 {
            1
        } else if left_ms > i32::MAX {
            i32::MAX as int
        } else {
            left_ms as int
        },
{
    if left_ms < 1 {
        1
    } else if left_ms > 0x7fff_ffff {
        0x7fff_ffff
    } else {
        left_ms as i32
    }
}

/// A reply is read back as it was written: provisional text stays provisional, final text final.
pub proof fn replies_read_back(t: Seq<char>)
    ensures
        partial_in("PARTIAL "@ + t) == Ok::<(Seq<char>, bool), ReplyErrorView>((t, false)),
        partial_in("FINAL "@ + t) == Ok::<(Seq<char>, bool), ReplyErrorView>((t, true)),
{
    reveal_strlit("PARTIAL ");
    reveal_strlit("FINAL ");
    let p = "PARTIAL "@ + t;
    let f = "FINAL "@ + t;
    assert("PARTIAL "@.is_prefix_of(p));
    assert(p.skip("PARTIAL "@.len() as int) =~= t);
    assert("FINAL "@.is_prefix_of(f));
    assert(f.skip("FINAL "@.len() as int) =~= t);
    if "PARTIAL "@.is_prefix_of(f) {
        assert(f[0] == "PARTIAL "@[0]);
    }
}

/// Of several names the first that is there is found, and none if none is.
pub proof fn the_first_name_that_is_there_is_found(
    present: Seq<Seq<char>>,
    before: Seq<Seq<char>>,
    name: Seq<char>,
    behind: Seq<Seq<char>>,
)
    requires
        forall|i: int| 0 <= i < before.len() ==> !present.contains(#[trigger] before[i]),
    ensures
        present.contains(name) ==> first_of(present, before.push(name) + behind) == Some(name),
        first_of(present, before) is None,
    decreases before.len(),
{
    let all = before.push(name) + behind;
    if before.len() == 0 {
        assert(all[0] == name);
    } else {
        assert(all[0] == before[0]);
        let less = before.skip(1);
        assert(all.skip(1) =~= less.push(name) + behind);
        assert forall|i: int| 0 <= i < less.len() implies !present.contains(#[trigger] less[i]) by {
            assert(less[i] == before[i + 1]);
        }
        the_first_name_that_is_there_is_found(present, less, name, behind);
    }
}

proof fn lemma_part(present: Seq<Seq<char>>, part: Seq<char>)
    ensures
        has_part(present, part) <==> present.contains(part + ".int8.onnx"@) || present.contains(
            part + ".onnx"@,
        ) || present.contains(part + ".int8"@) || present.contains(part),
        first_of(present, onnx_names(part)) == if present.contains(part + ".int8.onnx"@) {
            Some(part + ".int8.onnx"@)
        } else if present.contains(part + ".onnx"@) {
            Some(part + ".onnx"@)
        } else {
            None
        },
{
    let names = part_names(part);
    reveal_with_fuel(first_of, 5);
    assert(names.skip(1).skip(1) =~= seq![part + ".int8"@, part]);
    assert(names.skip(1).skip(1).skip(1) =~= seq![part]);
    let loadable = onnx_names(part);
    assert(loadable.skip(1) =~= seq![part + ".onnx"@]);
}

/// A model is one of tokens, an encoder and a decoder, each under any of its names; with a joiner it is
/// a Zipformer, without one a Paraformer.
pub proof fn the_files_tell_the_model(present: Seq<Seq<char>>)
    ensures
        ({
            let there = |part: Seq<char>|
                present.contains(part + ".int8.onnx"@) || present.contains(part + ".onnx"@)
                    || present.contains(part + ".int8"@) || present.contains(part);
            let whole = present.contains("tokens.txt"@) && there("encoder"@) && there("decoder"@);
            &&& !whole <==> backend_of(present) is None
            &&& whole && there("joiner"@) <==> backend_of(present) == Some(StreamBackend::Zipformer)
            &&& whole && !there("joiner"@) <==> backend_of(present) == Some(
                StreamBackend::Paraformer,
            )
        }),
{
    lemma_part(present, "encoder"@);
    lemma_part(present, "decoder"@);
    lemma_part(present, "joiner"@);
}

/// A model that can be loaded is loaded from its own files, the smaller ones first; one that cannot be
/// names the first part that is not there in a form that can be.
pub proof fn the_smaller_files_are_loaded(dir: Seq<char>, present: Seq<Seq<char>>)
    ensures
        ({
            let small = |part: Seq<char>| present.contains(part + ".int8.onnx"@);
            let large = |part: Seq<char>| present.contains(part + ".onnx"@);
            let path = |part: Seq<char>|
                text::below(
                    dir,
                    if small(part) {
                        part + ".int8.onnx"@
                    } else {
                        part + ".onnx"@
                    },
                );
            let r = parts_in(dir, present);
            &&& backend_of(present) is None <==> r == Err::<Parts, ModelError>(ModelError::NotReady)
            &&& r matches Ok(p) ==> {
                &&& (small("encoder"@) || large("encoder"@)) && p.encoder == path("encoder"@)
                &&& (small("decoder"@) || large("decoder"@)) && p.decoder == path("decoder"@)
                &&& p.joiner == if small("joiner"@) || large("joiner"@) {
                    Some(path("joiner"@))
                } else {
                    None
                }
                &&& p.tokens == text::below(dir, "tokens.txt"@)
                &&& Some(p.backend) == backend_of(present)
            }
            &&& backend_of(present) is Some && !small("encoder"@) && !large("encoder"@) <==> r == Err::<
                Parts,
                ModelError,
            >(ModelError::NoEncoder)
            &&& backend_of(present) is Some && (small("encoder"@) || large("encoder"@)) && !small(
                "decoder"@,
            ) && !large("decoder"@) <==> r == Err::<Parts, ModelError>(ModelError::NoDecoder)
            &&& backend_of(present) == Some(StreamBackend::Zipformer) && (small("encoder"@) || large(
                "encoder"@,
            )) && (small("decoder"@) || large("decoder"@)) && !small("joiner"@) && !large("joiner"@)
                <==> r == Err::<Parts, ModelError>(ModelError::NoJoiner)
            &&& backend_of(present) is Some && (small("encoder"@) || large("encoder"@)) && (small(
                "decoder"@,
            ) || large("decoder"@)) && (backend_of(present) == Some(StreamBackend::Paraformer) || small(
                "joiner"@,
            ) || large("joiner"@)) <==> r is Ok
        }),
{
    lemma_part(present, "encoder"@);
    lemma_part(present, "decoder"@);
    lemma_part(present, "joiner"@);
}

/// The process is told its files, at least one thread, the rate, and what kind of model it is; the
/// joiner goes with a Zipformer only.
pub proof fn the_process_is_told_its_model(p: Parts, threads: u32, sample_rate: u32)
    requires
        p.backend == StreamBackend::Zipformer ==> p.joiner is Some,
    ensures
        ({
            let args = worker_line(p, threads, sample_rate);
            &&& args.contains("--encoder="@ + p.encoder)
            &&& args.contains("--decoder="@ + p.decoder)
            &&& args.contains("--tokens="@ + p.tokens)
            &&& threads > 0 ==> args.contains("--threads="@ + text::decimal(threads as nat))
            &&& threads == 0 ==> args.contains("--threads="@ + text::decimal(1))
            &&& args.contains("--sample-rate="@ + text::decimal(sample_rate as nat))
            &&& p.backend == StreamBackend::Zipformer ==> args.len() == 7 && args.contains(
                "--joiner="@ + p.joiner->Some_0,
            ) && args.last() == "--model-type=transducer"@
            &&& p.backend == StreamBackend::Paraformer ==> args.len() == 6 && args.last()
                == "--model-type=paraformer"@
        }),
{
    let args = worker_line(p, threads, sample_rate);
    assert(args[0] == "--encoder="@ + p.encoder);
    assert(args[1] == "--decoder="@ + p.decoder);
    assert(args[2] == "--tokens="@ + p.tokens);
    assert(args[3] == "--threads="@ + text::decimal(
        if threads < 1 {
            1
        } else {
            threads as nat
        },
    ));
    assert(args[4] == "--sample-rate="@ + text::decimal(sample_rate as nat));
    if p.backend == StreamBackend::Zipformer {
        assert(args[5] == "--joiner="@ + p.joiner->Some_0);
    }
}

/// Of the sound that is handed on no sample is lost and none is cut: all of it but an odd last byte.
pub proof fn only_a_half_sample_is_held_back(pcm: Seq<u8>)
    ensures
        whole_samples(pcm).is_prefix_of(pcm),
        whole_samples(pcm).len() % 2 == 0,
        pcm.len() <= whole_samples(pcm).len() + 1,
{
    assert(pcm.take(pcm.len() as int) =~= pcm);
}

/// Texts, provisional or final, come whole out of the line that carries them, however it ends; an error
/// comes out as its reason, a bare word as no text, and anything else as a fault.
pub proof fn replies_are_read_whole(t: Seq<char>, end: Seq<char>)
    requires
        t.len() == 0 || (t.last() != '\r' && t.last() != '\n'),
        forall|i: int| 0 <= i < end.len() ==> #[trigger] end[i] == '\r' || end[i] == '\n',
    ensures
        partial_in(worker::line_body("PARTIAL "@ + t + end)) == Ok::<(Seq<char>, bool), ReplyErrorView>(
            (t, false),
        ),
        partial_in(worker::line_body("FINAL "@ + t + end)) == Ok::<(Seq<char>, bool), ReplyErrorView>(
            (t, true),
        ),
        partial_in("ERR "@ + t) == Err::<(Seq<char>, bool), ReplyErrorView>(ReplyErrorView::Worker(t)),
        partial_in("PARTIAL"@) == Ok::<(Seq<char>, bool), ReplyErrorView>((Seq::empty(), false)),
        partial_in("FINAL"@) == Ok::<(Seq<char>, bool), ReplyErrorView>((Seq::empty(), true)),
        !"PARTIAL "@.is_prefix_of(t) && !"FINAL "@.is_prefix_of(t) && t != "PARTIAL"@ && t != "FINAL"@
            && !"ERR "@.is_prefix_of(t) ==> partial_in(t) == Err::<(Seq<char>, bool), ReplyErrorView>(
            ReplyErrorView::Bad(t),
        ),
{
    reveal_strlit("PARTIAL ");
    reveal_strlit("FINAL ");
    reveal_strlit("PARTIAL");
    reveal_strlit("FINAL");
    reveal_strlit("ERR ");
    replies_read_back(t);
    let (p, f, e) = ("PARTIAL "@ + t, "FINAL "@ + t, "ERR "@ + t);
    assert(p.last() == if t.len() == 0 {
        ' '
    } else {
        t.last()
    });
    assert(f.last() == if t.len() == 0 {
        ' '
    } else {
        t.last()
    });
    worker::lines_carry_their_text(p, end);
    worker::lines_carry_their_text(f, end);
    worker::faults_are_told_apart(t);
    assert(e[0] == 'E');
    if "PARTIAL "@.is_prefix_of(e) {
        assert(e[0] == "PARTIAL "@[0]);
    }
    if "FINAL "@.is_prefix_of(e) {
        assert(e[0] == "FINAL "@[0]);
    }
    assert("PARTIAL"@[0] == 'P' && "FINAL"@[0] == 'F');
    assert("PARTIAL"@.len() == 7 && "FINAL"@.len() == 5);
}

} // verus!
