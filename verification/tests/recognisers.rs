use xai_dict::capture::{detect_recorder, list_input_devices, mic_hint, test_device, Recorder};
use xai_dict::json::{get_field, get_text, Field, Member};
use xai_dict::local_qwen3::{
    self, cli_args, cli_outcome, extract_text, text_of, transcribe_file, wav_request,
    warm_transcribe, worker_args, Attempt, ModelFiles,
};
use xai_dict::local_stream::{self, StreamBackend};
use xai_dict::local_whisper::{
    clean_transcript, looks_chinese, opencc_configs, traditional_to_simplified, transcript,
    whisper_args, whisper_names, Cleaned,
};
use xai_dict::worker::{
    find_worker_bin, line_text, wait_ready, Health, ReplyError, Wait, WaitError, Waiting, Warm,
};

#[test]
fn extract_json_text() {
    let raw = r#"
Creating recognizer ...
Done!
----
{"lang": "", "emotion": "", "event": "", "text": "拨号，请再说一次。", "timestamps": [], "tokens":[]}
"#;
    assert_eq!(extract_text(raw).as_deref(), Some("拨号，请再说一次。"));
}

#[test]
fn last_json_text_counts() {
    let raw = "{\"text\": \"one\"}\n  {\"text\": \" two \"}  \n{\"text\": \"  \"}\n{\"text\": 3}\n{\"text\" broken\nend";
    assert_eq!(extract_text(raw).as_deref(), Some("two"));
    assert_eq!(extract_text("no json"), None);
    assert_eq!(extract_text("x {\"text\": \"one\"}"), None);
    assert_eq!(extract_text("{\"text\": \"a\\u4f60\\n\"}").as_deref(), Some("a你"));
}

fn member(name: &str, text: Option<&str>) -> Member {
    Member { name: name.into(), text: text.map(String::from), fields: Vec::new() }
}

#[test]
fn members_of_an_object() {
    let ms = vec![member("a", None), member("text", Some(" 你好 ")), member("text", Some("no"))];
    assert_eq!(text_of(&ms).as_deref(), Some("你好"));
    assert_eq!(text_of(&vec![member("text", Some(" "))]), None);
    assert_eq!(text_of(&Vec::new()), None);
    assert_eq!(get_text(&ms, "a"), None);
    let fs = vec![Field { name: "key".into(), text: Some("k".into()) }];
    assert_eq!(get_field(&fs, "key").as_deref(), Some("k"));
    assert_eq!(get_field(&fs, "kez"), None);
}

const FILES: ModelFiles =
    ModelFiles { dir: true, conv_frontend: true, encoder: true, decoder: true, tokenizer: true };

#[test]
fn qwen3_models() {
    assert!(local_qwen3::model_ready(FILES));
    let p = local_qwen3::resolve_model_paths("/m", FILES).unwrap();
    assert_eq!(p.conv_frontend, "/m/conv_frontend.onnx");
    assert_eq!(p.tokenizer, "/m/tokenizer");
    let cases = [
        (ModelFiles { dir: false, ..FILES }, local_qwen3::ModelError::NoDir),
        (ModelFiles { conv_frontend: false, encoder: false, ..FILES }, local_qwen3::ModelError::NoConvFrontend),
        (ModelFiles { encoder: false, ..FILES }, local_qwen3::ModelError::NoEncoder),
        (ModelFiles { decoder: false, ..FILES }, local_qwen3::ModelError::NoDecoder),
        (ModelFiles { tokenizer: false, ..FILES }, local_qwen3::ModelError::NoTokenizer),
    ];
    for (f, e) in cases {
        assert_eq!(local_qwen3::resolve_model_paths("/m", f).unwrap_err(), e);
        assert!(!local_qwen3::model_ready(f) || !f.dir);
    }
    assert_eq!(
        local_qwen3::default_model_dir(Some("/d")),
        "/d/xai-dict/models/sherpa-onnx-qwen3-asr-0.6B-int8-2026-03-25"
    );
}

#[test]
fn qwen3_arguments() {
    let p = local_qwen3::resolve_model_paths("/m", FILES).unwrap();
    assert_eq!(
        worker_args(&p, 6, 512, "甲"),
        [
            "--conv=/m/conv_frontend.onnx",
            "--encoder=/m/encoder.int8.onnx",
            "--decoder=/m/decoder.int8.onnx",
            "--tokenizer=/m/tokenizer",
            "--threads=6",
            "--max-new-tokens=256",
            "--hotwords=甲"
        ]
    );
    assert_eq!(worker_args(&p, 6, 1, "")[5], "--max-new-tokens=32");
    assert_eq!(worker_args(&p, 6, 128, "").len(), 6);
    let a = cli_args(&p, 4, 512, "", "/x.wav");
    assert_eq!(a[4], "--qwen3-asr-max-new-tokens=512");
    assert_eq!(a[5], "--num-threads=4");
    assert_eq!(a[6], "/x.wav");
    assert_eq!(cli_args(&p, 4, 512, "h", "/x.wav")[6], "--qwen3-asr-hotwords=h");
    assert_eq!(wav_request("/x.wav"), "WAV /x.wav\n");
}

#[test]
fn qwen3_replies() {
    assert_eq!(warm_transcribe("OK 你好\r\n").unwrap(), "你好");
    assert_eq!(warm_transcribe("OK\n").unwrap(), "");
    assert_eq!(warm_transcribe("OKAY\n").unwrap(), "");
    assert!(matches!(warm_transcribe("ERR no file\n"), Err(ReplyError::Worker(e)) if e == "no file"));
    assert!(matches!(warm_transcribe("what\n"), Err(ReplyError::Bad(e)) if e == "what"));
    assert!(matches!(transcribe_file(true, Some("OK a\n")), Attempt::Done(t) if t == "a"));
    assert!(matches!(transcribe_file(false, Some("OK a\n")), Attempt::FallBack));
    assert!(matches!(transcribe_file(true, Some("ERR a\n")), Attempt::FallBack));
    assert!(matches!(transcribe_file(true, None), Attempt::FallBack));
}

#[test]
fn qwen3_command_line_tool() {
    assert_eq!(cli_outcome(true, "x", "{\"text\": \"你好\"}"), Ok("你好".into()));
    assert_eq!(cli_outcome(true, "", ""), Ok(String::new()));
    let long = "é".repeat(700);
    assert_eq!(cli_outcome(false, &long, "end \n"), Err(format!("{}\nend", "é".repeat(594))));
}

#[test]
fn processes() {
    assert_eq!(local_qwen3::ensure_warm(Health::Running), Warm::Keep);
    for h in [Health::Absent, Health::Exited, Health::Unknown] {
        assert_eq!(local_qwen3::ensure_warm(h), Warm::Spawn);
        assert_eq!(local_stream::ensure_warm(h), Warm::Spawn);
    }
    assert!(matches!(wait_ready(Waiting::Line("READY".into())), Wait::Ready));
    assert!(matches!(wait_ready(Waiting::Line("loading".into())), Wait::More));
    assert!(matches!(
        wait_ready(Waiting::Line("ERR bad".into())),
        Wait::Failed(WaitError::Worker(e)) if e == "bad"
    ));
    assert!(matches!(wait_ready(Waiting::Late), Wait::Failed(WaitError::Late)));
    assert!(matches!(wait_ready(Waiting::Exited), Wait::Failed(WaitError::Exited)));
    assert!(matches!(wait_ready(Waiting::Eof), Wait::Failed(WaitError::Eof)));
    assert_eq!(line_text("a \r\n"), "a ");
    assert_eq!(
        find_worker_bin("w", Some("/b/w"), Some("/e"), Some("/d"), Some("/h")),
        ["/b/w", "/e/w", "/d/xai-dict/bin/w", "/h/.cargo/bin/w"]
    );
    assert!(find_worker_bin("w", None, None, None, None).is_empty());
}

fn files(names: &[&str]) -> Vec<String> {
    names.iter().map(|s| s.to_string()).collect()
}

#[test]
fn streaming_models() {
    let para = files(&["tokens.txt", "encoder.onnx", "encoder.int8.onnx", "decoder.onnx"]);
    assert_eq!(local_stream::detect_backend(&para), Some(StreamBackend::Paraformer));
    assert!(local_stream::model_ready(&para));
    let p = local_stream::resolve_model_paths("/m", &para).unwrap();
    assert_eq!(p.encoder, "/m/encoder.int8.onnx");
    assert_eq!(p.decoder, "/m/decoder.onnx");
    assert_eq!(
        local_stream::worker_args(&p, 0, 16_000),
        [
            "--encoder=/m/encoder.int8.onnx",
            "--decoder=/m/decoder.onnx",
            "--tokens=/m/tokens.txt",
            "--threads=1",
            "--sample-rate=16000",
            "--model-type=paraformer"
        ]
    );
    let zip = files(&["tokens.txt", "encoder.onnx", "decoder.onnx", "joiner.onnx"]);
    let p = local_stream::resolve_model_paths("/m", &zip).unwrap();
    assert_eq!(p.backend, StreamBackend::Zipformer);
    let args = local_stream::worker_args(&p, 3, 8_000);
    assert_eq!(&args[5..], ["--joiner=/m/joiner.onnx", "--model-type=transducer"]);
    let err = |names: &[&str]| local_stream::resolve_model_paths("/m", &files(names)).unwrap_err();
    assert_eq!(err(&["encoder", "decoder"]), local_stream::ModelError::NotReady);
    assert_eq!(err(&["tokens.txt", "encoder", "decoder"]), local_stream::ModelError::NoEncoder);
    assert_eq!(err(&["tokens.txt", "encoder.onnx", "decoder.int8"]), local_stream::ModelError::NoDecoder);
    assert_eq!(
        err(&["tokens.txt", "encoder.onnx", "decoder.onnx", "joiner"]),
        local_stream::ModelError::NoJoiner
    );
    assert!(!local_stream::model_ready(&files(&[])));
    assert_eq!(local_stream::first_existing(&zip, &["x", "decoder.onnx", "tokens.txt"]), Some("decoder.onnx"));
}

#[test]
fn streaming_protocol() {
    assert_eq!(local_stream::start_request(), "START\n");
    assert_eq!(local_stream::finish_request(), "FINISH\n");
    assert_eq!(local_stream::start_utterance("OK\n"), Ok(()));
    assert_eq!(local_stream::start_utterance("NO\n"), Err("NO".into()));
    assert!(local_stream::feed_pcm(&[]).is_none());
    assert!(local_stream::feed_pcm(&[1]).is_none());
    let q = local_stream::feed_pcm(&[1, 2, 3]).unwrap();
    assert_eq!((q.header.as_str(), q.pcm), ("PCM 2\n", vec![1, 2]));
    let r = local_stream::fed("PARTIAL 你 好\n").unwrap();
    assert_eq!((r.text.as_str(), r.is_final), ("你 好", false));
    let r = local_stream::finish_utterance("FINAL 你好\n").unwrap();
    assert_eq!((r.text.as_str(), r.is_final), ("你好", true));
    let r = local_stream::fed("PARTIAL\n").unwrap();
    assert_eq!((r.text.as_str(), r.is_final), ("", false));
    let r = local_stream::fed("FINAL\n").unwrap();
    assert_eq!((r.text.as_str(), r.is_final), ("", true));
    assert!(matches!(local_stream::fed("ERR x\n"), Err(ReplyError::Worker(e)) if e == "x"));
    assert!(matches!(local_stream::fed("FINALLY\n"), Err(ReplyError::Bad(e)) if e == "FINALLY"));
    assert!(local_stream::parse_partial("PARTIAL a").is_ok());
    assert!(local_stream::loses_worker("stream read timeout"));
    assert!(local_stream::loses_worker("EOF"));
    assert!(!local_stream::loses_worker("START failed: no"));
    assert_eq!(local_stream::poll_ms(0), 1);
    assert_eq!(local_stream::poll_ms(8_000), 8_000);
    assert_eq!(local_stream::poll_ms(u64::MAX), i32::MAX);
}

#[test]
fn whisper() {
    assert_eq!(
        whisper_args("/m", "/w", "zh", 4),
        ["-m", "/m", "-f", "/w", "-l", "zh", "-nt", "-np", "-t", "4", "-nth", "0.6", "--prompt", "以下是普通话的简体中文句子。"]
    );
    assert_eq!(whisper_args("/m", "/w", "", 4)[5], "auto");
    assert_eq!(whisper_args("/m", "/w", "en", 4).len(), 12);
    let raw = "ggml_init: x\n  你好 \n\nwhisper_model_load\nmain: processing\nis processing\nsystem_info\nload_backend y\nworld\n";
    assert_eq!(clean_transcript(raw), "你好 world");
    assert!(looks_chinese("a你"));
    assert!(!looks_chinese("aé。"));
    assert!(matches!(transcript("你", true), Cleaned::Simplify(t) if t == "你"));
    assert!(matches!(transcript("你", false), Cleaned::Done(t) if t == "你"));
    assert!(matches!(transcript("hi", true), Cleaned::Done(t) if t == "hi"));
    assert_eq!(opencc_configs(), ["t2s.json", "t2s", "tw2s.json", "tw2sp.json"]);
    assert_eq!(whisper_names(), ["whisper-cli", "whisper-cpp", "main"]);
    let tries = vec![None, Some(" \n".to_string()), Some(" 简体\n".to_string()), Some("x".into())];
    assert_eq!(traditional_to_simplified("簡體", &tries), "简体");
    assert_eq!(traditional_to_simplified("簡體", &vec![None]), "簡體");
}

#[test]
fn recorders() {
    assert_eq!(detect_recorder(true, true, true), Some(Recorder::PwRecord));
    assert_eq!(detect_recorder(false, true, true), Some(Recorder::Parec));
    assert_eq!(detect_recorder(false, false, true), Some(Recorder::Arecord));
    assert_eq!(detect_recorder(false, false, false), None);
    assert_eq!(Recorder::Parec.program(), "parec");
    assert_eq!(
        Recorder::PwRecord.args(16_000, Some(" usb ")),
        [
            "--raw", "--media-category", "Capture", "--media-role", "Communication", "--rate",
            "16000", "--channels", "1", "--format", "s16", "--target", "usb", "-"
        ]
    );
    assert_eq!(Recorder::PwRecord.args(16_000, Some(" ")).len(), 12);
    assert_eq!(
        Recorder::Parec.args(8_000, None),
        ["--raw", "--format=s16le", "--rate=8000", "--channels=1", "--device=@DEFAULT_SOURCE@"]
    );
    assert_eq!(Recorder::Parec.args(8_000, Some("d"))[4], "--device=d");
    assert_eq!(
        Recorder::Arecord.args(8_000, Some("hw:0")),
        ["-q", "-t", "raw", "-f", "S16_LE", "-c", "1", "-r", "8000", "-D", "hw:0", "-"]
    );
}

#[test]
fn microphones() {
    let pactl = "1\talsa_output.x.monitor\tm\n2\talsa_input.usb\tm\n\nbad\n";
    assert_eq!(list_input_devices(Some(pactl), Some("Sources:\n 1. No")), ["alsa_input.usb"]);
    let wpctl = " 9. Early\n ├─ Sources:\n │  48. Built-in Audio [vol: 1.00]\n │\n │  50. [x]\n ├─ Filters:\n 51. Late\n";
    assert_eq!(list_input_devices(Some("1 a.monitor"), Some(wpctl)), ["Built-in Audio"]);
    assert_eq!(list_input_devices(None, None), Vec::<String>::new());
    assert_eq!(mic_hint(28_001), "很响 — 注意削波；可降低系统输入增益");
    assert_eq!(mic_hint(1_500), "电平正常");
    assert!(mic_hint(199).starts_with("信号过弱"));
    assert!(mic_hint(200).starts_with("偏轻"));
    assert_eq!(test_device(Some(" a "), "b"), Some("a".into()));
    assert_eq!(test_device(Some(" "), " b "), Some("b".into()));
    assert_eq!(test_device(None, ""), None);
}
