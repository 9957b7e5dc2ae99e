use xai_dict::auth::{
    auth_json_path, pick_token, read_grok_auth_json, resolve_bearer, token_vars, AuthError,
};
use xai_dict::config::Config;
use xai_dict::json::{Field, Member};
use xai_dict::proxy::{
    diagnose_api_host, first_nonblank, local_proxy, normalize_proxy, proxy_vars,
    resolve_http_proxy, ProxyChoice,
};
use xai_dict::stt::{
    audio_done, bearer_header, build_ws_url, event_of, front_fits, params_fit, receive, stop_after, wait_ready, ws_request,
    First, Follow, Incoming, ReadyError, ServerEvent, SttEvent, Transcript, WsUrlError,
};
use xai_dict::stt_rest::{form_fields, rest_url, upload_name};

fn cfg() -> Config {
    Config::defaults(None, None)
}

#[test]
fn proxies_are_normalised() {
    let cases = [
        (" socks5://h:1 ", "http://h:1"),
        ("socks5h://h:1", "http://h:1"),
        ("socks://h:1", "http://h:1"),
        ("http://h:1", "http://h:1"),
        ("https://h:1", "https://h:1"),
        ("h:1", "http://h:1"),
        ("", "http://"),
    ];
    for (raw, want) in cases {
        assert_eq!(normalize_proxy(raw), want);
        assert_eq!(normalize_proxy(want), want);
    }
}

#[test]
fn proxies_are_found() {
    let vars = vec![None, Some("  ".to_string()), Some(" socks5://v:2 ".to_string())];
    assert!(matches!(resolve_http_proxy(Some(" c:1 "), &vars), ProxyChoice::Use(p) if p == "http://c:1"));
    assert!(matches!(resolve_http_proxy(Some(" "), &vars), ProxyChoice::Use(p) if p == "http://v:2"));
    let ProxyChoice::Probe(ports) = resolve_http_proxy(None, &vec![None]) else { panic!() };
    assert_eq!(ports, [7897, 7890, 7891, 10809, 20171, 1087, 8080, 8888]);
    assert_eq!(local_proxy(7890), "http://127.0.0.1:7890");
    assert_eq!(proxy_vars()[0], "HTTPS_PROXY");
    assert_eq!(proxy_vars().len(), 6);
    assert_eq!(first_nonblank(&vars).as_deref(), Some("socks5://v:2"));
}

#[test]
fn host_lookup() {
    let addrs: Vec<String> = (1..=5).map(|i| format!("10.0.0.{i}:443")).collect();
    assert_eq!(
        diagnose_api_host("api.x.ai", Ok(addrs)),
        "api.x.ai -> 10.0.0.1:443, 10.0.0.2:443, 10.0.0.3:443, 10.0.0.4:443"
    );
    assert_eq!(diagnose_api_host("h", Ok(Vec::new())), "h -> ");
    assert_eq!(diagnose_api_host("h", Err("no route".into())), "h resolve failed: no route");
}

#[test]
fn tokens_given() {
    let vars = vec![None, Some(" env ".to_string())];
    assert_eq!(resolve_bearer(Some(" cli "), &vars).as_deref(), Some("cli"));
    assert_eq!(resolve_bearer(Some(" "), &vars).as_deref(), Some("env"));
    assert_eq!(resolve_bearer(None, &vec![Some(" ".into())]), None);
    assert_eq!(token_vars(), ["XAI_API_KEY", "GROK_API_KEY", "GROK_VOICE_API_KEY"]);
    assert_eq!(auth_json_path(Some("/h")), "/h/.grok/auth.json");
    assert_eq!(auth_json_path(None), "./.grok/auth.json");
}

#[test]
fn tokens_in_the_file() {
    let read = |raw: &str| read_grok_auth_json(raw).ok();
    assert_eq!(read(r#"{"https://auth.x.ai/1": {"key": "a"}, "z": {"key": "b"}}"#).as_deref(), Some("a"));
    assert_eq!(read(r#"{"a": {"key": "b"}, "https://auth.x.ai": {"key": "c"}}"#).as_deref(), Some("c"));
    assert_eq!(read(r#"{"auth.x.ai/1": {"key": "a"}, "auth.x.ai/2": {"key": "b"}}"#).as_deref(), Some("b"));
    assert_eq!(read(r#"{"a": {"key": ""}, "b": {"key": "x"}}"#).as_deref(), Some("x"));
    assert_eq!(read(r#"{"token": "t", "access_token": ""}"#).as_deref(), Some("t"));
    assert_eq!(read(r#"{"key": "k"}"#).as_deref(), Some("k"));
    assert!(matches!(read_grok_auth_json("{}"), Err(AuthError::NoToken)));
    assert!(matches!(read_grok_auth_json("[1]"), Err(AuthError::NoToken)));
    assert!(matches!(read_grok_auth_json("{"), Err(AuthError::Parse(_))));
}

#[test]
fn tokens_among_members() {
    let scope = |name: &str, key: &str| Member {
        name: name.into(),
        text: None,
        fields: vec![Field { name: "key".into(), text: Some(key.into()) }],
    };
    let ms = vec![scope("o", "1"), scope("auth.x.ai", "2"), scope("auth.x.ai", "")];
    assert_eq!(pick_token(&ms).as_deref(), Some("2"));
    assert_eq!(pick_token(&vec![scope("o", "1")]).as_deref(), Some("1"));
    assert_eq!(pick_token(&Vec::new()), None);
}

fn message(kind: &str, text: &str, message: &str) -> ServerEvent {
    ServerEvent {
        kind: kind.into(),
        text: text.into(),
        message: message.into(),
        is_final: true,
        speech_final: false,
    }
}

#[test]
fn events_of_the_service() {
    assert!(matches!(event_of(message("transcript.created", "", "")), Some(SttEvent::Ready)));
    assert!(matches!(
        event_of(message("transcript.partial", "a", "")),
        Some(SttEvent::Partial { text, is_final: true, speech_final: false }) if text == "a"
    ));
    assert!(matches!(event_of(message("transcript.done", "b", "")), Some(SttEvent::Done { text }) if text == "b"));
    assert!(matches!(event_of(message("error", "c", "d")), Some(SttEvent::Error { message }) if message == "d"));
    assert!(matches!(event_of(message("error", "c", "")), Some(SttEvent::Error { message }) if message == "c"));
    assert!(event_of(message("other", "", "")).is_none());
}

#[test]
fn what_comes_over_the_connection() {
    let (e, more) = receive(Incoming::Garbled("x".into()));
    assert!(more && matches!(e, Some(SttEvent::Error { message }) if message == "parse: x"));
    let (e, more) = receive(Incoming::Broken("y".into()));
    assert!(!more && matches!(e, Some(SttEvent::Error { message }) if message == "connection lost: y"));
    let (e, more) = receive(Incoming::Other);
    assert!(more && e.is_none());
    let (e, more) = receive(Incoming::Event(message("transcript.done", "b", "")));
    assert!(more && matches!(e, Some(SttEvent::Done { .. })));
}

#[test]
fn ready_comes_first() {
    assert!(wait_ready(First::Event(SttEvent::Ready)).is_ok());
    let e = SttEvent::Error { message: "m".into() };
    assert!(matches!(wait_ready(First::Event(e)), Err(ReadyError::Stt(m)) if m == "m"));
    let e = SttEvent::Done { text: "m".into() };
    assert!(matches!(wait_ready(First::Event(e)), Err(ReadyError::Unexpected)));
    assert!(matches!(wait_ready(First::Closed), Err(ReadyError::Closed)));
    assert!(matches!(wait_ready(First::Late), Err(ReadyError::Late)));
    assert_eq!(audio_done(), r#"{"type":"audio.done"}"#);
    assert_eq!(bearer_header("t"), "Bearer t");
}

#[test]
fn address_of_the_stream() {
    let mut c = cfg();
    assert_eq!(
        build_ws_url(&c).unwrap(),
        "wss://api.x.ai/v1/stt?sample_rate=16000&encoding=pcm&interim_results=true&endpointing=400&language=zh"
    );
    c.language = "auto".into();
    c.interim_results = false;
    c.keyterms = vec![" 专有 名词 ".into(), " ".into(), "a&b".into()];
    assert_eq!(
        build_ws_url(&c).unwrap(),
        "wss://api.x.ai/v1/stt?sample_rate=16000&encoding=pcm&interim_results=false&endpointing=400\
         &keyterm=%E4%B8%93%E6%9C%89+%E5%90%8D%E8%AF%8D&keyterm=a%26b"
    );
}

#[test]
fn address_with_a_fragment() {
    let mut c = cfg();
    c.api_base = "https://h/#x".into();
    c.language = "auto".into();
    assert_eq!(
        build_ws_url(&c).unwrap(),
        "wss://h/?sample_rate=16000&encoding=pcm&interim_results=true&endpointing=400#x/v1/stt"
    );
    let params = ws_request(&c).unwrap().params;
    assert!(params_fit("wss://h/#x", &params) && params_fit("wss://h/", &params));
    assert!(params_fit("wss://h/?a", &params) && params_fit("wss://h/?#", &params));
    assert!(params_fit("wss://h/#x", &Vec::new()) && params_fit("wss://h/?#x", &Vec::new()));
    c.api_base = "https://h/?#x".into();
    assert_eq!(
        build_ws_url(&c).unwrap(),
        "wss://h/?sample_rate=16000&encoding=pcm&interim_results=true&endpointing=400#x/v1/stt"
    );
}

#[test]
fn front_of_an_address() {
    assert!(front_fits("wss://h/v1/stt") && front_fits("wss://") && front_fits("wss:////a\tb\\c"));
    assert!(front_fits("wss://me:secret@h?a#b"));
    assert!(!front_fits("ws://h/") && !front_fits("wss:/h") && !front_fits(""));
}

#[test]
fn address_before_encoding() {
    let address = |base: &str, path: &str| {
        let mut c = cfg();
        c.api_base = base.into();
        c.stt_path = path.into();
        ws_request(&c).map(|q| q.address)
    };
    assert_eq!(address(" https://h/v1// ", "/v1/stt").as_deref(), Some("wss://h/v1/stt"));
    assert_eq!(address("h", "stt").as_deref(), Some("wss://h/stt"));
    assert_eq!(address("wss://h", "/v1/stt").as_deref(), Some("wss://h/v1/stt"));
    assert_eq!(address("http://h", "/v1/stt"), None);
    assert_eq!(ws_request(&cfg()).unwrap().params.len(), 5);
}

#[test]
fn addresses_that_fail() {
    let mut c = cfg();
    c.api_base = "http://h".into();
    assert!(matches!(build_ws_url(&c), Err(WsUrlError::Insecure)));
    c.api_base = "https://[".into();
    assert!(matches!(build_ws_url(&c), Err(WsUrlError::Parse(_))));
    c.api_base = "https://h/".to_string() + &"p".repeat(100_000);
    assert!(build_ws_url(&c).unwrap().starts_with("wss://h/ppp"));
}

#[test]
fn upload() {
    let mut c = cfg();
    assert_eq!(rest_url(&c), "https://api.x.ai/v1/stt");
    c.api_base = " https://h/v1/ ".into();
    assert_eq!(rest_url(&c), "https://h/v1/stt");
    c.keyterms = vec!["x ".into(), "".into()];
    let f = form_fields(&c);
    let f: Vec<(&str, &str)> = f.iter().map(|(a, b)| (a.as_str(), b.as_str())).collect();
    assert_eq!(f, [("language", "zh"), ("format", "true"), ("keyterm", "x")]);
    c.language = String::new();
    let f = form_fields(&c);
    assert_eq!((f[0].0.as_str(), f[0].1.as_str()), ("format", "false"));
    assert_eq!(upload_name(Some("a.wav")), "a.wav");
    assert_eq!(upload_name(None), "audio.wav");
}

fn partial(text: &str, done: bool) -> SttEvent {
    SttEvent::Partial { text: text.into(), is_final: done, speech_final: done }
}

#[test]
fn sentences_of_a_stream() {
    let mut t = Transcript::new();
    assert_eq!(t.heard(partial("你", false)), Follow::More);
    assert_eq!(t.heard(partial("", true)), Follow::More);
    assert_eq!(t.latest, "你");
    assert_eq!(t.heard(partial(" 你好 ", true)), Follow::Sentence);
    assert_eq!(t.heard(partial(" 你好 ", true)), Follow::Sentence);
    assert_eq!(t.heard(partial("  ", true)), Follow::Sentence);
    assert_eq!(t.heard(partial("世", false)), Follow::More);
    assert_eq!(t.heard(SttEvent::Done { text: "世界".into() }), Follow::Stop);
    assert_eq!(t.whole(), "你好 世界");
    let mut t = Transcript::new();
    assert_eq!(t.heard(SttEvent::Ready), Follow::Stop);
    assert_eq!(t.heard(SttEvent::Error { message: "x".into() }), Follow::Stop);
    assert_eq!(t.heard(SttEvent::Done { text: "".into() }), Follow::Stop);
    assert_eq!(t.whole(), "");
}

#[test]
fn repeated_last_words_count_once() {
    let mut t = Transcript::new();
    t.heard(partial("a", true));
    t.heard(partial("b", true));
    t.heard(partial("a", true));
    t.heard(partial("a", false));
    assert_eq!(t.whole(), "a b a");
}

#[test]
fn recording_limit() {
    assert_eq!(stop_after(true, 0), None);
    assert_eq!(stop_after(false, 0), Some(8));
    assert_eq!(stop_after(false, 3), Some(3));
    assert_eq!(stop_after(true, 3), Some(3));
}
