//! The streaming interface of the xAI API: its address, its events, and the text they make.

use crate::config::{Config, Settings};
use crate::text;
use vstd::prelude::*;

verus! {

/// What the service reports.
#[derive(Debug, Clone)]
pub enum SttEvent {
    Ready,
    Partial { text: String, is_final: bool, speech_final: bool },
    Done { text: String },
    Error { message: String },
}

/// What an [`SttEvent`] holds.
pub enum SttView {
    Ready,
    Partial { text: Seq<char>, is_final: bool, speech_final: bool },
    Done { text: Seq<char> },
    Error { message: Seq<char> },
}

impl View for SttEvent {
    type V = SttView;

    open spec fn view(&self) -> SttView {
        match *self {
            SttEvent::Ready => SttView::Ready,
            SttEvent::Partial { text, is_final, speech_final } => SttView::Partial {
                text: text@,
                is_final,
                speech_final,
            },
            SttEvent::Done { text } => SttView::Done { text: text@ },
            SttEvent::Error { message } => SttView::Error { message: message@ },
        }
    }
}

/// A message of the service.
#[derive(Debug, Clone)]
pub struct ServerEvent {
    pub kind: String,
    pub text: String,
    pub message: String,
    pub is_final: bool,
    pub speech_final: bool,
}

/// What a message of the service means; messages of other kinds mean nothing.
pub open spec fn meaning(e: ServerEvent) -> Option<SttView> {
    if e.kind@ == "transcript.created"@ {
        Some(SttView::Ready)
    } else if e.kind@ == "transcript.partial"@ {
        Some(
            SttView::Partial {
                text: e.text@,
                is_final: e.is_final,
                speech_final: e.speech_final,
            },
        )
    } else if e.kind@ == "transcript.done"@ {
        Some(SttView::Done { text: e.text@ })
    } else if e.kind@ == "error"@ {
        Some(
            SttView::Error {
                message: if e.message@.len() == 0 {
                    e.text@
                } else {
                    e.message@
                },
            },
        )
    } else {
        None
    }
}

/// The view of an optional event.
pub open spec fn opt_event(e: Option<SttEvent>) -> Option<SttView> {
    match e {
        Some(x) => Some(x@),
        None => None,
    }
}

/// Tells what a message of the service means.
pub fn event_of(e: ServerEvent) -> (r: Option<SttEvent>)
    ensures
        opt_event(r) == meaning(e),
{
    let kind = e.kind.as_str();
    if text::same(kind, "transcript.created") {
        Some(SttEvent::Ready)
    } else if text::same(kind, "transcript.partial") {
        Some(
            SttEvent::Partial {
                text: e.text,
                is_final: e.is_final,
                speech_final: e.speech_final,
            },
        )
    } else if text::same(kind, "transcript.done") {
        Some(SttEvent::Done { text: e.text })
    } else if text::same(kind, "error") {
        Some(
            SttEvent::Error {
                message: if e.message.as_str().unicode_len() == 0 {
                    e.text
                } else {
                    e.message
                },
            },
        )
    } else {
        None
    }
}

/// What came over the connection.
#[derive(Debug, Clone)]
pub enum Incoming {
    /// A message of the service.
    Event(ServerEvent),
    /// A text that is no such message, and why.
    Garbled(String),
    /// Anything but a text.
    Other,
    /// The connection broke, and why.
    Broken(String),
}

/// What follows on what came over the connection: an event, and whether to go on reading.
pub open spec fn received(msg: Incoming) -> (Option<SttView>, bool) {
    match msg {
        Incoming::Event(e) => (meaning(e), true),
        Incoming::Garbled(why) => (Some(SttView::Error { message: "parse: "@ + why@ }), true),
        Incoming::Other => (None, true),
        Incoming::Broken(why) => (
            Some(SttView::Error { message: "connection lost: "@ + why@ }),
            false,
        ),
    }
}

/// Decides what follows on what came over the connection.
pub fn receive(msg: Incoming) -> (r: (Option<SttEvent>, bool))
    ensures
        (opt_event(r.0), r.1) == received(msg),
{
    match msg {
        Incoming::Event(e) => (event_of(e), true),
        Incoming::Garbled(why) => (
            Some(SttEvent::Error { message: text::cat("parse: ", why.as_str()) }),
            true,
        ),
        Incoming::Other => (None, true),
        Incoming::Broken(why) => (
            Some(SttEvent::Error { message: text::cat("connection lost: ", why.as_str()) }),
            false,
        ),
    }
}

/// What came first on a new connection.
#[derive(Debug, Clone)]
pub enum First {
    Event(SttEvent),
    /// It was closed.
    Closed,
    /// Nothing, in the time allowed.
    Late,
}

/// Why a new connection is not ready.
#[derive(Debug, Clone)]
pub enum ReadyError {
    /// The service reported an error.
    Stt(String),
    /// Something else came first.
    Unexpected,
    Closed,
    Late,
}

/// Whether a new connection is ready: that must be the first event.
pub fn wait_ready(first: First) -> (r: Result<(), ReadyError>)
    ensures
        match first {
            First::Event(e) => match e@ {
                SttView::Ready => r is Ok,
                SttView::Error { message } => r matches Err(ReadyError::Stt(m)) && m@ == message,
                _ => r matches Err(ReadyError::Unexpected),
            },
            First::Closed => r matches Err(ReadyError::Closed),
            First::Late => r matches Err(ReadyError::Late),
        },
{
    match first {
        First::Event(e) => match e {
            SttEvent::Ready => Ok(()),
            SttEvent::Error { message } => Err(ReadyError::Stt(message)),
            SttEvent::Partial { .. } => Err(ReadyError::Unexpected),
            SttEvent::Done { .. } => Err(ReadyError::Unexpected),
        },
        First::Closed => Err(ReadyError::Closed),
        First::Late => Err(ReadyError::Late),
    }
}

/// The message that ends the sound.
pub fn audio_done() -> (r: &'static str)
    ensures
        r@ == "{\"type\":\"audio.done\"}"@,
{
    "{\"type\":\"audio.done\"}"
}

/// The value of the header that carries the token.
pub fn bearer_header(token: &str) -> (r: String)
    ensures
        r@ == "Bearer "@ + token@,
{
    text::cat("Bearer ", token)
}

/// The root of the API as the address of a web socket, or nothing if it is not secure.
pub open spec fn ws_base(api_base: Seq<char>) -> Option<Seq<char>> {
    let base = text::without_end(text::trimmed(api_base), '/', '/');
    if "https://"@.is_prefix_of(base) {
        Some("wss://"@ + text::without_starts(base, "https://"@))
    } else if "http://"@.is_prefix_of(base) {
        None
    } else if "wss://"@.is_prefix_of(base) {
        Some(base)
    } else {
        Some("wss://"@ + base)
    }
}

/// The path below `base`: a version that `base` ends with is not repeated.
pub open spec fn ws_path(base: Seq<char>, stt_path: Seq<char>) -> Seq<char> {
    let path = if "/v1"@.is_suffix_of(base) && "/v1/"@.is_prefix_of(stt_path) {
        text::without_starts(stt_path, "/v1"@)
    } else {
        stt_path
    };
    if "/"@.is_prefix_of(path) {
        path
    } else {
        "/"@ + path
    }
}

/// The address of the interface without its parameters, or nothing if it is not secure.
pub open spec fn ws_address(s: Settings) -> Option<Seq<char>> {
    match ws_base(s.api_base) {
        Some(base) => Some(base + ws_path(base, s.stt_path)),
        None => None,
    }
}

fn make_address(cfg: &Config) -> (r: Option<String>)
    ensures
        text::opt_string(r) == ws_address(cfg@),
{
    let root = text::trim_end_of(text::trim(cfg.api_base.as_str()), '/', '/');
    let base = if text::starts_with(root, "https://") {
        text::cat("wss://", text::trim_starts(root, "https://"))
    } else if text::starts_with(root, "http://") {
        return None;
    } else if text::starts_with(root, "wss://") {
        root.to_string()
    } else {
        text::cat("wss://", root)
    };
    let full = cfg.stt_path.as_str();
    let path = if text::ends_with(base.as_str(), "/v1") && text::starts_with(full, "/v1/") {
        text::trim_starts(full, "/v1")
    } else {
        full
    };
    let ghost b = base@;
    let mut out = base;
    if text::starts_with(path, "/") {
        out.append(path);
    } else {
        out.append("/");
        out.append(path);
        assert(b + "/"@ + path@ =~= b + ("/"@ + path@));
    }
    Some(out)
}

/// A parameter: its name and its value.
pub type Param = (String, String);

/// The names and values of parameters.
pub open spec fn params_view(v: Seq<Param>) -> Seq<(Seq<char>, Seq<char>)> {
    v.map_values(|p: Param| (p.0@, p.1@))
}

/// Whether a language is asked for.
pub open spec fn names_language(language: Seq<char>) -> bool {
    language.len() > 0 && language != "auto"@
}

/// Whether a language is asked for.
pub fn asks_language(language: &str) -> (r: bool)
    ensures
        r == names_language(language@),
{
    language.unicode_len() > 0 && !text::same(language, "auto")
}

/// The parameter for each term that is not blank.
pub open spec fn term_params(terms: Seq<Seq<char>>) -> Seq<(Seq<char>, Seq<char>)>
    decreases terms.len(),
{
    if terms.len() == 0 {
        seq![]
    } else if text::trimmed(terms.last()).len() == 0 {
        term_params(terms.drop_last())
    } else {
        term_params(terms.drop_last()).push(("keyterm"@, text::trimmed(terms.last())))
    }
}

/// Adds the parameter for each term that is not blank.
pub fn push_terms(terms: &Vec<String>, out: &mut Vec<Param>)
    ensures
        params_view(final(out)@) == params_view(old(out)@) + term_params(text::texts(terms@)),
{
    let ghost all = text::texts(terms@);
    let ghost was = params_view(out@);
    let mut i: usize = 0;
    assert(was + term_params(all.take(0)) =~= was);
    while i < terms.len()
        invariant
            i <= terms.len(),
            all == text::texts(terms@),
            params_view(out@) == was + term_params(all.take(i as int)),
        decreases terms.len() - i,
    {
        let ghost before = out@;
        let ghost now = all.take(i as int + 1);
        assert(now.last() == terms@[i as int]@);
        assert(now.drop_last() =~= all.take(i as int));
        let term = text::trim(terms[i].as_str());
        if term.unicode_len() > 0 {
            out.push(("keyterm".to_string(), term.to_string()));
            assert(params_view(out@) =~= params_view(before).push(("keyterm"@, term@)));
            assert(params_view(out@) =~= was + term_params(now));
        }
        i += 1;
    }
    assert(all.take(all.len() as int) =~= all);
}

/// The parameters of the interface.
pub open spec fn ws_params(s: Settings) -> Seq<(Seq<char>, Seq<char>)> {
    seq![
        ("sample_rate"@, text::decimal(s.sample_rate as nat)),
        ("encoding"@, "pcm"@),
        (
            "interim_results"@,
            if s.interim_results {
                "true"@
            } else {
                "false"@
            },
        ),
        ("endpointing"@, text::decimal(s.endpointing_ms as nat)),
    ] + (if names_language(s.language) {
        seq![("language"@, s.language)]
    } else {
        seq![]
    }) + term_params(s.keyterms)
}

fn make_params(cfg: &Config) -> (r: Vec<Param>)
    ensures
        params_view(r@) == ws_params(cfg@),
{
    let mut out: Vec<Param> = Vec::new();
    out.push(("sample_rate".to_string(), text::number(cfg.sample_rate as u64)));
    out.push(("encoding".to_string(), "pcm".to_string()));
    out.push(
        (
            "interim_results".to_string(),
            (if cfg.interim_results {
                "true"
            } else {
                "false"
            }).to_string(),
        ),
    );
    out.push(("endpointing".to_string(), text::number(cfg.endpointing_ms as u64)));
    if asks_language(cfg.language.as_str()) {
        out.push(("language".to_string(), cfg.language.clone()));
    }
    let ghost head = params_view(out@);
    push_terms(&cfg.keyterms, &mut out);
    assert(head + term_params(cfg@.keyterms) =~= ws_params(cfg@));
    out
}

/// Where the streaming interface is.
#[derive(Debug, Clone)]
pub struct WsRequest {
    pub address: String,
    pub params: Vec<Param>,
}

/// Says where the streaming interface is, or nothing if the settings ask for an insecure
/// connection.
pub fn ws_request(cfg: &Config) -> (r: Option<WsRequest>)
    ensures
        match ws_address(cfg@) {
            Some(a) => r matches Some(q) && q.address@ == a && params_view(q.params@) == ws_params(
                cfg@,
            ),
            None => r is None,
        },
{
    match make_address(cfg) {
        Some(address) => Some(WsRequest { address, params: make_params(cfg) }),
        None => None,
    }
}

/// Whether a character of an address is passed over wherever it stands.
pub open spec fn is_passed_over(c: char) -> bool {
    c == '\t' || c == '\n' || c == '\r'
}

/// Whether a character parts an address: both slashes count.
pub open spec fn is_slash(c: char) -> bool {
    c == '/' || c == '\\'
}

/// How many slashes `s` begins with.
pub open spec fn slashes(s: Seq<char>) -> nat
    decreases s.len(),
{
    if s.len() == 0 {
        0
    } else if is_passed_over(s[0]) {
        slashes(s.skip(1))
    } else if is_slash(s[0]) {
        1 + slashes(s.skip(1))
    } else {
        0
    }
}

/// How many characters of `s`, which stands behind the scheme of an address, tell who connects to
/// which host: those after the slashes that it begins with, up to the path, the query or the
/// fragment. Once one was seen, `begun` holds.
pub open spec fn authority_len(s: Seq<char>, begun: bool) -> nat
    decreases s.len(),
{
    if s.len() == 0 {
        0
    } else if is_passed_over(s[0]) || (is_slash(s[0]) && !begun) {
        authority_len(s.skip(1), begun)
    } else if is_slash(s[0]) || s[0] == '?' || s[0] == '#' {
        0
    } else {
        1 + authority_len(s.skip(1), true)
    }
}

/// Whether the part of a `wss` address in front of its path can be counted: its slashes with 32 bits,
/// and the characters after them with 32 bits and a sign. What follows may be of any length.
pub open spec fn has_countable_front(address: Seq<char>) -> bool {
    &&& "wss://"@.is_prefix_of(address)
    &&& slashes(address.skip(4)) <= u32::MAX
    &&& authority_len(address.skip(4), false) <= i32::MAX
}

/// Tells whether the part of a `wss` address in front of its path can be counted.
pub fn front_fits(address: &str) -> (r: bool)
    ensures
        r == has_countable_front(address@),
{
    if !text::starts_with(address, "wss://") {
        return false;
    }
    proof {
        reveal_strlit("wss://");
    }
    let cs = text::chars_of(address);
    let ghost rest = address@.skip(4);
    let mut slashes_seen: usize = 0;
    let mut seen: usize = 0;
    let mut i: usize = 4;
    while i < cs.len() && (cs[i] == '/' || cs[i] == '\\' || cs[i] == '\t' || cs[i] == '\n' || cs[i]
        == '\r')
        invariant
            4 <= i <= cs.len(),
            cs@ == address@,
            rest == address@.skip(4),
            slashes_seen <= i,
            slashes(rest) == slashes_seen + slashes(cs@.skip(i as int)),
            authority_len(rest, false) == authority_len(cs@.skip(i as int), false),
        decreases cs.len() - i,
    {
        assert(cs@.skip(i as int).skip(1) =~= cs@.skip(i as int + 1));
        if cs[i] == '/' || cs[i] == '\\' {
            slashes_seen += 1;
        }
        i += 1;
    }
    assert(slashes(cs@.skip(i as int)) == 0);
    let ghost mut begun = false;
    while i < cs.len() && cs[i] != '/' && cs[i] != '\\' && cs[i] != '?' && cs[i] != '#'
        invariant
            4 <= i <= cs.len(),
            cs@ == address@,
            seen <= i,
            !begun && i < cs.len() ==> !is_slash(cs@[i as int]) && !is_passed_over(cs@[i as int]),
            authority_len(rest, false) == seen + authority_len(cs@.skip(i as int), begun),
        decreases cs.len() - i,
    {
        assert(cs@.skip(i as int).skip(1) =~= cs@.skip(i as int + 1));
        if cs[i] != '\t' && cs[i] != '\n' && cs[i] != '\r' {
            seen += 1;
            proof {
                begun = true;
            }
        }
        i += 1;
    }
    assert(authority_len(cs@.skip(i as int), begun) == 0);
    slashes_seen as u64 <= 0xffff_ffff && seen as u64 <= 0x7fff_ffff
}

/// The number of bytes in which a character of a parameter is written: itself, a plus sign for a
/// space, or three for each byte of it.
pub open spec fn written_char(c: char) -> nat {
    if ('0' <= c && c <= '9') || ('A' <= c && c <= 'Z') || ('a' <= c && c <= 'z') || c == '*' || c
        == '-' || c == '.' || c == '_' || c == ' ' {
        1
    } else if (c as u32) < 0x80 {
        3
    } else if (c as u32) < 0x800 {
        6
    } else if (c as u32) < 0x1_0000 {
        9
    } else {
        12
    }
}

/// The number of bytes in which a text is written in a parameter.
pub open spec fn written_len(s: Seq<char>) -> nat
    decreases s.len(),
{
    if s.len() == 0 {
        0
    } else {
        written_len(s.drop_last()) + written_char(s.last())
    }
}

/// The number of bytes that parameters add to an address, each with the two signs in front of it and
/// in its middle.
pub open spec fn added_len(params: Seq<(Seq<char>, Seq<char>)>) -> nat
    decreases params.len(),
{
    if params.len() == 0 {
        0
    } else {
        added_len(params.drop_last()) + 2 + written_len(params.last().0) + written_len(
            params.last().1,
        )
    }
}

/// The length of an address that ends with its path or query once parameters are added. Even without
/// any it gets a question mark, and the first parameter needs no sign in front where a question mark
/// stands last already.
pub open spec fn grown_len(head: Seq<char>, params: Seq<(Seq<char>, Seq<char>)>) -> int {
    let path = text::up_to(head, '?');
    let added = if params.len() > 0 && path.len() + 1 == head.len() {
        added_len(params) - 1
    } else if params.len() == 0 && path.len() == head.len() {
        1
    } else {
        added_len(params) as int
    };
    head.len() + added
}

/// Whether parameters can be added to the address `parsed`: where they begin has to be a position of
/// 32 bits, and so have both ends of the mark in front of a fragment, before and after.
pub open spec fn has_room(parsed: Seq<char>, params: Seq<(Seq<char>, Seq<char>)>) -> bool {
    if text::has(parsed, "#"@) {
        let head = text::up_to(parsed, '#');
        head.len() < u32::MAX && grown_len(head, params) <= u32::MAX
    } else {
        text::has(parsed, "?"@) || parsed.len() <= u32::MAX
    }
}

fn char_bytes(c: char) -> (r: u64)
    ensures
        r == written_char(c),
{
    if ('0' <= c && c <= '9') || ('A' <= c && c <= 'Z') || ('a' <= c && c <= 'z') || c == '*' || c
        == '-' || c == '.' || c == '_' || c == ' ' {
        1
    } else if (c as u32) < 0x80 {
        3
    } else if (c as u32) < 0x800 {
        6
    } else if (c as u32) < 0x1_0000 {
        9
    } else {
        12
    }
}

proof fn lemma_written_grows(s: Seq<char>, k: int)
    requires
        0 <= k <= s.len(),
    ensures
        written_len(s.take(k)) <= written_len(s),
    decreases s.len(),
{
    if k == s.len() {
        assert(s.take(k) =~= s);
    } else {
        lemma_written_grows(s.drop_last(), k);
        assert(s.drop_last().take(k) =~= s.take(k));
    }
}

/// What is left of `room` bytes once a text is written, unless there are too few.
fn room_after(s: &str, room: u64) -> (r: Option<u64>)
    ensures
        match r {
            Some(left) => left == room - written_len(s@),
            None => written_len(s@) > room,
        },
{
    let cs = text::chars_of(s);
    let mut left: u64 = room;
    let mut i: usize = 0;
    assert(cs@.take(0) =~= seq![]);
    while i < cs.len()
        invariant
            i <= cs.len(),
            cs@ == s@,
            left == room - written_len(cs@.take(i as int)),
        decreases cs.len() - i,
    {
        let n: u64 = char_bytes(cs[i]);
        proof {
            let now = cs@.take(i as int + 1);
            assert(now.drop_last() =~= cs@.take(i as int));
            assert(now.last() == cs@[i as int]);
            lemma_written_grows(cs@, i as int + 1);
        }
        if n > left {
            return None;
        }
        left = left - n;
        i += 1;
    }
    assert(cs@.take(cs@.len() as int) =~= cs@);
    Some(left)
}

proof fn lemma_added_grows(params: Seq<(Seq<char>, Seq<char>)>, k: int)
    requires
        0 <= k <= params.len(),
    ensures
        added_len(params.take(k)) <= added_len(params),
    decreases params.len(),
{
    if k == params.len() {
        assert(params.take(k) =~= params);
    } else {
        lemma_added_grows(params.drop_last(), k);
        assert(params.drop_last().take(k) =~= params.take(k));
    }
}

fn fits(params: &Vec<Param>, room: u64) -> (r: bool)
    ensures
        r == (added_len(params_view(params@)) <= room),
{
    let ghost all = params_view(params@);
    let mut left: u64 = room;
    let mut i: usize = 0;
    assert(all.take(0) =~= seq![]);
    while i < params.len()
        invariant
            i <= params.len(),
            all == params_view(params@),
            left == room - added_len(all.take(i as int)),
        decreases params.len() - i,
    {
        proof {
            let now = all.take(i as int + 1);
            assert(now.drop_last() =~= all.take(i as int));
            assert(now.last() == all[i as int]);
            lemma_added_grows(all, i as int + 1);
        }
        if left < 2 {
            return false;
        }
        left = match room_after(params[i].0.as_str(), left - 2) {
            Some(n) => n,
            None => return false,
        };
        left = match room_after(params[i].1.as_str(), left) {
            Some(n) => n,
            None => return false,
        };
        i += 1;
    }
    assert(all.take(all.len() as int) =~= all);
    true
}

/// Tells whether parameters can be added to the address `parsed`.
pub fn params_fit(parsed: &str, params: &Vec<Param>) -> (r: bool)
    ensures
        r == has_room(parsed@, params_view(params@)),
{
    if text::contains(parsed, "#") {
        let head = text::before_char(parsed, '#');
        let at: usize = head.unicode_len();
        if at as u64 >= 0xffff_ffff {
            return false;
        }
        if params.len() == 0 {
            return true;
        }
        let path: usize = text::before_char(head, '?').unicode_len();
        let room: u64 = 0xffff_ffff - at as u64;
        if path < at && path + 1 == at {
            fits(params, room + 1)
        } else {
            fits(params, room)
        }
    } else {
        text::contains(parsed, "?") || parsed.unicode_len() as u64 <= 0xffff_ffff
    }
}

/// `url::ParseError`: why a text is not the address of anything.
#[verifier::external_type_specification]
#[verifier::external_body]
pub struct ExUrlError(url::ParseError);

/// What `url::Url::parse` makes of an address: the same, normalised, or nothing if it is none.
pub uninterp spec fn url_parsed(address: Seq<char>) -> Option<Seq<char>>;

/// Calls `url::Url::parse` and hands out the text of the address that it returns. Claims that this
/// depends on the address alone. It counts the slashes behind the scheme with 32 bits, and the
/// characters from there to the path with 32 bits and a sign, so addresses where these do not do are
/// left out, and so are other schemes.
#[verifier::external_body]
fn parse_address(address: &str) -> (r: Result<String, url::ParseError>)
    requires
        has_countable_front(address@),
    ensures
        match r {
            Ok(u) => url_parsed(address@) == Some(u@),
            Err(_) => url_parsed(address@) is None,
        },
{
    url::Url::parse(address).map(String::from)
}

/// What `url::Url::parse_with_params` makes of an address and parameters: the whole address,
/// encoded.
pub uninterp spec fn url_with_params(
    address: Seq<char>,
    params: Seq<(Seq<char>, Seq<char>)>,
) -> Seq<char>;

/// Calls `url::Url::parse_with_params` and hands out the text of the address that it returns.
/// Claims that this depends on the address and the parameters alone, and that there is one
/// wherever `url::Url::parse` gives one, as the address is parsed in the same way. It panics where
/// a position in the result does not fit in 32 bits, so these are left out.
#[verifier::external_body]
fn parse_with_params(address: &str, params: &Vec<Param>) -> (r: Result<String, url::ParseError>)
    requires
        has_countable_front(address@),
        url_parsed(address@) matches Some(u) && has_room(u, params_view(params@)),
    ensures
        r is Ok,
        r->Ok_0@ == url_with_params(address@, params_view(params@)),
{
    url::Url::parse_with_params(address, params).map(String::from)
}

/// Why there is no address.
#[derive(Debug, Clone, Copy)]
pub enum WsUrlError {
    /// The settings ask for an insecure connection.
    Insecure,
    /// Its front cannot be counted, or positions in it do not fit in 32 bits.
    TooLong,
    Parse(url::ParseError),
}

/// The address of the streaming interface.
pub fn build_ws_url(cfg: &Config) -> (r: Result<String, WsUrlError>)
    ensures
        match ws_address(cfg@) {
            None => r matches Err(WsUrlError::Insecure),
            Some(a) => if !has_countable_front(a) {
                r matches Err(WsUrlError::TooLong)
            } else {
                match url_parsed(a) {
                    None => r matches Err(WsUrlError::Parse(_)),
                    Some(u) => if has_room(u, ws_params(cfg@)) {
                        r matches Ok(x) && x@ == url_with_params(a, ws_params(cfg@))
                    } else {
                        r matches Err(WsUrlError::TooLong)
                    },
                }
            },
        },
{
    match ws_request(cfg) {
        None => Err(WsUrlError::Insecure),
        Some(q) => {
            if !front_fits(q.address.as_str()) {
                return Err(WsUrlError::TooLong);
            }
            match parse_address(q.address.as_str()) {
                Ok(u) => {
                    if !params_fit(u.as_str(), &q.params) {
                        return Err(WsUrlError::TooLong);
                    }
                },
                Err(e) => return Err(WsUrlError::Parse(e)),
            }
            match parse_with_params(q.address.as_str(), &q.params) {
                Ok(u) => Ok(u),
                Err(e) => Err(WsUrlError::Parse(e)),
            }
        },
    }
}

/// The connection is always secure: an address that is handed on starts with `wss://`.
pub proof fn addresses_are_secure(s: Settings)
    requires
        ws_address(s) is Some,
    ensures
        "wss://"@.is_prefix_of(ws_address(s)->Some_0),
{
    let base = ws_base(s.api_base)->Some_0;
    assert("wss://"@.is_prefix_of(base));
    assert("wss://"@.is_prefix_of(base + ws_path(base, s.stt_path)));
}

/// The text of a dictation over the streaming interface.
#[derive(Debug, Clone)]
pub struct Transcript {
    /// The text that may still change.
    pub latest: String,
    /// The sentences that are done.
    pub finals: Vec<String>,
}

/// What a [`Transcript`] holds.
#[verifier::ext_equal]
pub struct Sentences {
    pub latest: Seq<char>,
    pub finals: Seq<Seq<char>>,
}

impl View for Transcript {
    type V = Sentences;

    open spec fn view(&self) -> Sentences {
        Sentences { latest: self.latest@, finals: text::texts(self.finals@) }
    }
}

/// What follows on an event.
#[derive(Debug, Clone, Copy, PartialEq, Eq, Structural)]
pub enum Follow {
    /// Go on; the text may be shown.
    More,
    /// Go on; a sentence is done.
    Sentence,
    /// The dictation is over.
    Stop,
}

impl Sentences {
    /// Before the first event.
    pub open spec fn start() -> Sentences {
        Sentences { latest: Seq::empty(), finals: seq![] }
    }

    /// After an event, and what follows on it.
    pub open spec fn heard(self, e: SttView) -> (Sentences, Follow) {
        match e {
            SttView::Partial { text, is_final, speech_final } => if text.len() == 0 {
                (self, Follow::More)
            } else if is_final && speech_final {
                (
                    Sentences { latest: Seq::empty(), finals: self.finals.push(text) },
                    Follow::Sentence,
                )
            } else {
                (Sentences { latest: text, ..self }, Follow::More)
            },
            SttView::Done { text } => (
                if text.len() == 0 {
                    self
                } else {
                    Sentences { latest: text, ..self }
                },
                Follow::Stop,
            ),
            SttView::Error { .. } => (self, Follow::Stop),
            SttView::Ready => (self, Follow::Stop),
        }
    }

    /// The sentences, with what may still have changed as the last one unless it is blank.
    pub open spec fn parts(self) -> Seq<Seq<char>> {
        if text::trimmed(self.latest).len() == 0 {
            self.finals
        } else {
            self.finals.push(self.latest)
        }
    }

    /// The whole text: what is repeated at once counts once, what is blank not at all.
    pub open spec fn whole(self) -> Seq<char> {
        text::joined(trimmed_parts(without_repeats(self.parts())), " "@)
    }
}

/// `parts` without those that repeat the one before.
pub open spec fn without_repeats(parts: Seq<Seq<char>>) -> Seq<Seq<char>>
    decreases parts.len(),
{
    if parts.len() <= 1 {
        parts
    } else if parts.last() == parts[parts.len() - 2] {
        without_repeats(parts.drop_last())
    } else {
        without_repeats(parts.drop_last()).push(parts.last())
    }
}

/// `parts`, each trimmed, without those that are blank.
pub open spec fn trimmed_parts(parts: Seq<Seq<char>>) -> Seq<Seq<char>>
    decreases parts.len(),
{
    if parts.len() == 0 {
        seq![]
    } else if text::trimmed(parts.last()).len() == 0 {
        trimmed_parts(parts.drop_last())
    } else {
        trimmed_parts(parts.drop_last()).push(text::trimmed(parts.last()))
    }
}

impl Transcript {
    /// Before the first event.
    pub fn new() -> (r: Self)
        ensures
            r@ == Sentences::start(),
    {
        let r = Transcript { latest: String::new(), finals: Vec::new() };
        assert(r@.finals =~= seq![]);
        r
    }

    /// Takes in an event.
    pub fn heard(&mut self, e: SttEvent) -> (r: Follow)
        ensures
            (final(self)@, r) == old(self)@.heard(e@),
    {
        match e {
            SttEvent::Partial { text, is_final, speech_final } => {
                if text.as_str().unicode_len() == 0 {
                    return Follow::More;
                }
                if is_final && speech_final {
                    self.finals.push(text);
                    self.latest = String::new();
                    assert(self@.finals =~= old(self)@.finals.push(text@));
                    return Follow::Sentence;
                }
                self.latest = text;
                Follow::More
            },
            SttEvent::Done { text } => {
                if text.as_str().unicode_len() > 0 {
                    self.latest = text;
                }
                Follow::Stop
            },
            SttEvent::Error { .. } => Follow::Stop,
            SttEvent::Ready => Follow::Stop,
        }
    }

    /// The whole text.
    pub fn whole(self) -> (r: String)
        ensures
            r@ == self@.whole(),
    {
        let mut parts = self.finals;
        if text::trim(self.latest.as_str()).unicode_len() > 0 {
            parts.push(self.latest);
        }
        assert(text::texts(parts@) =~= self@.parts());
        let ghost all = text::texts(parts@);
        let mut out: Vec<String> = Vec::new();
        let mut i: usize = 0;
        assert(all.take(0) =~= seq![]);
        assert(text::texts(out@) =~= trimmed_parts(without_repeats(all.take(0))));
        while i < parts.len()
            invariant
                i <= parts.len(),
                all == text::texts(parts@),
                text::texts(out@) == trimmed_parts(without_repeats(all.take(i as int))),
            decreases parts.len() - i,
        {
            let ghost before = out@;
            let ghost now = all.take(i as int + 1);
            let ghost done = without_repeats(all.take(i as int));
            proof {
                assert(now.last() == parts@[i as int]@);
                assert(now.drop_last() =~= all.take(i as int));
                if i > 0 {
                    assert(now[now.len() - 2] == parts@[i - 1]@);
                } else {
                    assert(now =~= all.take(0).push(now.last()));
                }
            }
            let repeats = i > 0 && text::same(parts[i].as_str(), parts[i - 1].as_str());
            if !repeats {
                assert(without_repeats(now) =~= done.push(now.last()));
                assert(done.push(now.last()).drop_last() =~= done);
                let t = text::trim(parts[i].as_str());
                if t.unicode_len() > 0 {
                    out.push(t.to_string());
                    assert(text::texts(out@) =~= text::texts(before).push(t@));
                }
            }
            i += 1;
        }
        assert(all.take(all.len() as int) =~= all);
        text::join(&out, " ")
    }
}

/// A sentence that is done stays: later events add to the sentences and never change one.
pub proof fn sentences_stay(s: Sentences, e: SttView)
    ensures
        s.finals.is_prefix_of(s.heard(e).0.finals),
{
}

/// How long to record, in seconds: as asked, but eight where nobody can say stop and nothing is
/// asked; nothing is no limit.
pub fn stop_after(terminal: bool, max_secs: u64) -> (r: Option<u64>)
    ensures
        r == if !terminal && max_secs == 0 {
            Some(8u64)
        } else if max_secs > 0 {
            Some(max_secs)
        } else {
            None
        },
{
    if !terminal && max_secs == 0 {
        Some(8)
    } else if max_secs > 0 {
        Some(max_secs)
    } else {
        None
    }
}

/// A sentence is added exactly by a partial text that is not empty and both final and the end of
/// speech; until then a text only takes the place of the one before it, and no word is kept twice.
pub proof fn only_finished_sentences_are_added(
    s: Sentences,
    text: Seq<char>,
    is_final: bool,
    speech_final: bool,
)
    ensures
        ({
            let (t, follow) = s.heard(SttView::Partial { text, is_final, speech_final });
            &&& text.len() == 0 ==> t == s && follow == Follow::More
            &&& text.len() > 0 && is_final && speech_final ==> t.finals == s.finals.push(text)
                && t.latest.len() == 0 && follow == Follow::Sentence
            &&& text.len() > 0 && !(is_final && speech_final) ==> t.finals == s.finals && t.latest
                == text && follow == Follow::More
        }),
{
}

/// The dictation is over with the last text, with an error, and with anything else that is no partial
/// text. The last text takes the place of what may still change, unless it is empty, and nothing
/// touches a sentence that is done.
pub proof fn other_events_end_the_dictation(s: Sentences, text: Seq<char>)
    ensures
        s.heard(SttView::Done { text }).1 == Follow::Stop,
        s.heard(SttView::Done { text }).0.finals == s.finals,
        s.heard(SttView::Done { text }).0.latest == if text.len() > 0 {
            text
        } else {
            s.latest
        },
        s.heard(SttView::Error { message: text }) == (s, Follow::Stop),
        s.heard(SttView::Ready) == (s, Follow::Stop),
{
}

/// The sentences in a text that ends with `parts`, each trimmed and not blank: the last one comes last,
/// behind a space if anything stands before it.
proof fn lemma_last_part(parts: Seq<Seq<char>>, t: Seq<char>)
    requires
        text::trimmed(t).len() > 0,
        parts.len() == 0 || parts.last() != t,
    ensures
        ({
            let before = trimmed_parts(without_repeats(parts));
            trimmed_parts(without_repeats(parts.push(t))) == before.push(text::trimmed(t))
        }),
{
    let all = parts.push(t);
    assert(all.drop_last() =~= parts);
    if parts.len() == 0 {
        assert(without_repeats(all) == all);
        assert(without_repeats(parts) == parts);
    } else {
        assert(all[all.len() - 2] == parts.last());
    }
    let kept = without_repeats(parts).push(t);
    assert(kept.drop_last() =~= without_repeats(parts));
    assert(without_repeats(all) =~= kept);
}

proof fn lemma_trimmed_parts(parts: Seq<Seq<char>>)
    ensures
        forall|i: int|
            0 <= i < trimmed_parts(parts).len() ==> (#[trigger] trimmed_parts(parts)[i]).len() > 0,
    decreases parts.len(),
{
    if parts.len() > 0 {
        let before = trimmed_parts(parts.drop_last());
        lemma_trimmed_parts(parts.drop_last());
        assert forall|i: int| 0 <= i < trimmed_parts(parts).len() implies (#[trigger] trimmed_parts(
            parts,
        )[i]).len() > 0 by {
            if i < before.len() {
                assert(trimmed_parts(parts)[i] == before[i]);
            }
        }
    }
}

proof fn lemma_joined_nonempty(parts: Seq<Seq<char>>, sep: Seq<char>)
    requires
        forall|i: int| 0 <= i < parts.len() ==> (#[trigger] parts[i]).len() > 0,
    ensures
        text::joined(parts, sep).len() == 0 <==> parts.len() == 0,
{
    if parts.len() > 0 {
        assert(parts.last() == parts[parts.len() - 1]);
        assert(parts[parts.len() - 1].len() > 0);
        assert(parts[0].len() > 0);
    }
}

/// The whole text is its sentences, one behind the other with a space between: a sentence that is added
/// comes last, unless it repeats the one before or is blank; then the text stays as it is. Each is
/// trimmed, and none is left out.
pub proof fn sentences_make_the_text(finals: Seq<Seq<char>>, t: Seq<char>)
    ensures
        ({
            let before = Sentences { latest: Seq::empty(), finals };
            let now = Sentences { latest: Seq::empty(), finals: finals.push(t) };
            let word = text::trimmed(t);
            &&& Sentences::start().whole().len() == 0
            &&& finals.len() > 0 && finals.last() == t ==> now.whole() == before.whole()
            &&& word.len() == 0 ==> now.whole() == before.whole()
            &&& word.len() > 0 && (finals.len() == 0 || finals.last() != t) ==> now.whole()
                == if before.whole().len() == 0 {
                word
            } else {
                before.whole() + seq![' '] + word
            }
        }),
{
    reveal_strlit(" ");
    assert(" "@ =~= seq![' ']);
    let empty = Seq::<char>::empty();
    assert(text::trimmed(empty) == empty);
    let none = Sentences::start();
    assert(none.parts() == none.finals);
    assert(without_repeats(none.finals) == none.finals);
    let before = Sentences { latest: empty, finals };
    let now = Sentences { latest: empty, finals: finals.push(t) };
    let parts = trimmed_parts(without_repeats(finals));
    let all = finals.push(t);
    assert(all.drop_last() =~= finals);
    let word = text::trimmed(t);
    lemma_trimmed_parts(without_repeats(finals));
    lemma_joined_nonempty(parts, " "@);
    if finals.len() > 0 {
        assert(all[all.len() - 2] == finals.last());
    }
    if finals.len() > 0 && finals.last() == t {
        assert(without_repeats(all) == without_repeats(finals));
    } else if word.len() == 0 {
        if finals.len() == 0 {
            assert(without_repeats(all) == all);
            assert(without_repeats(finals) == finals);
        }
        let kept = without_repeats(finals).push(t);
        assert(kept.drop_last() =~= without_repeats(finals));
        assert(without_repeats(all) =~= kept);
    } else {
        lemma_last_part(finals, t);
        assert(parts.push(word).drop_last() =~= parts);
        if parts.len() == 0 {
            assert(parts.push(word)[0] == word);
        }
    }
}

/// What may still change counts as the last sentence of the whole text, and not at all where it is
/// blank.
pub proof fn the_rest_is_the_last_sentence(s: Sentences)
    ensures
        text::trimmed(s.latest).len() > 0 ==> s.whole() == (Sentences {
            latest: Seq::empty(),
            finals: s.finals.push(s.latest),
        }).whole(),
        text::trimmed(s.latest).len() == 0 ==> s.whole() == (Sentences {
            latest: Seq::empty(),
            finals: s.finals,
        }).whole(),
{
    assert(text::trimmed(Seq::<char>::empty()).len() == 0);
}

/// A message means what its kind says, with its own text and marks: a new transcript that the service
/// is ready, a partial or the last text that text, an error its message or, without one, its text. Any
/// other kind means nothing.
pub proof fn messages_mean_what_their_kind_says(e: ServerEvent)
    ensures
        e.kind@ == "transcript.created"@ ==> meaning(e) == Some(SttView::Ready),
        e.kind@ == "transcript.partial"@ ==> meaning(e) == Some(
            SttView::Partial { text: e.text@, is_final: e.is_final, speech_final: e.speech_final },
        ),
        e.kind@ == "transcript.done"@ ==> meaning(e) == Some(SttView::Done { text: e.text@ }),
        e.kind@ == "error"@ && e.message@.len() > 0 ==> meaning(e) == Some(
            SttView::Error { message: e.message@ },
        ),
        e.kind@ == "error"@ && e.message@.len() == 0 ==> meaning(e) == Some(
            SttView::Error { message: e.text@ },
        ),
        e.kind@ != "transcript.created"@ && e.kind@ != "transcript.partial"@ && e.kind@
            != "transcript.done"@ && e.kind@ != "error"@ ==> meaning(e) is None,
{
    reveal_strlit("transcript.created");
    reveal_strlit("transcript.partial");
    reveal_strlit("transcript.done");
    reveal_strlit("error");
    assert("transcript.created"@.len() == 18);
    assert("transcript.partial"@.len() == 18);
    assert("transcript.done"@.len() == 15);
    assert("error"@.len() == 5);
    assert("transcript.created"@[11] != "transcript.partial"@[11]);
}

/// Reading goes on whatever comes, unless the connection breaks. What cannot be read, and why the
/// connection broke, is reported as an error that ends with the reason; what is no text is passed over.
pub proof fn reading_goes_on_until_it_breaks(msg: Incoming)
    ensures
        received(msg).1 <==> !(msg is Broken),
        msg matches Incoming::Event(e) ==> received(msg).0 == meaning(e),
        msg is Other ==> received(msg).0 is None,
        msg matches Incoming::Garbled(why) ==> received(msg).0 matches Some(SttView::Error { message })
            && why@.is_suffix_of(message),
        msg matches Incoming::Broken(why) ==> received(msg).0 matches Some(SttView::Error { message })
            && why@.is_suffix_of(message),
{
    if let Incoming::Garbled(why) = msg {
        let m = "parse: "@ + why@;
        assert(m.skip(m.len() - why@.len()) =~= why@);
    }
    if let Incoming::Broken(why) = msg {
        let m = "connection lost: "@ + why@;
        assert(m.skip(m.len() - why@.len()) =~= why@);
    }
}

proof fn lemma_bare(s: Seq<char>)
    requires
        s.len() > 0,
        !text::is_white(s[0]),
        !text::is_white(s.last()),
    ensures
        text::trimmed(s) == s,
{
    assert(text::trim_start(s) == s);
    assert(text::trim_end(s) == s);
}

/// The address of a host: with `https://`, with `wss://` or without a scheme it is the same host over a
/// secure web socket, slashes behind it do not matter, and with `http://` it is refused.
pub proof fn hosts_keep_their_names(host: Seq<char>)
    requires
        host.len() > 0,
        !text::is_white(host[0]),
        !text::is_white(host.last()),
        host.last() != '/',
        !"https://"@.is_prefix_of(host),
        !"http://"@.is_prefix_of(host),
        !"wss://"@.is_prefix_of(host),
    ensures
        ws_base("https://"@ + host) == Some("wss://"@ + host),
        ws_base("wss://"@ + host) == Some("wss://"@ + host),
        ws_base(host) == Some("wss://"@ + host),
        ws_base("http://"@ + host) is None,
        ws_base(("https://"@ + host).push('/')) == Some("wss://"@ + host),
        ws_base(host.push('/')) == Some("wss://"@ + host),
        ws_base(("http://"@ + host).push('/')) is None,
{
    reveal_strlit("https://");
    reveal_strlit("http://");
    reveal_strlit("wss://");
    let (a, b, c) = ("https://"@ + host, "http://"@ + host, "wss://"@ + host);
    assert(a[0] == 'h' && a[4] == 's' && a.last() == host.last());
    assert(b[0] == 'h' && b[4] == ':' && b.last() == host.last());
    assert(c[0] == 'w' && c.last() == host.last());
    lemma_bare(a);
    lemma_bare(b);
    lemma_bare(c);
    lemma_bare(host);
    assert(a.take(8) =~= "https://"@);
    assert(a.skip(8) =~= host);
    assert(b.take(7) =~= "http://"@);
    assert(c.take(6) =~= "wss://"@);
    if "https://"@.is_prefix_of(b) {
        assert(b[4] == "https://"@[4]);
    }
    if "https://"@.is_prefix_of(c) {
        assert(c[0] == "https://"@[0]);
    }
    if "http://"@.is_prefix_of(c) {
        assert(c[0] == "http://"@[0]);
    }
    text::beginnings_are_removed(host, "https://"@);
    assert(text::without_starts(a, "https://"@) == host);
    assert("https://"@.is_prefix_of(a) && "http://"@.is_prefix_of(b) && "wss://"@.is_prefix_of(c));
    let (a1, b1, h1) = (a.push('/'), b.push('/'), host.push('/'));
    assert(!text::is_white('/'));
    lemma_bare(a1);
    lemma_bare(b1);
    lemma_bare(h1);
    assert(a1.drop_last() =~= a);
    assert(b1.drop_last() =~= b);
    assert(h1.drop_last() =~= host);
    assert(text::without_end(a1, '/', '/') == text::without_end(a, '/', '/'));
    assert(text::without_end(b1, '/', '/') == text::without_end(b, '/', '/'));
    assert(text::without_end(h1, '/', '/') == text::without_end(host, '/', '/'));
}

/// The path comes behind the base with one slash between them, and a version that stands in both is not
/// repeated.
pub proof fn versions_are_not_repeated(base: Seq<char>, rest: Seq<char>)
    requires
        rest.len() > 0,
        rest[0] == '/',
        !"/v1"@.is_prefix_of(rest),
    ensures
        "/v1"@.is_suffix_of(base) ==> ws_path(base, "/v1"@ + rest) == rest,
        !"/v1"@.is_suffix_of(base) ==> ws_path(base, "/v1"@ + rest) == "/v1"@ + rest,
        ws_path(base, rest) == rest,
        !"/"@.is_prefix_of(rest.skip(1)) ==> ws_path(base, rest.skip(1)) == rest,
{
    reveal_strlit("/v1");
    reveal_strlit("/v1/");
    reveal_strlit("/");
    let full = "/v1"@ + rest;
    assert(full.take(3) =~= "/v1"@);
    assert(full.skip(3) =~= rest);
    assert(full[3] == '/');
    text::beginnings_are_removed(rest, "/v1"@);
    assert(full.take(4) =~= "/v1/"@);
    assert(full.take(1) =~= "/"@);
    assert(rest.take(1) =~= "/"@);
    if "/v1/"@.is_prefix_of(rest) {
        assert(rest.take(3) =~= "/v1"@);
    }
    let bare = rest.skip(1);
    if "/v1/"@.is_prefix_of(bare) {
        assert(bare[0] == "/v1/"@[0]);
        assert(bare.take(1) =~= "/"@);
    }
    assert("/"@ + bare =~= rest);
}

/// The terms are sent one by one, trimmed and in their order, and blank ones are not.
pub proof fn terms_are_sent_in_order(a: Seq<Seq<char>>, b: Seq<Seq<char>>, term: Seq<char>)
    ensures
        term_params(a + b) == term_params(a) + term_params(b),
        term_params(seq![term]) == if text::trimmed(term).len() == 0 {
            Seq::<(Seq<char>, Seq<char>)>::empty()
        } else {
            seq![("keyterm"@, text::trimmed(term))]
        },
    decreases b.len(),
{
    assert(seq![term].drop_last() =~= Seq::<Seq<char>>::empty());
    assert(term_params(Seq::<Seq<char>>::empty()) =~= Seq::<(Seq<char>, Seq<char>)>::empty());
    assert(term_params(seq![term]) =~= if text::trimmed(term).len() == 0 {
        Seq::<(Seq<char>, Seq<char>)>::empty()
    } else {
        seq![("keyterm"@, text::trimmed(term))]
    });
    if b.len() == 0 {
        assert(a + b =~= a);
        assert(term_params(a) + term_params(b) =~= term_params(a));
    } else {
        terms_are_sent_in_order(a, b.drop_last(), term);
        assert((a + b).drop_last() =~= a + b.drop_last());
        assert((a + b).last() == b.last());
        assert(term_params(a + b) =~= term_params(a) + term_params(b));
    }
}

/// What the service is told: the rate of the sound, that it is PCM, whether partial texts are wanted,
/// how long a pause ends a sentence, the language unless it is open, and the terms.
pub proof fn the_service_is_told_what_is_set(s: Settings)
    ensures
        ({
            let ps = ws_params(s);
            &&& ps.contains(("sample_rate"@, text::decimal(s.sample_rate as nat)))
            &&& ps.contains(("encoding"@, "pcm"@))
            &&& ps.contains(
                (
                    "interim_results"@,
                    if s.interim_results {
                        "true"@
                    } else {
                        "false"@
                    },
                ),
            )
            &&& ps.contains(("endpointing"@, text::decimal(s.endpointing_ms as nat)))
            &&& s.language.len() > 0 && s.language != "auto"@ ==> ps.len() == 5 + term_params(
                s.keyterms,
            ).len() && ps[4] == ("language"@, s.language)
            &&& s.language.len() == 0 || s.language == "auto"@ ==> ps.len() == 4 + term_params(
                s.keyterms,
            ).len()
            &&& term_params(s.keyterms).is_suffix_of(ps)
        }),
{
    let ps = ws_params(s);
    let terms = term_params(s.keyterms);
    assert(ps[0] == ("sample_rate"@, text::decimal(s.sample_rate as nat)));
    assert(ps[1] == ("encoding"@, "pcm"@));
    assert(ps[2].0 == "interim_results"@);
    assert(ps[3] == ("endpointing"@, text::decimal(s.endpointing_ms as nat)));
    assert(ps.skip(ps.len() - terms.len()) =~= terms);
}

/// Of an address only the part in front of its path, query or fragment has to be counted, and nothing
/// behind it.
pub proof fn only_the_front_is_counted(host: Seq<char>, mark: char, rest: Seq<char>, begun: bool)
    requires
        forall|i: int|
            0 <= i < host.len() ==> !is_slash(#[trigger] host[i]) && host[i] != '?' && host[i] != '#'
                && !is_passed_over(host[i]),
        mark == '/' || mark == '?' || mark == '#' || mark == '\\',
        begun || host.len() > 0,
    ensures
        authority_len(host.push(mark) + rest, begun) == host.len(),
        authority_len(host, begun) == host.len(),
    decreases host.len(),
{
    let all = host.push(mark) + rest;
    if host.len() > 0 {
        assert(all[0] == host[0]);
        let less = host.skip(1);
        assert(all.skip(1) =~= less.push(mark) + rest);
        assert forall|i: int| 0 <= i < less.len() implies !is_slash(#[trigger] less[i]) && less[i]
            != '?' && less[i] != '#' && !is_passed_over(less[i]) by {
            assert(less[i] == host[i + 1]);
        }
        only_the_front_is_counted(less, mark, rest, true);
    } else {
        assert(all[0] == mark);
    }
}

/// White space around a base and slashes at its end do not matter, and the address is the base with the
/// path behind it, which always begins with a slash; where the base is refused there is none.
pub proof fn addresses_are_the_base_and_the_path(s: Settings, base: Seq<char>)
    ensures
        ws_base(base) == ws_base(text::trimmed(base)),
        base.len() > 0 && !text::is_white(base[0]) && !text::is_white(base.last()) ==> ws_base(
            base.push('/'),
        ) == ws_base(base),
        ws_base(s.api_base) matches Some(b) ==> ws_address(s) == Some(b + ws_path(b, s.stt_path)),
        ws_base(s.api_base) is None ==> ws_address(s) is None,
        ws_path(base, s.stt_path).len() > 0 ==> ws_path(base, s.stt_path)[0] == '/',
        s.stt_path.is_suffix_of(ws_path(base, s.stt_path)) || "/v1/"@.is_prefix_of(s.stt_path),
{
    reveal_strlit("/");
    text::trimming_is_idempotent(base);
    if base.len() > 0 && !text::is_white(base[0]) && !text::is_white(base.last()) {
        let more = base.push('/');
        assert(!text::is_white('/'));
        assert(more.drop_last() =~= base);
        assert(more.last() == '/' && more[0] == base[0]);
        lemma_bare(base);
        lemma_bare(more);
        assert(text::without_end(more, '/', '/') == text::without_end(base, '/', '/'));
    }
    let path = ws_path(base, s.stt_path);
    if "/"@.is_prefix_of(path) && path.len() > 0 {
        assert(path[0] == "/"@[0]);
    }
}

/// In a parameter letters, digits and a few signs take one byte, a space one, and any other character three
/// for each byte of it; texts take what their parts take.
pub proof fn parameters_take_what_their_characters_take(a: Seq<char>, b: Seq<char>, c: char)
    ensures
        written_len(Seq::empty()) == 0,
        written_len(a + b) == written_len(a) + written_len(b),
        ('0' <= c && c <= '9') || ('a' <= c && c <= 'z') || ('A' <= c && c <= 'Z') || c == ' ' || c == '-'
            || c == '.' || c == '_' || c == '*' <==> written_len(seq![c]) == 1,
        written_len(seq![c]) == 1 || written_len(seq![c]) == 3 * (if (c as u32) < 0x80 {
            1nat
        } else if (c as u32) < 0x800 {
            2
        } else if (c as u32) < 0x1_0000 {
            3
        } else {
            4
        }),
    decreases b.len(),
{
    reveal_with_fuel(written_len, 2);
    assert(seq![c].drop_last() =~= Seq::<char>::empty());
    if b.len() == 0 {
        assert(a + b =~= a);
    } else {
        assert((a + b).drop_last() =~= a + b.drop_last());
        parameters_take_what_their_characters_take(a, b.drop_last(), c);
    }
}

/// Each parameter adds its name, its value and two signs; the first only one where a question mark stands
/// last already, and without any parameter a question mark is added unless there is one.
pub proof fn parameters_add_their_length(
    path: Seq<char>,
    query: Seq<char>,
    params: Seq<(Seq<char>, Seq<char>)>,
    p: (Seq<char>, Seq<char>),
)
    requires
        forall|i: int| 0 <= i < path.len() ==> path[i] != '?',
        query.len() > 0,
    ensures
        added_len(Seq::empty()) == 0,
        added_len(params.push(p)) == added_len(params) + written_len(p.0) + written_len(p.1) + 2,
        grown_len(path, params.push(p)) == path.len() + added_len(params.push(p)),
        grown_len(path.push('?'), params.push(p)) == path.len() + added_len(params.push(p)),
        grown_len(path.push('?') + query, params.push(p)) == path.len() + 1 + query.len() + added_len(
            params.push(p),
        ),
        grown_len(path, Seq::empty()) == path.len() + 1,
        grown_len(path.push('?'), Seq::empty()) == path.len() + 1,
        grown_len(path.push('?') + query, Seq::empty()) == path.len() + 1 + query.len(),
{
    assert(params.push(p).drop_last() =~= params);
    text::texts_are_cut_at_the_first(path, '?', query);
    text::texts_are_cut_at_the_first(path, '?', Seq::empty());
    assert(path.push('?') + Seq::<char>::empty() =~= path.push('?'));
}

/// Parameters fit an address without a fragment if it has a query or is not longer than a position of 32
/// bits; one with a fragment, if what stands before it is shorter than that and is not longer with them.
pub proof fn parameters_need_room(
    head: Seq<char>,
    fragment: Seq<char>,
    params: Seq<(Seq<char>, Seq<char>)>,
    parsed: Seq<char>,
)
    requires
        forall|i: int| 0 <= i < head.len() ==> head[i] != '#',
    ensures
        has_room(head.push('#') + fragment, params) <==> head.len() < 0xffff_ffff && grown_len(
            head,
            params,
        ) <= 0xffff_ffff,
        !text::has(parsed, "#"@) && text::has(parsed, "?"@) ==> has_room(parsed, params),
        !text::has(parsed, "#"@) && !text::has(parsed, "?"@) ==> (has_room(parsed, params)
            <==> parsed.len() <= 0xffff_ffff),
{
    reveal_strlit("#");
    text::texts_are_cut_at_the_first(head, '#', fragment);
    let all = head.push('#') + fragment;
    let k = head.len() as int;
    assert(all.subrange(k, k + 1) =~= "#"@);
    assert(all.subrange(k, k + "#"@.len()) =~= "#"@);
    assert(text::has(all, "#"@));
}

} // verus!
