//! The interface of the xAI API that takes a whole recording.

use crate::config::{Config, Settings};
use crate::stt::{self, Param};
use crate::text;
use vstd::prelude::*;

verus! {

/// `s` without `end` at its end, once.
pub open spec fn without_suffix(s: Seq<char>, end: Seq<char>) -> Seq<char> {
    if end.is_suffix_of(s) {
        s.take(s.len() - end.len())
    } else {
        s
    }
}

/// The address of the interface.
pub open spec fn rest_address(api_base: Seq<char>) -> Seq<char> {
    without_suffix(text::without_end(text::trimmed(api_base), '/', '/'), "/v1"@) + "/v1/stt"@
}

/// The address to which a recording is sent.
pub fn rest_url(cfg: &Config) -> (r: String)
    ensures
        r@ == rest_address(cfg@.api_base),
{
    let base = text::trim_end_of(text::trim(cfg.api_base.as_str()), '/', '/');
    proof {
        reveal_strlit("/v1");
    }
    let root = if text::ends_with(base, "/v1") {
        let n: usize = base.unicode_len() - 3;
        assert(base@.subrange(0, n as int) =~= base@.take(n as int));
        base.substring_char(0, n)
    } else {
        base
    };
    text::cat(root, "/v1/stt")
}

/// The fields that go with a recording, in front of it.
pub open spec fn rest_fields(s: Settings) -> Seq<(Seq<char>, Seq<char>)> {
    (if stt::names_language(s.language) {
        seq![("language"@, s.language), ("format"@, "true"@)]
    } else {
        seq![("format"@, "false"@)]
    }) + stt::term_params(s.keyterms)
}

/// The fields that go with a recording, in front of it.
pub fn form_fields(cfg: &Config) -> (r: Vec<Param>)
    ensures
        stt::params_view(r@) == rest_fields(cfg@),
{
    let mut out: Vec<Param> = Vec::new();
    if stt::asks_language(cfg.language.as_str()) {
        out.push(("language".to_string(), cfg.language.clone()));
        out.push(("format".to_string(), "true".to_string()));
    } else {
        out.push(("format".to_string(), "false".to_string()));
    }
    let ghost head = stt::params_view(out@);
    stt::push_terms(&cfg.keyterms, &mut out);
    assert(head + stt::term_params(cfg@.keyterms) =~= rest_fields(cfg@));
    out
}

/// The name of the file that is sent, `audio.wav` if it has none that can be written.
pub fn upload_name(file_name: Option<&str>) -> (r: String)
    ensures
        r@ == match file_name {
            Some(n) => n@,
            None => "audio.wav"@,
        },
{
    match file_name {
        Some(n) => n.to_string(),
        None => "audio.wav".to_string(),
    }
}

proof fn lemma_slashes(s: Seq<char>, slashes: Seq<char>)
    requires
        s.len() > 0,
        s.last() != '/',
        forall|i: int| 0 <= i < slashes.len() ==> slashes[i] == '/',
    ensures
        text::without_end(s + slashes, '/', '/') == s,
{
    let all = s + slashes;
    let w = text::without_end(all, '/', '/');
    text::ends_are_removed(all, '/', '/');
    if w.len() > s.len() {
        assert(w.last() == all[w.len() - 1]);
        assert(w.last() == slashes[w.len() - 1 - s.len()]);
    }
    if w.len() < s.len() {
        assert(all[s.len() - 1] == s.last());
    }
    assert(w =~= s);
}

/// Recordings go to the same address however the base is written: with or without its version, with
/// slashes at its end or white space around it.
pub proof fn recordings_go_to_one_address(before: Seq<char>, base: Seq<char>, slashes: Seq<char>, behind: Seq<char>)
    requires
        base.len() > 0,
        base.last() != '/',
        !text::is_white(base[0]),
        !text::is_white(base.last()),
        !"/v1"@.is_suffix_of(base),
        forall|i: int| 0 <= i < slashes.len() ==> slashes[i] == '/',
        forall|i: int| 0 <= i < before.len() ==> text::is_white(#[trigger] before[i]),
        forall|i: int| 0 <= i < behind.len() ==> text::is_white(#[trigger] behind[i]),
    ensures
        rest_address(base) == base + "/v1/stt"@,
        rest_address(before + (base + slashes) + behind) == base + "/v1/stt"@,
        rest_address(before + (base + "/v1"@ + slashes) + behind) == base + "/v1/stt"@,
{
    reveal_strlit("/v1");
    assert(!text::is_white('/'));
    let v = base + "/v1"@;
    assert(v.last() == '1');
    assert(!text::is_white('1'));
    let none = Seq::<char>::empty();
    assert(none + (base + none) + none =~= base);
    assert(base + none =~= base);
    text::trimming_undoes_padding(none, base + none, none);
    text::trimming_undoes_padding(before, base + slashes, behind);
    text::trimming_undoes_padding(before, v + slashes, behind);
    lemma_slashes(base, none);
    lemma_slashes(base, slashes);
    lemma_slashes(v, slashes);
    assert(v.take(v.len() - 3) =~= base);
    assert("/v1"@.is_suffix_of(v));
}

/// A language is sent exactly if one is named, and the text is formatted exactly then; the terms come
/// behind it.
pub proof fn the_language_is_sent(s: Settings)
    ensures
        ({
            let fields = rest_fields(s);
            let terms = stt::term_params(s.keyterms);
            let named = s.language.len() > 0 && s.language != "auto"@;
            &&& named ==> fields.len() == terms.len() + 2 && fields[0] == ("language"@, s.language)
                && fields[1] == ("format"@, "true"@)
            &&& !named ==> fields.len() == terms.len() + 1 && fields[0] == ("format"@, "false"@)
            &&& terms.is_suffix_of(fields)
        }),
{
}

} // verus!
