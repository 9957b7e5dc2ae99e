//! Which proxy is used for the xAI API.

use crate::text;
use vstd::prelude::*;

verus! {

/// What is left of `s` without a SOCKS scheme in front, if it has one.
pub open spec fn socks_rest(s: Seq<char>) -> Option<Seq<char>> {
    if "socks5://"@.is_prefix_of(s) {
        Some(s.skip("socks5://"@.len() as int))
    } else if "socks5h://"@.is_prefix_of(s) {
        Some(s.skip("socks5h://"@.len() as int))
    } else if "socks://"@.is_prefix_of(s) {
        Some(s.skip("socks://"@.len() as int))
    } else {
        None
    }
}

/// The address of a proxy, written with an HTTP scheme: in place of a SOCKS scheme, or where
/// there is none.
pub open spec fn normalized(raw: Seq<char>) -> Seq<char> {
    let s = text::trimmed(raw);
    match socks_rest(s) {
        Some(rest) => "http://"@ + rest,
        None => if "http://"@.is_prefix_of(s) || "https://"@.is_prefix_of(s) {
            s
        } else {
            "http://"@ + s
        },
    }
}

/// Writes the address of a proxy with an HTTP scheme.
pub fn normalize_proxy(raw: &str) -> (r: String)
    ensures
        r@ == normalized(raw@),
{
    let s = text::trim(raw);
    match text::strip_prefix(s, "socks5://") {
        Some(rest) => return text::cat("http://", rest),
        None => {},
    }
    match text::strip_prefix(s, "socks5h://") {
        Some(rest) => return text::cat("http://", rest),
        None => {},
    }
    match text::strip_prefix(s, "socks://") {
        Some(rest) => return text::cat("http://", rest),
        None => {},
    }
    if text::starts_with(s, "http://") || text::starts_with(s, "https://") {
        return s.to_string();
    }
    text::cat("http://", s)
}

/// The address of a proxy always comes out with an HTTP scheme, and writing it again changes
/// nothing.
pub proof fn normalizing_is_idempotent(raw: Seq<char>)
    ensures
        "http://"@.is_prefix_of(normalized(raw)) || "https://"@.is_prefix_of(normalized(raw)),
        normalized(normalized(raw)) == normalized(raw),
{
    reveal_strlit("http://");
    reveal_strlit("https://");
    reveal_strlit("socks5://");
    reveal_strlit("socks5h://");
    reveal_strlit("socks://");
    let s = text::trimmed(raw);
    let t = normalized(raw);
    text::trimming_is_idempotent(raw);
    assert("http://"@.is_prefix_of(t) || "https://"@.is_prefix_of(t));
    if "http://"@.is_prefix_of(t) {
        assert(t[0] == "http://"@[0]);
        assert(t[6] == "http://"@[6]);
    } else {
        assert(t[0] == "https://"@[0]);
    }
    assert(t[0] == 'h');
    assert(!text::is_white('h'));
    assert(!text::is_white('/'));
    assert(t.len() > 0);
    if s.len() > 0 && t.len() > 7 {
        assert(t.last() == s.last());
    } else if t.len() == 7 {
        assert(t.last() == '/');
    }
    assert(text::trim_start(t) == t);
    assert(text::trim_end(t) == t);
    if "socks5://"@.is_prefix_of(t) {
        assert(t[0] == "socks5://"@[0]);
    }
    if "socks5h://"@.is_prefix_of(t) {
        assert(t[0] == "socks5h://"@[0]);
    }
    if "socks://"@.is_prefix_of(t) {
        assert(t[0] == "socks://"@[0]);
    }
}

/// The variables of the environment that name a proxy, in the order in which they are asked.
pub fn proxy_vars() -> (r: Vec<String>)
    ensures
        text::texts(r@) == seq![
            "HTTPS_PROXY"@,
            "https_proxy"@,
            "HTTP_PROXY"@,
            "http_proxy"@,
            "ALL_PROXY"@,
            "all_proxy"@,
        ],
{
    let names: [&str; 6] = [
        "HTTPS_PROXY",
        "https_proxy",
        "HTTP_PROXY",
        "http_proxy",
        "ALL_PROXY",
        "all_proxy",
    ];
    assert(text::strs(names@) =~= seq![
        "HTTPS_PROXY"@,
        "https_proxy"@,
        "HTTP_PROXY"@,
        "http_proxy"@,
        "ALL_PROXY"@,
        "all_proxy"@,
    ]);
    text::owned(&names)
}

/// The first text that is not blank.
pub open spec fn first_set(vars: Seq<Option<Seq<char>>>) -> Option<Seq<char>>
    decreases vars.len(),
{
    if vars.len() == 0 {
        None
    } else {
        match vars[0] {
            Some(v) if text::trimmed(v).len() > 0 => Some(text::trimmed(v)),
            _ => first_set(vars.skip(1)),
        }
    }
}

/// Finds the first text that is not blank, and trims it.
pub fn first_nonblank(vars: &Vec<Option<String>>) -> (r: Option<String>)
    ensures
        text::opt_string(r) == first_set(text::opt_strings(vars@)),
{
    let ghost all = text::opt_strings(vars@);
    let mut i: usize = 0;
    assert(all.skip(0) =~= all);
    while i < vars.len()
        invariant
            i <= vars.len(),
            all == text::opt_strings(vars@),
            first_set(all) == first_set(all.skip(i as int)),
        decreases vars.len() - i,
    {
        assert(all.skip(i as int)[0] == text::opt_string(vars@[i as int]));
        assert(all.skip(i as int).skip(1) =~= all.skip(i as int + 1));
        match &vars[i] {
            Some(v) => {
                let v = text::trim(v.as_str());
                if v.unicode_len() > 0 {
                    return Some(v.to_string());
                }
            },
            None => {},
        }
        i += 1;
    }
    None
}

/// Where a proxy is to be had from.
#[derive(Debug, Clone)]
pub enum ProxyChoice {
    /// This one.
    Use(String),
    /// The first of these ports on this machine that is open, if any is.
    Probe(Vec<u16>),
}

/// The ports on which a proxy on this machine is looked for, in this order.
pub open spec fn local_ports() -> Seq<u16> {
    seq![7897u16, 7890, 7891, 10809, 20171, 1087, 8080, 8888]
}

/// Where a proxy is to be had from: the settings, otherwise the environment, otherwise this
/// machine. `vars` holds the values of the variables that name a proxy.
pub fn resolve_http_proxy(configured: Option<&str>, vars: &Vec<Option<String>>) -> (r: ProxyChoice)
    ensures
        ({
            let named = match text::opt_str(configured) {
                Some(c) if text::trimmed(c).len() > 0 => Some(text::trimmed(c)),
                _ => first_set(text::opt_strings(vars@)),
            };
            match named {
                Some(p) => r matches ProxyChoice::Use(u) && u@ == normalized(p),
                None => r matches ProxyChoice::Probe(ports) && ports@ == local_ports(),
            }
        }),
{
    match configured {
        Some(c) => {
            let c = text::trim(c);
            if c.unicode_len() > 0 {
                return ProxyChoice::Use(normalize_proxy(c));
            }
        },
        None => {},
    }
    match first_nonblank(vars) {
        Some(v) => ProxyChoice::Use(normalize_proxy(v.as_str())),
        None => ProxyChoice::Probe(vec![7897, 7890, 7891, 10809, 20171, 1087, 8080, 8888]),
    }
}

/// The address of the proxy on a port of this machine.
pub fn local_proxy(port: u16) -> (r: String)
    ensures
        r@ == "http://127.0.0.1:"@ + text::decimal(port as nat),
{
    text::cat("http://127.0.0.1:", text::number(port as u64).as_str())
}

/// What is said of the addresses of a host: at most four of them, or why there are none.
pub open spec fn diagnosis(host: Seq<char>, found: Result<Seq<Seq<char>>, Seq<char>>) -> Seq<char> {
    match found {
        Ok(addrs) => host + " -> "@ + text::joined(
            if addrs.len() <= 4 {
                addrs
            } else {
                addrs.take(4)
            },
            ", "@,
        ),
        Err(e) => host + " resolve failed: "@ + e,
    }
}

/// What a lookup found.
pub open spec fn found_view(found: Result<Vec<String>, String>) -> Result<Seq<Seq<char>>, Seq<char>> {
    match found {
        Ok(v) => Ok(text::texts(v@)),
        Err(e) => Err(e@),
    }
}

/// Says what the lookup of a host found.
pub fn diagnose_api_host(host: &str, found: Result<Vec<String>, String>) -> (r: String)
    ensures
        r@ == diagnosis(host@, found_view(found)),
{
    match found {
        Ok(addrs) => {
            let mut list = addrs;
            if list.len() > 4 {
                list.truncate(4);
                assert(text::texts(list@) =~= text::texts(addrs@).take(4));
            }
            let mut out = text::cat(host, " -> ");
            out.append(text::join(&list, ", ").as_str());
            out
        },
        Err(e) => {
            let mut out = text::cat(host, " resolve failed: ");
            out.append(e.as_str());
            out
        },
    }
}

/// The host of a proxy is kept, with its port and all, whatever scheme stands in front of it and
/// whatever white space around it; only a secure scheme stays as it is.
pub proof fn proxies_keep_their_host(before: Seq<char>, host: Seq<char>, behind: Seq<char>)
    requires
        host.len() > 0,
        !text::is_white(host[0]),
        !text::is_white(host.last()),
        forall|i: int| 0 <= i < host.len() ==> host[i] != '/',
        forall|i: int| 0 <= i < before.len() ==> text::is_white(#[trigger] before[i]),
        forall|i: int| 0 <= i < behind.len() ==> text::is_white(#[trigger] behind[i]),
    ensures
        normalized(before + host + behind) == "http://"@ + host,
        normalized(before + ("http://"@ + host) + behind) == "http://"@ + host,
        normalized(before + ("https://"@ + host) + behind) == "https://"@ + host,
        normalized(before + ("socks5://"@ + host) + behind) == "http://"@ + host,
        normalized(before + ("socks5h://"@ + host) + behind) == "http://"@ + host,
        normalized(before + ("socks://"@ + host) + behind) == "http://"@ + host,
{
    reveal_strlit("http://");
    reveal_strlit("https://");
    reveal_strlit("socks5://");
    reveal_strlit("socks5h://");
    reveal_strlit("socks://");
    assert(!text::is_white('h') && !text::is_white('s'));
    let (h, hs, s5, s5h, so) = (
        "http://"@ + host,
        "https://"@ + host,
        "socks5://"@ + host,
        "socks5h://"@ + host,
        "socks://"@ + host,
    );
    text::trimming_undoes_padding(before, host, behind);
    text::trimming_undoes_padding(before, h, behind);
    text::trimming_undoes_padding(before, hs, behind);
    text::trimming_undoes_padding(before, s5, behind);
    text::trimming_undoes_padding(before, s5h, behind);
    text::trimming_undoes_padding(before, so, behind);
    assert(h[0] == 'h' && hs[0] == 'h');
    assert(s5[5] == '5' && s5[6] == ':');
    assert(s5h[5] == '5' && s5h[6] == 'h');
    assert(so[5] == ':');
    assert("socks5://"@[0] == 's' && "socks5://"@[5] == '5' && "socks5://"@[6] == ':' && "socks5://"@[7]
        == '/');
    assert("socks5h://"@[0] == 's' && "socks5h://"@[5] == '5' && "socks5h://"@[6] == 'h'
        && "socks5h://"@[8] == '/');
    assert("socks://"@[0] == 's' && "socks://"@[5] == ':' && "socks://"@[6] == '/');
    assert("http://"@[5] == '/' && "https://"@[6] == '/');
    assert(s5.skip(9) =~= host);
    assert(s5h.skip(10) =~= host);
    assert(so.skip(8) =~= host);
    assert("http://"@.is_prefix_of(h));
    assert("https://"@.is_prefix_of(hs));
    assert("socks5://"@.is_prefix_of(s5));
    assert("socks5h://"@.is_prefix_of(s5h));
    assert("socks://"@.is_prefix_of(so));
}

/// Of several texts the first one that is not blank counts, without the white space around it, and none
/// where all are blank.
pub proof fn the_first_set_text_counts(
    before: Seq<Option<Seq<char>>>,
    t: Seq<char>,
    behind: Seq<Option<Seq<char>>>,
)
    requires
        forall|i: int|
            0 <= i < before.len() ==> ((#[trigger] before[i]) matches Some(x) ==> text::trimmed(
                x,
            ).len() == 0),
    ensures
        text::trimmed(t).len() > 0 ==> first_set(before.push(Some(t)) + behind) == Some(
            text::trimmed(t),
        ),
        first_set(before) is None,
    decreases before.len(),
{
    let all = before.push(Some(t)) + behind;
    if before.len() == 0 {
        assert(all[0] == Some(t));
    } else {
        assert(all[0] == before[0]);
        let less = before.skip(1);
        assert(all.skip(1) =~= less.push(Some(t)) + behind);
        assert forall|i: int| 0 <= i < less.len() implies ((#[trigger] less[i]) matches Some(x)
            ==> text::trimmed(x).len() == 0) by {
            assert(less[i] == before[i + 1]);
        }
        the_first_set_text_counts(less, t, behind);
    }
}

/// Of the addresses of a host the first four are told, in order, behind its name; a failure is told
/// with its reason.
pub proof fn the_first_addresses_are_told(
    host: Seq<char>,
    addrs: Seq<Seq<char>>,
    more: Seq<Seq<char>>,
    why: Seq<char>,
)
    requires
        addrs.len() == 4,
    ensures
        host.is_prefix_of(diagnosis(host, Ok(addrs))),
        diagnosis(host, Ok(addrs + more)) == diagnosis(host, Ok(addrs)),
        forall|n: int|
            0 <= n <= 4 ==> #[trigger] diagnosis(host, Ok(addrs.take(n))) == host + " -> "@
                + text::joined(addrs.take(n), ", "@),
        host.is_prefix_of(diagnosis(host, Err(why))),
        why.is_suffix_of(diagnosis(host, Err(why))),
{
    assert((addrs + more).take(4) =~= addrs);
    assert(addrs.take(4) =~= addrs);
    assert(diagnosis(host, Ok(addrs)) == host + " -> "@ + text::joined(addrs, ", "@));
    assert(diagnosis(host, Ok(addrs + more)) == host + " -> "@ + text::joined(addrs, ", "@));
}

} // verus!
