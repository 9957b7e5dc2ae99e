//! The token for the xAI API.

use crate::json::{self, Field, FieldView, Member, MemberView};
use crate::{proxy, text};
use vstd::prelude::*;

verus! {

/// The variables of the environment that hold a token, in the order in which they are asked.
pub fn token_vars() -> (r: Vec<String>)
    ensures
        text::texts(r@) == seq!["XAI_API_KEY"@, "GROK_API_KEY"@, "GROK_VOICE_API_KEY"@],
{
    let names: [&str; 3] = ["XAI_API_KEY", "GROK_API_KEY", "GROK_VOICE_API_KEY"];
    assert(text::strs(names@) =~= seq!["XAI_API_KEY"@, "GROK_API_KEY"@, "GROK_VOICE_API_KEY"@]);
    text::owned(&names)
}

/// The token that was given, or that the environment holds. `vars` holds the values of the
/// variables.
pub open spec fn given_token(cli: Option<Seq<char>>, vars: Seq<Option<Seq<char>>>) -> Option<
    Seq<char>,
> {
    match cli {
        Some(k) if text::trimmed(k).len() > 0 => Some(text::trimmed(k)),
        _ => proxy::first_set(vars),
    }
}

/// The token that was given, or that the environment holds; without one the file of the Grok
/// program is read.
pub fn resolve_bearer(cli_key: Option<&str>, vars: &Vec<Option<String>>) -> (r: Option<String>)
    ensures
        text::opt_string(r) == given_token(text::opt_str(cli_key), text::opt_strings(vars@)),
{
    match cli_key {
        Some(k) => {
            let k = text::trim(k);
            if k.unicode_len() > 0 {
                return Some(k.to_string());
            }
        },
        None => {},
    }
    proxy::first_nonblank(vars)
}

/// The file of the Grok program, below the user's home or the current directory.
pub fn auth_json_path(home: Option<&str>) -> (r: String)
    ensures
        r@ == crate::config::in_data_dir(text::opt_str(home), ".grok/auth.json"@),
{
    crate::config::data_path(home, ".grok/auth.json")
}

/// The key of a scope, unless it is empty.
pub open spec fn scope_key(fs: Seq<FieldView>) -> Option<Seq<char>> {
    match json::field_text(fs, "key"@) {
        Some(k) => if k.len() > 0 {
            Some(k)
        } else {
            None
        },
        None => None,
    }
}

/// Whether a scope is one of xAI's own.
pub open spec fn own_scope(name: Seq<char>) -> bool {
    text::has(name, "auth.x.ai"@)
}

/// The key of the last of xAI's own scopes that has one.
pub open spec fn own_key(ms: Seq<MemberView>) -> Option<Seq<char>>
    decreases ms.len(),
{
    if ms.len() == 0 {
        None
    } else if own_scope(ms.last().0) && scope_key(ms.last().2) is Some {
        scope_key(ms.last().2)
    } else {
        own_key(ms.drop_last())
    }
}

/// The key of the first scope that has one.
pub open spec fn any_key(ms: Seq<MemberView>) -> Option<Seq<char>>
    decreases ms.len(),
{
    if ms.len() == 0 {
        None
    } else if scope_key(ms[0].2) is Some {
        scope_key(ms[0].2)
    } else {
        any_key(ms.skip(1))
    }
}

/// The first of the named members that is a string and not empty.
pub open spec fn flat_key(ms: Seq<MemberView>, names: Seq<Seq<char>>) -> Option<Seq<char>>
    decreases names.len(),
{
    if names.len() == 0 {
        None
    } else {
        match json::member_text(ms, names[0]) {
            Some(k) if k.len() > 0 => Some(k),
            _ => flat_key(ms, names.skip(1)),
        }
    }
}

/// The names under which a token stands where the file has no scopes.
pub open spec fn flat_names() -> Seq<Seq<char>> {
    seq!["access_token"@, "token"@, "api_key"@, "key"@]
}

/// The token in the file: the key of one of xAI's own scopes, otherwise that of any scope,
/// otherwise a token that stands by itself.
pub open spec fn token_in(ms: Seq<MemberView>) -> Option<Seq<char>> {
    if own_key(ms) is Some {
        own_key(ms)
    } else if any_key(ms) is Some {
        any_key(ms)
    } else {
        flat_key(ms, flat_names())
    }
}

fn key_of(fs: &Vec<Field>) -> (r: Option<String>)
    ensures
        text::opt_string(r) == scope_key(json::fields_view(fs@)),
{
    match json::get_field(fs, "key") {
        Some(k) => if k.as_str().unicode_len() > 0 {
            Some(k)
        } else {
            None
        },
        None => None,
    }
}

fn find_own_key(ms: &Vec<Member>) -> (r: Option<String>)
    ensures
        text::opt_string(r) == own_key(json::members_view(ms@)),
{
    let ghost all = json::members_view(ms@);
    let mut n: usize = ms.len();
    assert(all.take(n as int) =~= all);
    while n > 0
        invariant
            n <= ms.len(),
            all == json::members_view(ms@),
            own_key(all) == own_key(all.take(n as int)),
        decreases n,
    {
        assert(all.take(n as int).last() == all[n - 1]);
        assert(all.take(n as int).drop_last() =~= all.take(n - 1));
        if text::contains(ms[n - 1].name.as_str(), "auth.x.ai") {
            match key_of(&ms[n - 1].fields) {
                Some(k) => return Some(k),
                None => {},
            }
        }
        n = n - 1;
    }
    None
}

fn find_any_key(ms: &Vec<Member>) -> (r: Option<String>)
    ensures
        text::opt_string(r) == any_key(json::members_view(ms@)),
{
    let ghost all = json::members_view(ms@);
    let mut i: usize = 0;
    assert(all.skip(0) =~= all);
    while i < ms.len()
        invariant
            i <= ms.len(),
            all == json::members_view(ms@),
            any_key(all) == any_key(all.skip(i as int)),
        decreases ms.len() - i,
    {
        assert(all.skip(i as int)[0] == all[i as int]);
        assert(all.skip(i as int).skip(1) =~= all.skip(i as int + 1));
        match key_of(&ms[i].fields) {
            Some(k) => return Some(k),
            None => {},
        }
        i += 1;
    }
    None
}

fn find_flat_key(ms: &Vec<Member>) -> (r: Option<String>)
    ensures
        text::opt_string(r) == flat_key(json::members_view(ms@), flat_names()),
{
    let names: [&str; 4] = ["access_token", "token", "api_key", "key"];
    let ghost all = flat_names();
    let ghost view = json::members_view(ms@);
    let mut i: usize = 0;
    assert(all.skip(0) =~= all);
    assert(text::strs(names@) =~= all);
    while i < 4
        invariant
            i <= 4,
            view == json::members_view(ms@),
            all.len() == 4,
            text::strs(names@) == all,
            flat_key(view, flat_names()) == flat_key(view, all.skip(i as int)),
        decreases 4 - i,
    {
        let name: &str = names[i];
        assert(text::strs(names@)[i as int] == name@);
        assert(all.skip(i as int)[0] == name@);
        assert(all.skip(i as int).skip(1) =~= all.skip(i as int + 1));
        match json::get_text(ms, name) {
            Some(k) => {
                if k.as_str().unicode_len() > 0 {
                    return Some(k);
                }
            },
            None => {},
        }
        i += 1;
    }
    None
}

/// Picks the token among the members of the file.
pub fn pick_token(ms: &Vec<Member>) -> (r: Option<String>)
    ensures
        text::opt_string(r) == token_in(json::members_view(ms@)),
{
    match find_own_key(ms) {
        Some(k) => return Some(k),
        None => {},
    }
    match find_any_key(ms) {
        Some(k) => return Some(k),
        None => {},
    }
    find_flat_key(ms)
}

/// Why the file gives no token.
#[derive(Debug)]
pub enum AuthError {
    /// It is not JSON.
    Parse(serde_json::Error),
    /// It holds none.
    NoToken,
}

/// Reads the token from the text of the file.
pub fn read_grok_auth_json(raw: &str) -> (r: Result<String, AuthError>)
    ensures
        match json::json_object(raw@) {
            None => r matches Err(AuthError::Parse(_)),
            Some(None) => r matches Err(AuthError::NoToken),
            Some(Some(ms)) => match token_in(ms) {
                Some(k) => r matches Ok(x) && x@ == k,
                None => r matches Err(AuthError::NoToken),
            },
        },
{
    match json::parse_object(raw) {
        Err(e) => Err(AuthError::Parse(e)),
        Ok(None) => Err(AuthError::NoToken),
        Ok(Some(ms)) => match pick_token(&ms) {
            Some(k) => Ok(k),
            None => Err(AuthError::NoToken),
        },
    }
}

proof fn lemma_keys_nonempty(ms: Seq<MemberView>)
    ensures
        own_key(ms) matches Some(k) ==> k.len() > 0,
        any_key(ms) matches Some(k) ==> k.len() > 0,
    decreases ms.len(),
{
    if ms.len() > 0 {
        lemma_keys_nonempty(ms.drop_last());
        lemma_keys_nonempty(ms.skip(1));
    }
}

proof fn lemma_flat_nonempty(ms: Seq<MemberView>, names: Seq<Seq<char>>)
    ensures
        flat_key(ms, names) matches Some(k) ==> k.len() > 0,
    decreases names.len(),
{
    if names.len() > 0 {
        lemma_flat_nonempty(ms, names.skip(1));
    }
}

proof fn lemma_first_set(vars: Seq<Option<Seq<char>>>)
    ensures
        proxy::first_set(vars) matches Some(k) ==> k.len() > 0,
    decreases vars.len(),
{
    if vars.len() > 0 {
        lemma_first_set(vars.skip(1));
    }
}

/// A token is never empty, wherever it comes from, and one of xAI's own scopes always comes
/// before any other.
pub proof fn tokens_are_never_empty(
    ms: Seq<MemberView>,
    cli: Option<Seq<char>>,
    vars: Seq<Option<Seq<char>>>,
)
    ensures
        token_in(ms) matches Some(k) ==> k.len() > 0,
        given_token(cli, vars) matches Some(k) ==> k.len() > 0,
        own_key(ms) is Some ==> token_in(ms) == own_key(ms),
{
    lemma_keys_nonempty(ms);
    lemma_flat_nonempty(ms, flat_names());
    lemma_first_set(vars);
}

/// A token that is given counts before the environment, a blank one does not count, and either comes
/// out without the white space around it.
pub proof fn a_given_token_counts_first(cli: Seq<char>, vars: Seq<Option<Seq<char>>>)
    ensures
        text::trimmed(cli).len() > 0 ==> given_token(Some(cli), vars) == Some(text::trimmed(cli)),
        text::trimmed(cli).len() == 0 ==> given_token(Some(cli), vars) == given_token(None, vars),
        given_token(None, vars) == proxy::first_set(vars),
{
}

/// Of xAI's own scopes with a key the last one counts, whatever the other scopes hold.
pub proof fn the_last_own_scope_counts(
    before: Seq<MemberView>,
    scope: MemberView,
    behind: Seq<MemberView>,
)
    requires
        text::has(scope.0, "auth.x.ai"@),
        forall|i: int|
            0 <= i < behind.len() ==> !text::has((#[trigger] behind[i]).0, "auth.x.ai"@)
                || json::field_text(behind[i].2, "key"@) is None || json::field_text(
                behind[i].2,
                "key"@,
            )->Some_0.len() == 0,
        json::field_text(scope.2, "key"@) is Some,
        json::field_text(scope.2, "key"@)->Some_0.len() > 0,
    ensures
        token_in(before.push(scope) + behind) == json::field_text(scope.2, "key"@),
    decreases behind.len(),
{
    let all = before.push(scope) + behind;
    if behind.len() == 0 {
        assert(all =~= before.push(scope));
        assert(all.last() == scope);
    } else {
        assert(all.last() == behind.last());
        assert(all.drop_last() =~= before.push(scope) + behind.drop_last());
        the_last_own_scope_counts(before, scope, behind.drop_last());
        assert(own_key(all) == own_key(all.drop_last()));
        lemma_own(before, scope, behind.drop_last());
    }
}

proof fn lemma_own(before: Seq<MemberView>, scope: MemberView, behind: Seq<MemberView>)
    requires
        own_scope(scope.0),
        scope_key(scope.2) is Some,
        forall|i: int|
            0 <= i < behind.len() ==> !own_scope((#[trigger] behind[i]).0) || scope_key(behind[i].2) is None,
    ensures
        own_key(before.push(scope) + behind) == scope_key(scope.2),
    decreases behind.len(),
{
    let all = before.push(scope) + behind;
    if behind.len() == 0 {
        assert(all =~= before.push(scope));
        assert(all.last() == scope);
    } else {
        assert(all.last() == behind.last());
        assert(all.drop_last() =~= before.push(scope) + behind.drop_last());
        lemma_own(before, scope, behind.drop_last());
    }
}

proof fn lemma_no_own(ms: Seq<MemberView>)
    requires
        forall|i: int| 0 <= i < ms.len() ==> !text::has((#[trigger] ms[i]).0, "auth.x.ai"@),
    ensures
        own_key(ms) is None,
    decreases ms.len(),
{
    if ms.len() > 0 {
        assert(ms.last() == ms[ms.len() - 1]);
        lemma_no_own(ms.drop_last());
    }
}

proof fn lemma_any(before: Seq<MemberView>, scope: MemberView, behind: Seq<MemberView>)
    requires
        forall|i: int| 0 <= i < before.len() ==> scope_key((#[trigger] before[i]).2) is None,
    ensures
        scope_key(scope.2) is Some ==> any_key(before.push(scope) + behind) == scope_key(scope.2),
        any_key(before) is None,
    decreases before.len(),
{
    let all = before.push(scope) + behind;
    if before.len() == 0 {
        assert(all[0] == scope);
    } else {
        assert(all[0] == before[0]);
        let less = before.skip(1);
        assert(all.skip(1) =~= less.push(scope) + behind);
        assert forall|i: int| 0 <= i < less.len() implies scope_key((#[trigger] less[i]).2) is None by {
            assert(less[i] == before[i + 1]);
        }
        lemma_any(less, scope, behind);
    }
}

/// Where no scope is xAI's own, the first scope with a key counts.
pub proof fn otherwise_the_first_key_counts(
    before: Seq<MemberView>,
    scope: MemberView,
    behind: Seq<MemberView>,
)
    requires
        ({
            let all = before.push(scope) + behind;
            forall|i: int| 0 <= i < all.len() ==> !text::has((#[trigger] all[i]).0, "auth.x.ai"@)
        }),
        forall|i: int|
            0 <= i < before.len() ==> json::field_text((#[trigger] before[i]).2, "key"@) is None,
        json::field_text(scope.2, "key"@) is Some,
        json::field_text(scope.2, "key"@)->Some_0.len() > 0,
    ensures
        token_in(before.push(scope) + behind) == json::field_text(scope.2, "key"@),
{
    lemma_no_own(before.push(scope) + behind);
    lemma_any(before, scope, behind);
}

/// Where no scope has a key, a token that stands by itself counts: an access token before a token, a
/// token before a key for the interface, and that before a plain key.
pub proof fn tokens_may_stand_alone(ms: Seq<MemberView>)
    requires
        forall|i: int| 0 <= i < ms.len() ==> json::field_text((#[trigger] ms[i]).2, "key"@) is None,
    ensures
        ({
            let held = |name: Seq<char>|
                json::member_text(ms, name) is Some && json::member_text(ms, name)->Some_0.len() > 0;
            token_in(ms) == if held("access_token"@) {
                json::member_text(ms, "access_token"@)
            } else if held("token"@) {
                json::member_text(ms, "token"@)
            } else if held("api_key"@) {
                json::member_text(ms, "api_key"@)
            } else if held("key"@) {
                json::member_text(ms, "key"@)
            } else {
                None
            }
        }),
{
    lemma_no_keys(ms);
    reveal_with_fuel(flat_key, 5);
    let names = flat_names();
    assert(names.skip(1) =~= seq!["token"@, "api_key"@, "key"@]);
    assert(names.skip(1).skip(1) =~= seq!["api_key"@, "key"@]);
    assert(names.skip(1).skip(1).skip(1) =~= seq!["key"@]);
    assert(names.skip(1).skip(1).skip(1).skip(1) =~= Seq::<Seq<char>>::empty());
}

proof fn lemma_no_keys(ms: Seq<MemberView>)
    requires
        forall|i: int| 0 <= i < ms.len() ==> json::field_text((#[trigger] ms[i]).2, "key"@) is None,
    ensures
        own_key(ms) is None,
        any_key(ms) is None,
    decreases ms.len(),
{
    if ms.len() > 0 {
        assert(ms.last() == ms[ms.len() - 1]);
        lemma_no_keys(ms.drop_last());
        let less = ms.skip(1);
        assert forall|i: int| 0 <= i < less.len() implies json::field_text(
            (#[trigger] less[i]).2,
            "key"@,
        ) is None by {
            assert(less[i] == ms[i + 1]);
        }
        lemma_no_keys(less);
    }
}

} // verus!
