//! Text primitives: whitespace, ASCII case, prefixes, lines, words and decimal numbers.

use vstd::prelude::*;

verus! {

/// `String::push` appends one character.
pub assume_specification[ String::push ](s: &mut String, c: char)
    ensures
        final(s)@ == old(s)@.push(c),
;

/// The characters of a string.
pub fn chars_of(s: &str) -> (r: Vec<char>)
    ensures
        r@ == s@,
{
    let mut out: Vec<char> = Vec::new();
    for c in it: s.chars()
        invariant
            out@ == it.seq().take(it.index()),
            it.seq() == s@,
    {
        out.push(c);
    }
    out
}

/// The string made of the given characters.
pub fn string_of(cs: &[char]) -> (r: String)
    ensures
        r@ == cs@,
{
    let mut out: String = String::new();
    let mut i: usize = 0;
    while i < cs.len()
        invariant
            i <= cs.len(),
            out@ == cs@.take(i as int),
        decreases cs.len() - i,
    {
        out.push(cs[i]);
        i = i + 1;
    }
    proof {
        assert(cs@.take(cs@.len() as int) =~= cs@);
    }
    out
}

/// The characters with Unicode's White_Space property.
pub open spec fn is_white(c: char) -> bool {
    let n = c as u32;
    ||| 0x09 <= n <= 0x0D
    ||| n == 0x20
    ||| n == 0x85
    ||| n == 0xA0
    ||| n == 0x1680
    ||| 0x2000 <= n <= 0x200A
    ||| n == 0x2028
    ||| n == 0x2029
    ||| n == 0x202F
    ||| n == 0x205F
    ||| n == 0x3000
}

/// Whether `c` is white space.
pub fn white(c: char) -> (r: bool)
    ensures
        r == is_white(c),
{
    let n: u32 = c as u32;
    (0x09 <= n && n <= 0x0D) || n == 0x20 || n == 0x85 || n == 0xA0 || n == 0x1680 || (0x2000 <= n
        && n <= 0x200A) || n == 0x2028 || n == 0x2029 || n == 0x202F || n == 0x205F || n == 0x3000
}

/// The text without the white space it starts with.
pub open spec fn trim_start(s: Seq<char>) -> Seq<char>
    decreases s.len(),
{
    if s.len() > 0 && is_white(s.first()) {
        trim_start(s.drop_first())
    } else {
        s
    }
}

/// The text without the white space it ends with.
pub open spec fn trim_end(s: Seq<char>) -> Seq<char>
    decreases s.len(),
{
    if s.len() > 0 && is_white(s.last()) {
        trim_end(s.drop_last())
    } else {
        s
    }
}

/// The text without the white space at both of its ends.
pub open spec fn trimmed(s: Seq<char>) -> Seq<char> {
    trim_end(trim_start(s))
}

proof fn lemma_trim_start(s: Seq<char>)
    ensures
        trim_start(s).len() > 0 ==> !is_white(trim_start(s)[0]),
    decreases s.len(),
{
    if s.len() > 0 && is_white(s.first()) {
        lemma_trim_start(s.drop_first());
    }
}

proof fn lemma_trim_end(s: Seq<char>)
    ensures
        trim_end(s).is_prefix_of(s),
        trim_end(s).len() > 0 ==> !is_white(trim_end(s).last()),
    decreases s.len(),
{
    if s.len() > 0 && is_white(s.last()) {
        lemma_trim_end(s.drop_last());
    }
}

/// What is trimmed has no white space at its ends, and trimming it again changes nothing.
pub proof fn trimming_is_idempotent(s: Seq<char>)
    ensures
        trimmed(trimmed(s)) == trimmed(s),
        trimmed(s).len() > 0 ==> !is_white(trimmed(s).first()) && !is_white(trimmed(s).last()),
{
    let t = trimmed(s);
    lemma_trim_start(s);
    lemma_trim_end(trim_start(s));
    if t.len() > 0 {
        assert(t[0] == trim_start(s)[0]);
    }
}

/// `s` without the white space at both of its ends.
pub fn trim(s: &str) -> (r: &str)
    ensures
        r@ == trimmed(s@),
{
    let cs: Vec<char> = chars_of(s);
    let n: usize = cs.len();
    let mut i: usize = 0;
    proof {
        assert(cs@.skip(0) =~= cs@);
    }
    while i < n && white(cs[i])
        invariant
            n == cs.len(),
            i <= n,
            trim_start(cs@) == trim_start(cs@.skip(i as int)),
        decreases n - i,
    {
        proof {
            assert(cs@.skip(i as int).drop_first() =~= cs@.skip(i + 1));
        }
        i = i + 1;
    }
    let mut j: usize = n;
    proof {
        assert(trim_start(cs@) =~= cs@.skip(i as int));
        assert(cs@.subrange(i as int, j as int) =~= cs@.skip(i as int));
    }
    while i < j && white(cs[j - 1])
        invariant
            n == cs.len(),
            i <= j <= n,
            trimmed(cs@) == trim_end(cs@.subrange(i as int, j as int)),
        decreases j - i,
    {
        proof {
            assert(cs@.subrange(i as int, j as int).drop_last() =~= cs@.subrange(
                i as int,
                j - 1,
            ));
        }
        j = j - 1;
    }
    s.substring_char(i, j)
}

/// Whether two texts hold the same characters.
pub fn same(a: &str, b: &str) -> (r: bool)
    ensures
        r == (a@ == b@),
{
    let ac: Vec<char> = chars_of(a);
    let bc: Vec<char> = chars_of(b);
    if ac.len() != bc.len() {
        return false;
    }
    proof {
        assert(ac@.subrange(0, bc@.len() as int) =~= ac@);
    }
    begins_at(&ac, 0, &bc)
}

/// Whether `pat` stands in `s` at position `at`.
fn begins_at(s: &Vec<char>, at: usize, pat: &Vec<char>) -> (r: bool)
    requires
        at + pat@.len() <= s@.len(),
    ensures
        r == (s@.subrange(at as int, at + pat@.len()) == pat@),
{
    let mut i: usize = 0;
    while i < pat.len()
        invariant
            i <= pat.len(),
            at + pat.len() <= s.len(),
            forall|k: int| 0 <= k < i ==> s@[at + k] == pat@[k],
        decreases pat.len() - i,
    {
        if s[at + i] != pat[i] {
            proof {
                assert(s@.subrange(at as int, at + pat@.len())[i as int] != pat@[i as int]);
            }
            return false;
        }
        i = i + 1;
    }
    proof {
        assert(s@.subrange(at as int, at + pat@.len()) =~= pat@);
    }
    true
}

/// Whether `s` starts with `pat`.
pub fn starts_with(s: &str, pat: &str) -> (r: bool)
    ensures
        r == pat@.is_prefix_of(s@),
{
    let sc: Vec<char> = chars_of(s);
    let pc: Vec<char> = chars_of(pat);
    if pc.len() > sc.len() {
        return false;
    }
    begins_at(&sc, 0, &pc)
}

/// Whether `s` ends with `pat`.
pub fn ends_with(s: &str, pat: &str) -> (r: bool)
    ensures
        r == pat@.is_suffix_of(s@),
{
    let sc: Vec<char> = chars_of(s);
    let pc: Vec<char> = chars_of(pat);
    if pc.len() > sc.len() {
        return false;
    }
    begins_at(&sc, sc.len() - pc.len(), &pc)
}

/// What follows `pat` in `s`, where `s` starts with it.
pub fn strip_prefix<'a>(s: &'a str, pat: &str) -> (r: Option<&'a str>)
    ensures
        r is Some <==> pat@.is_prefix_of(s@),
        r matches Some(t) ==> t@ == s@.skip(pat@.len() as int),
{
    if starts_with(s, pat) {
        Some(s.substring_char(pat.unicode_len(), s.unicode_len()))
    } else {
        None
    }
}

/// Whether `pat` occurs in the text.
pub open spec fn has(s: Seq<char>, pat: Seq<char>) -> bool {
    exists|i: int|
        0 <= i <= s.len() - pat.len() && #[trigger] s.subrange(i, i + pat.len()) == pat
}

/// Whether `pat` occurs in `s`.
pub fn contains(s: &str, pat: &str) -> (r: bool)
    ensures
        r == has(s@, pat@),
{
    let sc: Vec<char> = chars_of(s);
    let pc: Vec<char> = chars_of(pat);
    if pc.len() > sc.len() {
        return false;
    }
    if pc.len() == 0 {
        proof {
            assert(s@.subrange(0, 0int + pat@.len()) =~= pat@);
        }
        return true;
    }
    let last: usize = sc.len() - pc.len();
    let mut i: usize = 0;
    while i <= last
        invariant
            sc@ == s@,
            pc@ == pat@,
            last == sc.len() - pc.len(),
            i <= last + 1,
            last < usize::MAX,
            forall|k: int| 0 <= k < i ==> #[trigger] sc@.subrange(k, k + pc@.len()) != pc@,
        decreases last + 1 - i,
    {
        if begins_at(&sc, i, &pc) {
            proof {
                assert(s@.subrange(i as int, i + pat@.len()) == pat@);
            }
            return true;
        }
        i = i + 1;
    }
    false
}

/// The lower-case form of an ASCII letter; any other character as it is.
pub open spec fn ascii_lower(c: char) -> char {
    if 'A' <= c <= 'Z' {
        (c as u8 + 32) as char
    } else {
        c
    }
}

/// The upper-case form of an ASCII letter; any other character as it is.
pub open spec fn ascii_upper(c: char) -> char {
    if 'a' <= c <= 'z' {
        (c as u8 - 32) as char
    } else {
        c
    }
}

/// The text with its ASCII letters in lower case.
pub open spec fn lowered(s: Seq<char>) -> Seq<char> {
    s.map_values(|c: char| ascii_lower(c))
}

/// The text with its ASCII letters in upper case.
pub open spec fn uppered(s: Seq<char>) -> Seq<char> {
    s.map_values(|c: char| ascii_upper(c))
}

/// `s` with its ASCII letters in lower case.
pub fn to_lower(s: &str) -> (r: String)
    ensures
        r@ == lowered(s@),
{
    let cs: Vec<char> = chars_of(s);
    let mut out: String = String::new();
    let mut i: usize = 0;
    while i < cs.len()
        invariant
            i <= cs.len(),
            out@ == lowered(cs@.take(i as int)),
        decreases cs.len() - i,
    {
        let c: char = cs[i];
        if 'A' <= c && c <= 'Z' {
            out.push((c as u8 + 32) as char);
        } else {
            out.push(c);
        }
        i = i + 1;
        proof {
            assert(out@ =~= lowered(cs@.take(i as int)));
        }
    }
    proof {
        assert(cs@.take(cs@.len() as int) =~= s@);
    }
    out
}

/// `s` with its ASCII letters in upper case.
pub fn to_upper(s: &str) -> (r: String)
    ensures
        r@ == uppered(s@),
{
    let cs: Vec<char> = chars_of(s);
    let mut out: String = String::new();
    let mut i: usize = 0;
    while i < cs.len()
        invariant
            i <= cs.len(),
            out@ == uppered(cs@.take(i as int)),
        decreases cs.len() - i,
    {
        let c: char = cs[i];
        if 'a' <= c && c <= 'z' {
            out.push((c as u8 - 32) as char);
        } else {
            out.push(c);
        }
        i = i + 1;
        proof {
            assert(out@ =~= uppered(cs@.take(i as int)));
        }
    }
    proof {
        assert(cs@.take(cs@.len() as int) =~= s@);
    }
    out
}

/// The first `n` characters of the text, or all of it where it is shorter.
pub open spec fn first_chars(s: Seq<char>, n: nat) -> Seq<char> {
    if s.len() <= n {
        s
    } else {
        s.take(n as int)
    }
}

/// The first `n` characters of `s`, or all of it where it is shorter.
pub fn prefix(s: &str, n: usize) -> (r: &str)
    ensures
        r@ == first_chars(s@, n as nat),
{
    if s.unicode_len() <= n {
        s
    } else {
        s.substring_char(0, n)
    }
}

/// The characters that a vector of strings holds, string by string.
pub open spec fn texts(v: Seq<String>) -> Seq<Seq<char>> {
    v.map_values(|s: String| s@)
}

/// The characters of an optional borrowed string.
pub open spec fn opt_str(s: Option<&str>) -> Option<Seq<char>> {
    match s {
        Some(t) => Some(t@),
        None => None,
    }
}

/// The characters of an optional string.
pub open spec fn opt_string(s: Option<String>) -> Option<Seq<char>> {
    match s {
        Some(t) => Some(t@),
        None => None,
    }
}

/// The characters of optional strings, one after another.
pub open spec fn opt_strings(v: Seq<Option<String>>) -> Seq<Option<Seq<char>>> {
    v.map_values(|o: Option<String>| opt_string(o))
}

/// The length of the first line: the position of its line feed, or the length of the text.
pub open spec fn line_len(s: Seq<char>) -> nat
    decreases s.len(),
{
    if s.len() == 0 || s.first() == '\n' {
        0
    } else {
        1 + line_len(s.drop_first())
    }
}

/// A line that a line feed ended, without the carriage return before that line feed.
pub open spec fn without_cr(s: Seq<char>) -> Seq<char> {
    if s.len() > 0 && s.last() == '\r' {
        s.drop_last()
    } else {
        s
    }
}

/// The lines of a text. A line ends at a line feed, or at a carriage return and a line feed; the
/// ending of the last line may be missing.
pub open spec fn lines_of(s: Seq<char>) -> Seq<Seq<char>>
    decreases s.len(),
{
    if s.len() == 0 {
        seq![]
    } else {
        let k = line_len(s);
        if k >= s.len() {
            seq![s]
        } else {
            seq![without_cr(s.take(k as int))] + lines_of(s.skip(k as int + 1))
        }
    }
}

proof fn lemma_line_len(s: Seq<char>, k: nat)
    requires
        k <= s.len(),
        forall|i: int| 0 <= i < k ==> s[i] != '\n',
        k < s.len() ==> s[k as int] == '\n',
    ensures
        line_len(s) == k,
    decreases k,
{
    if k > 0 {
        lemma_line_len(s.drop_first(), (k - 1) as nat);
    }
}

/// The lines of `s`.
pub fn lines(s: &str) -> (r: Vec<String>)
    ensures
        texts(r@) == lines_of(s@),
{
    let cs: Vec<char> = chars_of(s);
    let n: usize = cs.len();
    let mut out: Vec<String> = Vec::new();
    let mut start: usize = 0;
    proof {
        assert(cs@.skip(0) =~= cs@);
        assert(texts(out@) + lines_of(s@) =~= lines_of(s@));
    }
    while start < n
        invariant
            n == cs.len(),
            start <= n,
            texts(out@) + lines_of(cs@.skip(start as int)) == lines_of(s@),
        decreases n - start,
    {
        let mut k: usize = start;
        while k < n && cs[k] != '\n'
            invariant
                n == cs.len(),
                start <= k <= n,
                forall|i: int| start <= i < k ==> cs@[i] != '\n',
            decreases n - k,
        {
            k = k + 1;
        }
        let ghost rest = cs@.skip(start as int);
        let ghost before = out@;
        proof {
            lemma_line_len(rest, (k - start) as nat);
        }
        if k == n {
            out.push(string_of(vstd::slice::slice_subrange(cs.as_slice(), start, n)));
            start = n;
            proof {
                assert(cs@.subrange((k - rest.len()) as int, n as int) =~= rest);
                assert(lines_of(rest) =~= seq![rest]);
                assert(texts(out@) =~= texts(before) + lines_of(rest));
                assert(cs@.skip(n as int).len() == 0);
                assert(texts(out@) + lines_of(cs@.skip(n as int)) =~= texts(out@));
            }
        } else {
            let mut end: usize = k;
            if end > start && cs[end - 1] == '\r' {
                end = end - 1;
            }
            out.push(string_of(vstd::slice::slice_subrange(cs.as_slice(), start, end)));
            proof {
                let line = rest.take(k - start);
                assert(cs@.subrange(start as int, end as int) =~= without_cr(line));
                assert(rest.skip(k - start + 1) =~= cs@.skip(k + 1));
                assert(texts(out@) =~= texts(before) + seq![without_cr(line)]);
                assert(texts(out@) + lines_of(cs@.skip(k + 1)) =~= texts(before) + lines_of(rest));
            }
            start = k + 1;
        }
    }
    proof {
        assert(cs@.skip(start as int).len() == 0);
        assert(texts(out@) + lines_of(cs@.skip(start as int)) =~= texts(out@));
    }
    out
}

/// The length of the word that a text starts with.
pub open spec fn word_len(s: Seq<char>) -> nat
    decreases s.len(),
{
    if s.len() == 0 || is_white(s.first()) {
        0
    } else {
        1 + word_len(s.drop_first())
    }
}

proof fn lemma_word_len(s: Seq<char>, k: nat)
    requires
        k <= s.len(),
        forall|i: int| 0 <= i < k ==> !is_white(#[trigger] s[i]),
        k < s.len() ==> is_white(s[k as int]),
    ensures
        word_len(s) == k,
    decreases k,
{
    if k > 0 {
        lemma_word_len(s.drop_first(), (k - 1) as nat);
    }
}

proof fn lemma_trim_start_len(s: Seq<char>)
    ensures
        trim_start(s).len() <= s.len(),
        trim_start(s).len() > 0 ==> !is_white(trim_start(s).first()),
    decreases s.len(),
{
    if s.len() > 0 && is_white(s.first()) {
        lemma_trim_start_len(s.drop_first());
    }
}

/// The words of a text: the longest runs without white space, in order.
pub open spec fn words_of(s: Seq<char>) -> Seq<Seq<char>>
    decreases s.len(),
    via words_decrease
{
    let t = trim_start(s);
    if t.len() == 0 {
        seq![]
    } else {
        let k = word_len(t);
        seq![t.take(k as int)] + words_of(t.skip(k as int))
    }
}

#[via_fn]
proof fn words_decrease(s: Seq<char>) {
    lemma_trim_start_len(s);
    let t = trim_start(s);
    if t.len() > 0 {
        lemma_word_bounds(t);
    }
}

proof fn lemma_word_bounds(t: Seq<char>)
    ensures
        word_len(t) <= t.len(),
        t.len() > 0 && !is_white(t.first()) ==> word_len(t) > 0,
    decreases t.len(),
{
    if t.len() > 0 && !is_white(t.first()) {
        lemma_word_bounds(t.drop_first());
    }
}

/// The words of `s`.
pub fn words(s: &str) -> (r: Vec<String>)
    ensures
        texts(r@) == words_of(s@),
{
    let cs: Vec<char> = chars_of(s);
    let n: usize = cs.len();
    let mut out: Vec<String> = Vec::new();
    let mut at: usize = 0;
    proof {
        assert(cs@.skip(0) =~= cs@);
        assert(texts(out@) + words_of(s@) =~= words_of(s@));
    }
    while at < n
        invariant
            n == cs.len(),
            at <= n,
            texts(out@) + words_of(cs@.skip(at as int)) == words_of(s@),
        decreases n - at,
    {
        if white(cs[at]) {
            proof {
                assert(cs@.skip(at as int).drop_first() =~= cs@.skip(at + 1));
            }
            at = at + 1;
        } else {
            let mut k: usize = at;
            while k < n && !white(cs[k])
                invariant
                    n == cs.len(),
                    at <= k <= n,
                    forall|i: int| at <= i < k ==> !is_white(#[trigger] cs@[i]),
                decreases n - k,
            {
                k = k + 1;
            }
            let ghost rest = cs@.skip(at as int);
            let ghost before = out@;
            proof {
                lemma_word_len(rest, (k - at) as nat);
                lemma_word_bounds(rest);
            }
            out.push(string_of(vstd::slice::slice_subrange(cs.as_slice(), at, k)));
            proof {
                assert(cs@.subrange(at as int, k as int) =~= rest.take(k - at));
                assert(rest.skip(k - at) =~= cs@.skip(k as int));
                assert(texts(out@) =~= texts(before) + seq![rest.take(k - at)]);
                assert(texts(out@) + words_of(cs@.skip(k as int)) =~= texts(before) + words_of(
                    rest,
                ));
            }
            at = k;
        }
    }
    proof {
        assert(cs@.skip(at as int).len() == 0);
        assert(texts(out@) + words_of(cs@.skip(at as int)) =~= texts(out@));
    }
    out
}

/// The parts one after another, with `sep` between neighbours.
pub open spec fn joined(parts: Seq<Seq<char>>, sep: Seq<char>) -> Seq<char>
    decreases parts.len(),
{
    if parts.len() == 0 {
        seq![]
    } else if parts.len() == 1 {
        parts[0]
    } else {
        joined(parts.drop_last(), sep) + sep + parts.last()
    }
}

/// `parts` one after another, with `sep` between neighbours.
pub fn join(parts: &Vec<String>, sep: &str) -> (r: String)
    ensures
        r@ == joined(texts(parts@), sep@),
{
    let mut out: String = String::new();
    let mut i: usize = 0;
    while i < parts.len()
        invariant
            i <= parts.len(),
            out@ == joined(texts(parts@).take(i as int), sep@),
        decreases parts.len() - i,
    {
        if i > 0 {
            out.append(sep);
        }
        out.append(parts[i].as_str());
        i = i + 1;
        proof {
            let now = texts(parts@).take(i as int);
            assert(now.drop_last() =~= texts(parts@).take(i - 1));
            if i == 1 {
                assert(out@ =~= parts@[0]@);
            }
        }
    }
    proof {
        assert(texts(parts@).take(parts@.len() as int) =~= texts(parts@));
    }
    out
}

/// The digit that stands for `d`, a number below ten.
pub open spec fn digit(d: nat) -> char {
    (48 + d) as char
}

/// A number in decimal, without leading zeros.
pub open spec fn decimal(n: nat) -> Seq<char>
    decreases n,
{
    if n < 10 {
        seq![digit(n)]
    } else {
        decimal(n / 10).push(digit(n % 10))
    }
}

/// `n` in decimal.
pub fn number(n: u64) -> (r: String)
    ensures
        r@ == decimal(n as nat),
    decreases n,
{
    let last: char = (48 + (n % 10) as u8) as char;
    let mut out: String = if n < 10 {
        String::new()
    } else {
        number(n / 10)
    };
    out.push(last);
    proof {
        assert(n < 10 ==> out@ =~= decimal(n as nat));
    }
    out
}

/// Whether `c` is an ASCII digit.
pub open spec fn is_digit(c: char) -> bool {
    '0' <= c <= '9'
}

/// What a run of digits stands for in decimal.
pub open spec fn digits_value(s: Seq<char>) -> nat
    decreases s.len(),
{
    if s.len() == 0 {
        0
    } else {
        digits_value(s.drop_last()) * 10 + (s.last() as nat - 48) as nat
    }
}

/// The digits of an unsigned number: a plus sign may stand before them.
pub open spec fn unsigned_digits(s: Seq<char>) -> Seq<char> {
    if s.len() > 0 && s.first() == '+' {
        s.drop_first()
    } else {
        s
    }
}

/// What an unsigned number of at most `max` is read from: at least one digit, only digits, a plus
/// sign allowed before them, and a value that does not exceed `max`.
pub open spec fn unsigned_value(s: Seq<char>, max: nat) -> Option<nat> {
    let d = unsigned_digits(s);
    if d.len() > 0 && (forall|i: int| 0 <= i < d.len() ==> is_digit(#[trigger] d[i]))
        && digits_value(d) <= max {
        Some(digits_value(d))
    } else {
        None
    }
}

proof fn lemma_digits_grow(s: Seq<char>, k: int)
    requires
        0 <= k <= s.len(),
    ensures
        digits_value(s.take(k)) <= digits_value(s),
    decreases s.len(),
{
    if k < s.len() {
        assert(s.drop_last().take(k) =~= s.take(k));
        lemma_digits_grow(s.drop_last(), k);
    } else {
        assert(s.take(k) =~= s);
    }
}

/// The unsigned number of at most `max` that `s` spells, if it spells one.
pub fn parse_unsigned(s: &str, max: u64) -> (r: Option<u64>)
    ensures
        r is Some <==> unsigned_value(s@, max as nat) is Some,
        r matches Some(v) ==> unsigned_value(s@, max as nat) == Some(v as nat),
{
    let cs: Vec<char> = chars_of(s);
    let start: usize = if cs.len() > 0 && cs[0] == '+' {
        1
    } else {
        0
    };
    let ghost d = unsigned_digits(s@);
    proof {
        assert(d =~= cs@.skip(start as int));
    }
    if start == cs.len() {
        return None;
    }
    let mut v: u64 = 0;
    let mut i: usize = start;
    while i < cs.len()
        invariant
            start <= i <= cs.len(),
            start <= 1,
            d == cs@.skip(start as int),
            d == unsigned_digits(s@),
            v == digits_value(d.take(i - start)),
            v <= max,
            forall|k: int| 0 <= k < i - start ==> is_digit(#[trigger] d[k]),
        decreases cs.len() - i,
    {
        let c: char = cs[i];
        let ghost k = i - start;
        proof {
            assert(d[k] == c);
            assert(d.take(k + 1).drop_last() =~= d.take(k));
            lemma_digits_grow(d, k + 1);
        }
        if c < '0' || c > '9' {
            return None;
        }
        let x: u64 = (c as u8 - 48) as u64;
        if v > (u64::MAX - x) / 10 || v * 10 + x > max {
            return None;
        }
        v = v * 10 + x;
        i = i + 1;
    }
    proof {
        assert(d.take(d.len() as int) =~= d);
    }
    Some(v)
}

/// The characters that borrowed strings hold, string by string.
pub open spec fn strs(v: Seq<&str>) -> Seq<Seq<char>> {
    v.map_values(|s: &str| s@)
}

/// Copies borrowed strings.
pub fn owned(parts: &[&str]) -> (r: Vec<String>)
    ensures
        texts(r@) == strs(parts@),
{
    let mut out: Vec<String> = Vec::new();
    let mut i: usize = 0;
    while i < parts.len()
        invariant
            i <= parts.len(),
            texts(out@) == strs(parts@).take(i as int),
        decreases parts.len() - i,
    {
        let part: &str = parts[i];
        let ghost before = out@;
        out.push(part.to_string());
        i = i + 1;
        assert(texts(out@) =~= texts(before).push(part@));
        assert(strs(parts@).take(i as int) =~= strs(parts@).take(i - 1).push(part@));
    }
    assert(strs(parts@).take(parts@.len() as int) =~= strs(parts@));
    out
}

/// Two texts one after the other.
pub fn cat(a: &str, b: &str) -> (r: String)
    ensures
        r@ == a@ + b@,
{
    let mut out = a.to_string();
    out.append(b);
    out
}

/// A relative path below a directory.
pub open spec fn below(dir: Seq<char>, rel: Seq<char>) -> Seq<char> {
    if dir.len() == 0 {
        rel
    } else if dir.last() == '/' {
        dir + rel
    } else {
        dir.push('/') + rel
    }
}

/// At most one text.
pub open spec fn one(t: Option<Seq<char>>) -> Seq<Seq<char>> {
    match t {
        Some(x) => seq![x],
        None => seq![],
    }
}

/// A path below a directory, if there is one.
pub open spec fn in_dir(dir: Option<Seq<char>>, rel: Seq<char>) -> Seq<Seq<char>> {
    match dir {
        Some(d) => seq![below(d, rel)],
        None => seq![],
    }
}

/// Joins a relative path to a directory.
pub fn join_path(dir: &str, rel: &str) -> (r: String)
    ensures
        r@ == below(dir@, rel@),
{
    let n: usize = dir.unicode_len();
    let mut out = dir.to_string();
    if n > 0 && dir.get_char(n - 1) != '/' {
        out.push('/');
    }
    out.append(rel);
    assert(n == 0 ==> dir@ + rel@ =~= rel@);
    out
}

/// `s` with every line feed turned into a space.
pub open spec fn on_one_line(s: Seq<char>) -> Seq<char> {
    s.map_values(
        |c: char|
            if c == '\n' {
                ' '
            } else {
                c
            },
    )
}

/// Turns every line feed into a space.
pub fn one_line(s: &str) -> (r: String)
    ensures
        r@ == on_one_line(s@),
{
    let cs = chars_of(s);
    let mut out: String = String::new();
    let mut i: usize = 0;
    while i < cs.len()
        invariant
            cs@ == s@,
            i <= cs.len(),
            out@ == on_one_line(s@).take(i as int),
        decreases cs.len() - i,
    {
        let c: char = cs[i];
        out.push(if c == '\n' {
            ' '
        } else {
            c
        });
        i = i + 1;
        assert(on_one_line(s@).take(i as int) =~= on_one_line(s@).take(i - 1).push(
            on_one_line(s@)[i - 1],
        ));
    }
    assert(on_one_line(s@).take(s@.len() as int) =~= on_one_line(s@));
    out
}

/// The first of `words` that is a number of at most `max`.
pub open spec fn first_number_in(words: Seq<Seq<char>>, max: nat) -> Option<nat>
    decreases words.len(),
{
    if words.len() == 0 {
        None
    } else {
        match unsigned_value(words[0], max) {
            Some(n) => Some(n),
            None => first_number_in(words.skip(1), max),
        }
    }
}

/// Finds the first word of a text that is a number of at most `max`.
pub fn first_number(s: &str, max: u64) -> (r: Option<u64>)
    ensures
        match first_number_in(words_of(s@), max as nat) {
            Some(n) => r is Some && r->Some_0 == n,
            None => r is None,
        },
{
    let ws = words(s);
    let mut i: usize = 0;
    assert(texts(ws@).skip(0) =~= texts(ws@));
    while i < ws.len()
        invariant
            i <= ws.len(),
            texts(ws@) == words_of(s@),
            first_number_in(words_of(s@), max as nat) == first_number_in(
                texts(ws@).skip(i as int),
                max as nat,
            ),
        decreases ws.len() - i,
    {
        let ghost rest = texts(ws@).skip(i as int);
        assert(rest[0] == ws@[i as int]@);
        assert(rest.skip(1) =~= texts(ws@).skip(i as int + 1));
        match parse_unsigned(ws[i].as_str(), max) {
            Some(n) => return Some(n),
            None => {},
        }
        i = i + 1;
    }
    None
}

/// `s` without the characters `a` and `b` that it ends with.
pub open spec fn without_end(s: Seq<char>, a: char, b: char) -> Seq<char>
    decreases s.len(),
{
    if s.len() > 0 && (s.last() == a || s.last() == b) {
        without_end(s.drop_last(), a, b)
    } else {
        s
    }
}

/// Removes the characters `a` and `b` that a text ends with.
pub fn trim_end_of(s: &str, a: char, b: char) -> (r: &str)
    ensures
        r@ == without_end(s@, a, b),
{
    let cs = chars_of(s);
    let mut n: usize = cs.len();
    assert(cs@.take(n as int) =~= s@);
    while n > 0 && (cs[n - 1] == a || cs[n - 1] == b)
        invariant
            n <= cs.len(),
            cs@ == s@,
            without_end(s@, a, b) == without_end(s@.take(n as int), a, b),
        decreases n,
    {
        assert(s@.take(n as int).drop_last() =~= s@.take(n - 1));
        n = n - 1;
    }
    assert(s@.subrange(0, n as int) =~= s@.take(n as int));
    s.substring_char(0, n)
}

/// `s` without `pat` in front, however often it stands there.
pub open spec fn without_starts(s: Seq<char>, pat: Seq<char>) -> Seq<char>
    decreases s.len(),
{
    if pat.len() > 0 && pat.is_prefix_of(s) {
        without_starts(s.skip(pat.len() as int), pat)
    } else {
        s
    }
}

/// Removes `pat` from the front of a text, however often it stands there.
pub fn trim_starts<'a>(s: &'a str, pat: &str) -> (r: &'a str)
    ensures
        r@ == without_starts(s@, pat@),
    decreases s@.len(),
{
    if pat.unicode_len() == 0 {
        return s;
    }
    match strip_prefix(s, pat) {
        Some(rest) => {
            assert(rest@ =~= s@.skip(pat@.len() as int));
            trim_starts(rest, pat)
        },
        None => s,
    }
}

/// `s` up to the first `c`, or all of it.
pub open spec fn up_to(s: Seq<char>, c: char) -> Seq<char>
    decreases s.len(),
{
    if s.len() == 0 || s[0] == c {
        seq![]
    } else {
        seq![s[0]] + up_to(s.skip(1), c)
    }
}

/// What stands after the first `c` in `s`, if there is one.
pub open spec fn after(s: Seq<char>, c: char) -> Option<Seq<char>> {
    let n = up_to(s, c).len();
    if n < s.len() {
        Some(s.skip(n as int + 1))
    } else {
        None
    }
}

proof fn lemma_up_to(s: Seq<char>, c: char, k: int)
    requires
        0 <= k <= s.len(),
        forall|i: int| 0 <= i < k ==> s[i] != c,
        k == s.len() || s[k] == c,
    ensures
        up_to(s, c) == s.take(k),
    decreases k,
{
    if k > 0 {
        lemma_up_to(s.skip(1), c, k - 1);
        assert(s.take(k) =~= seq![s[0]] + s.skip(1).take(k - 1));
    } else {
        assert(s.take(0) =~= seq![]);
    }
}

fn find_char(s: &str, c: char) -> (r: usize)
    ensures
        r <= s@.len(),
        up_to(s@, c) == s@.take(r as int),
        up_to(s@, c).len() == r,
{
    let cs = chars_of(s);
    let mut i: usize = 0;
    while i < cs.len() && cs[i] != c
        invariant
            i <= cs.len(),
            cs@ == s@,
            forall|k: int| 0 <= k < i ==> s@[k] != c,
        decreases cs.len() - i,
    {
        i += 1;
    }
    proof {
        lemma_up_to(s@, c, i as int);
    }
    i
}

/// Cuts a text before the first `c`.
pub fn before_char(s: &str, c: char) -> (r: &str)
    ensures
        r@ == up_to(s@, c),
{
    let n: usize = find_char(s, c);
    assert(s@.subrange(0, n as int) =~= s@.take(n as int));
    s.substring_char(0, n)
}

/// Cuts a text after the first `c`, if there is one.
pub fn after_char(s: &str, c: char) -> (r: Option<&str>)
    ensures
        match r {
            Some(t) => after(s@, c) == Some(t@),
            None => after(s@, c) is None,
        },
{
    let n: usize = find_char(s, c);
    let len: usize = s.unicode_len();
    if n < len {
        assert(s@.subrange(n as int + 1, len as int) =~= s@.skip(n as int + 1));
        Some(s.substring_char(n + 1, len))
    } else {
        None
    }
}

/// The field number `k`, counted from 0, of a text whose fields `c` separates.
pub open spec fn field_at(s: Seq<char>, c: char, k: nat) -> Option<Seq<char>>
    decreases k,
{
    if k == 0 {
        Some(up_to(s, c))
    } else {
        match after(s, c) {
            Some(rest) => field_at(rest, c, (k - 1) as nat),
            None => None,
        }
    }
}

/// Picks the field number `k`, counted from 0, of a text whose fields `c` separates.
pub fn field(s: &str, c: char, k: usize) -> (r: Option<&str>)
    ensures
        match r {
            Some(t) => field_at(s@, c, k as nat) == Some(t@),
            None => field_at(s@, c, k as nat) is None,
        },
    decreases k,
{
    if k == 0 {
        Some(before_char(s, c))
    } else {
        match after_char(s, c) {
            Some(rest) => field(rest, c, k - 1),
            None => None,
        }
    }
}

/// The last `n` characters of `s`, or all of it if it is shorter.
pub open spec fn last_chars(s: Seq<char>, n: nat) -> Seq<char> {
    if s.len() <= n {
        s
    } else {
        s.skip(s.len() - n)
    }
}

/// The last `n` characters of a text.
pub fn suffix(s: &str, n: usize) -> (r: &str)
    ensures
        r@ == last_chars(s@, n as nat),
{
    let len: usize = s.unicode_len();
    if len <= n {
        s
    } else {
        assert(s@.subrange(len - n, len as int) =~= s@.skip(len - n));
        s.substring_char(len - n, len)
    }
}

/// The first of `ls` that starts with `head`.
pub open spec fn line_with(ls: Seq<Seq<char>>, head: Seq<char>) -> Option<Seq<char>>
    decreases ls.len(),
{
    if ls.len() == 0 {
        None
    } else if head.is_prefix_of(ls[0]) {
        Some(ls[0])
    } else {
        line_with(ls.skip(1), head)
    }
}

/// Finds the first line of a text that starts with `head`.
pub fn find_line(s: &str, head: &str) -> (r: Option<String>)
    ensures
        opt_string(r) == line_with(lines_of(s@), head@),
{
    let ls = lines(s);
    let ghost all = texts(ls@);
    let mut i: usize = 0;
    assert(all.skip(0) =~= all);
    while i < ls.len()
        invariant
            i <= ls.len(),
            all == texts(ls@),
            all == lines_of(s@),
            line_with(all, head@) == line_with(all.skip(i as int), head@),
        decreases ls.len() - i,
    {
        assert(all.skip(i as int)[0] == ls@[i as int]@);
        assert(all.skip(i as int).skip(1) =~= all.skip(i as int + 1));
        if starts_with(ls[i].as_str(), head) {
            return Some(ls[i].clone());
        }
        i += 1;
    }
    None
}

proof fn lemma_trim_start_core(s: Seq<char>)
    ensures
        trim_start(s).len() <= s.len(),
        trim_start(s) == s.skip(s.len() - trim_start(s).len()),
        forall|i: int| 0 <= i < s.len() - trim_start(s).len() ==> is_white(#[trigger] s[i]),
    decreases s.len(),
{
    if s.len() > 0 && is_white(s.first()) {
        let t = s.drop_first();
        lemma_trim_start_core(t);
        assert(trim_start(s) =~= s.skip(s.len() - trim_start(s).len()));
        assert forall|i: int| 0 <= i < s.len() - trim_start(s).len() implies is_white(
            #[trigger] s[i],
        ) by {
            if i > 0 {
                assert(s[i] == t[i - 1]);
            }
        }
    } else {
        assert(s =~= s.skip(0));
    }
}

proof fn lemma_trim_end_core(s: Seq<char>)
    ensures
        trim_end(s).len() <= s.len(),
        trim_end(s) == s.take(trim_end(s).len() as int),
        forall|i: int| trim_end(s).len() <= i < s.len() ==> is_white(#[trigger] s[i]),
    decreases s.len(),
{
    if s.len() > 0 && is_white(s.last()) {
        let t = s.drop_last();
        lemma_trim_end_core(t);
        assert(trim_end(s) =~= s.take(trim_end(s).len() as int));
        assert forall|i: int| trim_end(s).len() <= i < s.len() implies is_white(#[trigger] s[i]) by {
            if i < t.len() {
                assert(s[i] == t[i]);
            }
        }
    } else {
        assert(s =~= s.take(s.len() as int));
    }
}

/// Trimming takes white space from both ends and nothing else: what is left stands in the text in
/// one piece, and all before and after it is white space.
pub proof fn trimming_only_takes_white_space(s: Seq<char>)
    ensures
        exists|i: int, j: int|
            #![trigger s.subrange(i, j)]
            0 <= i <= j <= s.len() && trimmed(s) == s.subrange(i, j) && (forall|k: int|
                0 <= k < i || j <= k < s.len() ==> is_white(#[trigger] s[k])),
{
    let t = trim_start(s);
    let i = s.len() - t.len();
    let j = i + trimmed(s).len();
    lemma_trim_start_core(s);
    lemma_trim_end_core(t);
    assert(trimmed(s) =~= s.subrange(i, j));
    assert forall|k: int| 0 <= k < i || j <= k < s.len() implies is_white(#[trigger] s[k]) by {
        if k >= j {
            assert(s[k] == t[k - i]);
        }
    }
}

/// White space that is put around a text is taken away again, and a text without white space at its
/// ends stays as it is.
pub proof fn trimming_undoes_padding(before: Seq<char>, s: Seq<char>, behind: Seq<char>)
    requires
        forall|i: int| 0 <= i < before.len() ==> is_white(#[trigger] before[i]),
        forall|i: int| 0 <= i < behind.len() ==> is_white(#[trigger] behind[i]),
    ensures
        s.len() > 0 && !is_white(s[0]) && !is_white(s.last()) ==> trimmed(before + s + behind) == s,
        s.len() == 0 ==> trimmed(before + s + behind) == s,
    decreases before.len() + behind.len(),
{
    let all = before + s + behind;
    if before.len() > 0 {
        assert(all.first() == before[0]);
        let less = before.drop_first();
        assert forall|i: int| 0 <= i < less.len() implies is_white(#[trigger] less[i]) by {
            assert(less[i] == before[i + 1]);
        }
        assert(all.drop_first() =~= less + s + behind);
        trimming_undoes_padding(less, s, behind);
    } else if s.len() > 0 && !is_white(s[0]) && !is_white(s.last()) {
        assert(all =~= s + behind);
        assert(trim_start(all) == all);
        if behind.len() > 0 {
            let less = behind.drop_last();
            assert forall|i: int| 0 <= i < less.len() implies is_white(#[trigger] less[i]) by {
                assert(less[i] == behind[i]);
            }
            assert(all.last() == behind.last());
            assert(all.drop_last() =~= before + s + less);
            trimming_undoes_padding(before, s, less);
            assert(trim_start(before + s + less) == before + s + less) by {
                assert((before + s + less).first() == s[0]);
            }
        } else {
            assert(all =~= s);
        }
    } else if s.len() == 0 {
        assert(all =~= behind);
        if behind.len() > 0 {
            let less = behind.drop_first();
            assert forall|i: int| 0 <= i < less.len() implies is_white(#[trigger] less[i]) by {
                assert(less[i] == behind[i + 1]);
            }
            assert(all.drop_first() =~= before + s + less);
            trimming_undoes_padding(before, s, less);
        } else {
            assert(all =~= s);
        }
    }
}

/// Of the ASCII characters exactly the space and those from the tab to the carriage return are white
/// space; of the others the spaces that East Asian and European texts use are, and no letter is.
pub proof fn white_space_is_what_parts_words(c: char)
    ensures
        (c as u32) < 0x80 ==> (is_white(c) <==> c == ' ' || ('\t' <= c && c <= '\r')),
        c == '\u{3000}' || c == '\u{a0}' || c == '\u{2009}' ==> is_white(c),
        (c as u32) > 0x3000 ==> !is_white(c),
        0xc0 <= (c as u32) < 0x1680 ==> !is_white(c),
{
}

/// Case does not matter once it is taken away: small and large letters meet, doing it twice is doing
/// it once, and whatever is no ASCII letter stays.
pub proof fn case_is_taken_away(s: Seq<char>, i: int)
    requires
        0 <= i < s.len(),
    ensures
        lowered(s).len() == s.len(),
        uppered(s).len() == s.len(),
        lowered(uppered(s)) == lowered(s),
        uppered(lowered(s)) == uppered(s),
        lowered(lowered(s)) == lowered(s),
        uppered(uppered(s)) == uppered(s),
        'A' <= s[i] && s[i] <= 'Z' ==> 'a' <= lowered(s)[i] && lowered(s)[i] <= 'z' && lowered(
            s,
        )[i] as u32 - 'a' as u32 == s[i] as u32 - 'A' as u32 && uppered(s)[i] == s[i],
        'a' <= s[i] && s[i] <= 'z' ==> 'A' <= uppered(s)[i] && uppered(s)[i] <= 'Z' && uppered(
            s,
        )[i] as u32 - 'A' as u32 == s[i] as u32 - 'a' as u32 && lowered(s)[i] == s[i],
        !('A' <= s[i] && s[i] <= 'Z') && !('a' <= s[i] && s[i] <= 'z') ==> lowered(s)[i] == s[i]
            && uppered(s)[i] == s[i],
{
    assert(lowered(uppered(s)) =~= lowered(s));
    assert(uppered(lowered(s)) =~= uppered(s));
    assert(lowered(lowered(s)) =~= lowered(s));
    assert(uppered(uppered(s)) =~= uppered(s));
}

/// The first and the last characters of a text are its beginning and its end: as many as asked for,
/// or all.
pub proof fn ends_are_cut_out(s: Seq<char>, n: nat)
    ensures
        first_chars(s, n).is_prefix_of(s),
        last_chars(s, n).is_suffix_of(s),
        first_chars(s, n).len() == if n < s.len() {
            n
        } else {
            s.len()
        },
        last_chars(s, n).len() == first_chars(s, n).len(),
{
    assert(s.take(s.len() as int) =~= s);
    assert(s.skip(0) =~= s);
}

/// Lines are what line feeds part: a text with a line feed in it has the lines of what stands before
/// it and of what stands after it, and a text without one is a line itself. A carriage return before
/// a line feed belongs to neither line.
pub proof fn line_feeds_part_lines(line: Seq<char>, rest: Seq<char>)
    requires
        forall|i: int| 0 <= i < line.len() ==> line[i] != '\n',
    ensures
        lines_of(Seq::<char>::empty()).len() == 0,
        line.len() > 0 ==> lines_of(line) == seq![line],
        lines_of(line.push('\r').push('\n') + rest) == seq![line] + lines_of(rest),
        line.len() == 0 || line.last() != '\r' ==> lines_of(line.push('\n') + rest) == seq![line]
            + lines_of(rest),
{
    let n = line.len();
    if n > 0 {
        lemma_line_len(line, n);
    }
    let plain = line.push('\n') + rest;
    lemma_line_len(plain, n);
    assert(plain.take(n as int) =~= line);
    assert(plain.skip(n as int + 1) =~= rest);
    let dos = line.push('\r').push('\n') + rest;
    lemma_line_len(dos, n + 1);
    assert(dos.take(n as int + 1) =~= line.push('\r'));
    assert(line.push('\r').drop_last() =~= line);
    assert(dos.skip(n as int + 2) =~= rest);
}

/// Words are what white space parts: a run without white space is one word, and white space at the
/// front, or after a word, only parts.
pub proof fn white_space_parts_words(word: Seq<char>, white: char, rest: Seq<char>)
    requires
        forall|i: int| 0 <= i < word.len() ==> !is_white(#[trigger] word[i]),
        is_white(white),
    ensures
        words_of(Seq::<char>::empty()).len() == 0,
        words_of(seq![white] + rest) == words_of(rest),
        word.len() > 0 ==> words_of(word) == seq![word],
        word.len() > 0 ==> words_of(word.push(white) + rest) == seq![word] + words_of(rest),
{
    let spaced = seq![white] + rest;
    assert(spaced.drop_first() =~= rest);
    assert(trim_start(spaced) == trim_start(rest));
    let n = word.len();
    if n > 0 {
        assert(word.first() == word[0]);
        lemma_word_len(word, n);
        assert(trim_start(word) == word);
        assert(word.take(n as int) =~= word);
        assert(word.skip(n as int) =~= Seq::<char>::empty());
        assert(words_of(Seq::<char>::empty()) =~= Seq::<Seq<char>>::empty());
        assert(words_of(word) =~= seq![word]);
        let all = word.push(white) + rest;
        assert(all.first() == word[0]);
        assert forall|i: int| 0 <= i < n implies !is_white(#[trigger] all[i]) by {
            assert(all[i] == word[i]);
        }
        assert(all[n as int] == white);
        lemma_word_len(all, n);
        assert(trim_start(all) == all);
        assert(all.take(n as int) =~= word);
        assert(all.skip(n as int) =~= spaced);
    }
}

/// Joining puts the separator between neighbours and nowhere else: two runs of parts are joined as
/// their texts with one separator between them.
pub proof fn joining_parts_neighbours(a: Seq<Seq<char>>, b: Seq<Seq<char>>, sep: Seq<char>, part: Seq<char>)
    requires
        a.len() > 0,
        b.len() > 0,
    ensures
        joined(Seq::empty(), sep).len() == 0,
        joined(seq![part], sep) == part,
        joined(a + b, sep) == joined(a, sep) + sep + joined(b, sep),
    decreases b.len(),
{
    let all = a + b;
    assert(all.last() == b.last());
    if b.len() == 1 {
        assert(all.drop_last() =~= a);
    } else {
        joining_parts_neighbours(a, b.drop_last(), sep, part);
        assert(all.drop_last() =~= a + b.drop_last());
        assert(joined(a, sep) + sep + joined(b.drop_last(), sep) + sep + b.last() =~= joined(a, sep)
            + sep + (joined(b.drop_last(), sep) + sep + b.last()));
    }
}

proof fn lemma_decimal(n: nat)
    ensures
        decimal(n).len() > 0,
        forall|i: int| 0 <= i < decimal(n).len() ==> is_digit(#[trigger] decimal(n)[i]),
        digits_value(decimal(n)) == n,
        n > 0 ==> decimal(n)[0] != '0',
    decreases n,
{
    let d = decimal(n);
    if n < 10 {
        assert(d.drop_last() =~= Seq::<char>::empty());
        assert(digits_value(d.drop_last()) == 0);
        assert(d.last() == digit(n));
    } else {
        lemma_decimal(n / 10);
        assert(d.drop_last() =~= decimal(n / 10));
        assert(d.last() == digit(n % 10));
        assert(d[0] == decimal(n / 10)[0]);
        assert forall|i: int| 0 <= i < d.len() implies is_digit(#[trigger] d[i]) by {
            if i < d.len() - 1 {
                assert(d[i] == decimal(n / 10)[i]);
            }
        }
    }
}

proof fn lemma_leading_zeros(zeros: Seq<char>, d: Seq<char>)
    requires
        forall|i: int| 0 <= i < zeros.len() ==> #[trigger] zeros[i] == '0',
    ensures
        digits_value(zeros + d) == digits_value(d),
    decreases zeros.len() + d.len(),
{
    let all = zeros + d;
    if d.len() > 0 {
        assert(all.drop_last() =~= zeros + d.drop_last());
        assert(all.last() == d.last());
        lemma_leading_zeros(zeros, d.drop_last());
    } else if zeros.len() > 0 {
        assert(all =~= zeros);
        assert(all.drop_last() =~= zeros.drop_last() + d);
        assert forall|i: int| 0 <= i < zeros.drop_last().len() implies #[trigger] zeros.drop_last()[i]
            == '0' by {
            assert(zeros.drop_last()[i] == zeros[i]);
        }
        lemma_leading_zeros(zeros.drop_last(), d);
    } else {
        assert(all =~= d);
    }
}

/// A number is read back as it was written, with zeros or a plus sign in front too, unless it exceeds
/// what is allowed. Written, it has no needless zero in front, and only digits.
pub proof fn numbers_read_back(n: nat, max: nat, zeros: Seq<char>)
    requires
        forall|i: int| 0 <= i < zeros.len() ==> #[trigger] zeros[i] == '0',
    ensures
        unsigned_value(decimal(n), max) == if n <= max {
            Some(n)
        } else {
            None
        },
        unsigned_value(zeros + decimal(n), max) == unsigned_value(decimal(n), max),
        unsigned_value(seq!['+'] + zeros + decimal(n), max) == unsigned_value(decimal(n), max),
        n > 0 ==> decimal(n)[0] != '0',
        forall|i: int| 0 <= i < decimal(n).len() ==> '0' <= #[trigger] decimal(n)[i] && decimal(
            n,
        )[i] <= '9',
{
    lemma_decimal(n);
    lemma_leading_zeros(zeros, decimal(n));
    let d = decimal(n);
    let long = zeros + d;
    assert(d.first() == d[0]);
    assert(is_digit(d[0]));
    assert(unsigned_digits(d) == d);
    assert forall|i: int| 0 <= i < long.len() implies is_digit(#[trigger] long[i]) by {
        if i < zeros.len() {
            assert(long[i] == zeros[i]);
        } else {
            assert(long[i] == d[i - zeros.len()]);
        }
    }
    assert(is_digit(long[0]));
    assert(unsigned_digits(long) == long);
    let signed = seq!['+'] + zeros + d;
    assert(signed.first() == '+');
    assert(signed.drop_first() =~= long);
}

/// What is no number is not read as one: nothing, a sign alone, or anything with a character that is
/// no digit, a plus sign in front apart. Each digit counts ten times what it counts one place later.
pub proof fn only_digits_make_numbers(s: Seq<char>, i: int, d: char, max: nat)
    ensures
        unsigned_value(Seq::<char>::empty(), max) is None,
        unsigned_value(seq!['+'], max) is None,
        '0' <= d && d <= '9' && max >= 9 ==> unsigned_value(seq![d], max) == Some(
            (d as nat - '0' as nat) as nat,
        ),
        0 <= i < s.len() && !('0' <= s[i] && s[i] <= '9') && (i > 0 || s[i] != '+')
            ==> unsigned_value(s, max) is None,
        '0' <= d && d <= '9' && unsigned_value(s, max) is Some ==> unsigned_value(s.push(d), max)
            == {
            let n = 10 * unsigned_value(s, max)->Some_0 + (d as nat - '0' as nat) as nat;
            if n <= max {
                Some(n)
            } else {
                None
            }
        },
{
    assert(seq!['+'].drop_first() =~= Seq::<char>::empty());
    assert(seq![d].drop_last() =~= Seq::<char>::empty());
    assert(digits_value(Seq::<char>::empty()) == 0);
    let u = unsigned_digits(s);
    if 0 <= i < s.len() && !('0' <= s[i] && s[i] <= '9') && (i > 0 || s[i] != '+') {
        if s.first() == '+' {
            assert(u[i - 1] == s[i]);
            assert(!is_digit(u[i - 1]));
        } else {
            assert(!is_digit(u[i]));
        }
    }
    if '0' <= d && d <= '9' && unsigned_value(s, max) is Some {
        let t = s.push(d);
        let v = unsigned_digits(t);
        assert(t.first() == s.first());
        assert(v =~= u.push(d));
        assert(v.drop_last() =~= u);
        assert forall|k: int| 0 <= k < v.len() implies is_digit(#[trigger] v[k]) by {
            if k < u.len() {
                assert(v[k] == u[k]);
            }
        }
    }
}

/// A path below a directory starts with the directory and ends with the rest, with exactly one slash
/// between them; without a directory it is the rest.
pub proof fn paths_are_joined(dir: Seq<char>, rel: Seq<char>)
    ensures
        dir.is_prefix_of(below(dir, rel)),
        rel.is_suffix_of(below(dir, rel)),
        below(Seq::empty(), rel) == rel,
        dir.len() > 0 ==> below(dir, rel)[below(dir, rel).len() - rel.len() - 1] == '/',
        dir.len() > 0 && dir.last() == '/' ==> below(dir, rel).len() == dir.len() + rel.len(),
        dir.len() > 0 && dir.last() != '/' ==> below(dir, rel) == below(dir.push('/'), rel)
            && below(dir, rel).len() == dir.len() + rel.len() + 1,
{
    let all = below(dir, rel);
    assert(all.take(dir.len() as int) =~= dir);
    assert(all.skip(all.len() - rel.len()) =~= rel);
}

/// On one line every line feed is a space, and all else is as it was.
pub proof fn one_line_keeps_the_rest(s: Seq<char>, i: int)
    requires
        0 <= i < s.len(),
    ensures
        on_one_line(s).len() == s.len(),
        on_one_line(s)[i] != '\n',
        s[i] == '\n' ==> on_one_line(s)[i] == ' ',
        s[i] != '\n' ==> on_one_line(s)[i] == s[i],
{
}

/// Exactly the characters `a` and `b` at the end are removed: what is left is a beginning of the text
/// that does not end with one of them, and all behind it is one of them.
pub proof fn ends_are_removed(s: Seq<char>, a: char, b: char)
    ensures
        without_end(s, a, b).is_prefix_of(s),
        without_end(s, a, b).len() > 0 ==> without_end(s, a, b).last() != a && without_end(
            s,
            a,
            b,
        ).last() != b,
        forall|i: int|
            without_end(s, a, b).len() <= i < s.len() ==> #[trigger] s[i] == a || s[i] == b,
    decreases s.len(),
{
    if s.len() > 0 && (s.last() == a || s.last() == b) {
        let t = s.drop_last();
        ends_are_removed(t, a, b);
        assert forall|i: int| without_end(s, a, b).len() <= i < s.len() implies #[trigger] s[i] == a
            || s[i] == b by {
            if i < t.len() {
                assert(s[i] == t[i]);
            }
        }
    }
}

/// A beginning is removed as often as it stands there, and nothing else is.
pub proof fn beginnings_are_removed(s: Seq<char>, pat: Seq<char>)
    ensures
        pat.len() > 0 ==> without_starts(pat + s, pat) == without_starts(s, pat),
        !pat.is_prefix_of(s) ==> without_starts(s, pat) == s,
        pat.len() == 0 ==> without_starts(s, pat) == s,
{
    assert((pat + s).take(pat.len() as int) =~= pat);
    assert((pat + s).skip(pat.len() as int) =~= s);
}

/// A text is cut at the first `c`: what stands before holds none, and together the two parts with `c`
/// between them are the text.
pub proof fn texts_are_cut_at_the_first(head: Seq<char>, c: char, tail: Seq<char>)
    requires
        forall|i: int| 0 <= i < head.len() ==> head[i] != c,
    ensures
        up_to(head.push(c) + tail, c) == head,
        after(head.push(c) + tail, c) == Some(tail),
        up_to(head, c) == head,
        after(head, c) is None,
{
    let n = head.len() as int;
    let all = head.push(c) + tail;
    lemma_up_to(all, c, n);
    lemma_up_to(head, c, n);
    assert(all.take(n) =~= head);
    assert(head.take(n) =~= head);
    assert(all.skip(n + 1) =~= tail);
}

/// The fields of a text are the parts that were joined with the separator, in their order, and there
/// are no more.
pub proof fn fields_are_what_was_joined(parts: Seq<Seq<char>>, c: char, k: nat)
    requires
        parts.len() > 0,
        forall|i: int, j: int|
            0 <= i < parts.len() && 0 <= j < parts[i].len() ==> #[trigger] parts[i][j] != c,
    ensures
        field_at(joined(parts, seq![c]), c, k) == if k < parts.len() {
            Some(parts[k as int])
        } else {
            None
        },
    decreases k,
{
    let all = joined(parts, seq![c]);
    let first = parts[0];
    assert forall|j: int| 0 <= j < first.len() implies first[j] != c by {
        assert(parts[0][j] != c);
    }
    if parts.len() == 1 {
        texts_are_cut_at_the_first(first, c, seq![]);
    } else {
        let rest = parts.skip(1);
        joining_parts_neighbours(seq![first], rest, seq![c], first);
        assert(seq![first] + rest =~= parts);
        assert(first + seq![c] + joined(rest, seq![c]) =~= first.push(c) + joined(rest, seq![c]));
        texts_are_cut_at_the_first(first, c, joined(rest, seq![c]));
        assert forall|i: int, j: int| 0 <= i < rest.len() && 0 <= j < rest[i].len() implies
            #[trigger] rest[i][j] != c by {
            assert(rest[i][j] == parts[i + 1][j]);
        }
        if k > 0 {
            fields_are_what_was_joined(rest, c, (k - 1) as nat);
        }
    }
}

/// The line that is found is the first that starts as asked for; lines before it do not matter, and
/// lines after it neither.
pub proof fn the_first_such_line_is_found(
    before: Seq<Seq<char>>,
    line: Seq<char>,
    behind: Seq<Seq<char>>,
    head: Seq<char>,
)
    requires
        forall|i: int| 0 <= i < before.len() ==> !head.is_prefix_of(#[trigger] before[i]),
    ensures
        head.is_prefix_of(line) ==> line_with(before.push(line) + behind, head) == Some(line),
        line_with(before, head) is None,
    decreases before.len(),
{
    let all = before.push(line) + behind;
    if before.len() > 0 {
        assert(all[0] == before[0]);
        assert(all.skip(1) =~= before.skip(1).push(line) + behind);
        assert forall|i: int| 0 <= i < before.skip(1).len() implies !head.is_prefix_of(
            #[trigger] before.skip(1)[i],
        ) by {
            assert(before.skip(1)[i] == before[i + 1]);
        }
        the_first_such_line_is_found(before.skip(1), line, behind, head);
    } else {
        assert(all[0] == line);
    }
}

/// The number that is found is the first word that is one.
pub proof fn the_first_number_is_found(
    before: Seq<Seq<char>>,
    n: nat,
    behind: Seq<Seq<char>>,
    max: nat,
)
    requires
        n <= max,
        forall|i: int| 0 <= i < before.len() ==> unsigned_value(#[trigger] before[i], max) is None,
    ensures
        first_number_in(before.push(decimal(n)) + behind, max) == Some(n),
        first_number_in(before, max) is None,
    decreases before.len(),
{
    let all = before.push(decimal(n)) + behind;
    numbers_read_back(n, max, seq![]);
    if before.len() > 0 {
        assert(all[0] == before[0]);
        assert(all.skip(1) =~= before.skip(1).push(decimal(n)) + behind);
        assert forall|i: int| 0 <= i < before.skip(1).len() implies unsigned_value(
            #[trigger] before.skip(1)[i],
            max,
        ) is None by {
            assert(before.skip(1)[i] == before[i + 1]);
        }
        the_first_number_is_found(before.skip(1), n, behind, max);
    } else {
        assert(all[0] == decimal(n));
    }
}

/// Exactly these characters are white space: those from the tab to the carriage return, the spaces of every
/// width, and the separators of lines and paragraphs.
pub proof fn white_space_is_this(c: char)
    ensures
        is_white(c) <==> seq![
            '\t',
            '\n',
            '\u{b}',
            '\u{c}',
            '\r',
            ' ',
            '\u{85}',
            '\u{a0}',
            '\u{1680}',
            '\u{2000}',
            '\u{2001}',
            '\u{2002}',
            '\u{2003}',
            '\u{2004}',
            '\u{2005}',
            '\u{2006}',
            '\u{2007}',
            '\u{2008}',
            '\u{2009}',
            '\u{200a}',
            '\u{2028}',
            '\u{2029}',
            '\u{202f}',
            '\u{205f}',
            '\u{3000}',
        ].contains(c),
{
    let all = seq![
        '\t',
        '\n',
        '\u{b}',
        '\u{c}',
        '\r',
        ' ',
        '\u{85}',
        '\u{a0}',
        '\u{1680}',
        '\u{2000}',
        '\u{2001}',
        '\u{2002}',
        '\u{2003}',
        '\u{2004}',
        '\u{2005}',
        '\u{2006}',
        '\u{2007}',
        '\u{2008}',
        '\u{2009}',
        '\u{200a}',
        '\u{2028}',
        '\u{2029}',
        '\u{202f}',
        '\u{205f}',
        '\u{3000}',
    ];
    if is_white(c) {
        let n = c as int;
        let i: int = if n <= 13 {
            n - 9
        } else if n == 32 {
            5
        } else if n == 0x85 {
            6
        } else if n == 0xa0 {
            7
        } else if n == 0x1680 {
            8
        } else if n <= 0x200a {
            n - 0x2000 + 9
        } else if n == 0x2028 {
            20
        } else if n == 0x2029 {
            21
        } else if n == 0x202f {
            22
        } else if n == 0x205f {
            23
        } else {
            24
        };
        assert(all[i] == c);
    }
}

} // verus!
