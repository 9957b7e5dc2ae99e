//! Recognised text on its way to the screen: how alike two guesses are, when a provisional guess
//! may be shown, which of two recognisers has the last word, and how phrases are joined.

use crate::text;
use vstd::multiset::Multiset;
use vstd::prelude::*;

verus! {

/// The pairs of neighbouring characters of `s`; a single character is paired with `'\0'`.
pub open spec fn bigrams(s: Seq<char>) -> Seq<(char, char)> {
    if s.len() == 0 {
        seq![]
    } else if s.len() == 1 {
        seq![(s[0], '\0')]
    } else {
        Seq::new((s.len() - 1) as nat, |i: int| (s[i], s[i + 1]))
    }
}

/// How many pairs `a` and `b` have in common, each counted as often as both have it.
pub open spec fn shared(a: Seq<(char, char)>, b: Seq<(char, char)>) -> nat {
    a.to_multiset().intersection_with(b.to_multiset()).len()
}

/// The likeness of two texts as a fraction: twice the shared pairs over all pairs.
/// Two empty texts are alike, an empty and a non-empty one are not.
pub open spec fn likeness(a: Seq<char>, b: Seq<char>) -> (int, int) {
    if a.len() == 0 && b.len() == 0 {
        (1, 1)
    } else if a.len() == 0 || b.len() == 0 {
        (0, 1)
    } else {
        (2 * shared(bigrams(a), bigrams(b)) as int, (bigrams(a).len() + bigrams(b).len()) as int)
    }
}

/// Whether the likeness of `a` and `b` is at least `percent` hundredths.
pub open spec fn alike(a: Seq<char>, b: Seq<char>, percent: int) -> bool {
    100 * likeness(a, b).0 >= percent * likeness(a, b).1
}

/// A likeness `num / den`.
#[derive(Clone, Copy, Debug, PartialEq, Eq, Structural)]
pub struct Similarity {
    pub num: u128,
    pub den: u128,
}

fn pairs_of(s: &Vec<char>) -> (r: Vec<(char, char)>)
    ensures
        r@ == bigrams(s@),
{
    let mut out: Vec<(char, char)> = Vec::new();
    if s.len() == 1 {
        out.push((s[0], '\0'));
        return out;
    }
    let mut i: usize = 1;
    while i < s.len()
        invariant
            s.len() != 1,
            1 <= i,
            i <= s.len() || s.len() == 0,
            s.len() == 0 ==> out.len() == 0,
            s.len() > 0 ==> out.len() == i - 1,
            forall|k: int| 0 <= k < out.len() ==> out@[k] == (s@[k], #[trigger] s@[k + 1]),
        decreases s.len() - i,
    {
        out.push((s[i - 1], s[i]));
        i += 1;
    }
    proof {
        assert(out@ =~= bigrams(s@));
    }
    out
}

/// Where `p` first stands in `v`.
fn find_pair(v: &Vec<(char, char)>, p: (char, char)) -> (r: Option<usize>)
    ensures
        match r {
            Some(i) => i < v.len() && v@[i as int] == p,
            None => !v@.contains(p),
        },
{
    let mut i: usize = 0;
    while i < v.len()
        invariant
            i <= v.len(),
            forall|k: int| 0 <= k < i ==> v@[k] != p,
        decreases v.len() - i,
    {
        if v[i].0 == p.0 && v[i].1 == p.1 {
            return Some(i);
        }
        i += 1;
    }
    None
}

/// Pushing `p` onto `a` adds one to what it shares with `b` if `b` has a `p` left over.
proof fn lemma_shared_push(a: Seq<(char, char)>, b: Seq<(char, char)>, p: (char, char))
    ensures
        ({
            let ma = a.to_multiset();
            let mb = b.to_multiset();
            let now = a.push(p).to_multiset().intersection_with(mb);
            let was = ma.intersection_with(mb);
            if mb.count(p) > ma.count(p) {
                now == was.insert(p) && now.len() == was.len() + 1
            } else {
                now == was
            }
        }),
{
    broadcast use vstd::seq_lib::group_to_multiset_ensures;
    broadcast use vstd::multiset::group_multiset_axioms;
    broadcast use vstd::multiset::group_multiset_properties;

    let ma = a.to_multiset();
    let mb = b.to_multiset();
    let now = a.push(p).to_multiset().intersection_with(mb);
    let was = ma.intersection_with(mb);
    assert(a.push(p).to_multiset() =~= ma.insert(p));
    if mb.count(p) > ma.count(p) {
        assert(now =~= was.insert(p));
    } else {
        assert(now =~= was);
    }
}

/// How much of `a` also occurs in `b`.
fn count_shared(a: &Vec<(char, char)>, b: &Vec<(char, char)>) -> (r: usize)
    ensures
        r == shared(a@, b@),
        r <= a.len(),
{
    broadcast use vstd::seq_lib::group_to_multiset_ensures;
    broadcast use vstd::multiset::group_multiset_axioms;
    broadcast use vstd::multiset::group_multiset_properties;

    let mut left: Vec<(char, char)> = Vec::new();
    let mut k: usize = 0;
    while k < b.len()
        invariant
            k <= b.len(),
            left@ == b@.take(k as int),
        decreases b.len() - k,
    {
        left.push(b[k]);
        assert(b@.take(k as int + 1) =~= b@.take(k as int).push(b@[k as int]));
        k += 1;
    }
    assert(b@.take(b.len() as int) =~= b@);
    assert(a@.take(0) =~= Seq::empty());
    assert(a@.take(0).to_multiset() =~= Multiset::empty());
    assert(a@.take(0).to_multiset().intersection_with(b@.to_multiset()) =~= Multiset::empty());
    assert(b@.to_multiset().sub(Multiset::<(char, char)>::empty()) =~= b@.to_multiset());
    let mut n: usize = 0;
    let mut i: usize = 0;
    while i < a.len()
        invariant
            i <= a.len(),
            n <= i,
            n == shared(a@.take(i as int), b@),
            left@.to_multiset() == b@.to_multiset().sub(
                a@.take(i as int).to_multiset().intersection_with(b@.to_multiset()),
            ),
        decreases a.len() - i,
    {
        let p = a[i];
        broadcast use vstd::seq_lib::group_to_multiset_ensures;
        broadcast use vstd::multiset::group_multiset_axioms;
        broadcast use vstd::multiset::group_multiset_properties;

        proof {
            lemma_shared_push(a@.take(i as int), b@, p);
            assert(a@.take(i as int + 1) =~= a@.take(i as int).push(p));
        }
        let ghost was = a@.take(i as int).to_multiset().intersection_with(b@.to_multiset());
        let ghost held = left@;
        match find_pair(&left, p) {
            Some(j) => {
                assert(held.contains(p));
                assert(held.to_multiset().count(p) > 0);
                left.remove(j);
                n += 1;
                assert(left@ == held.remove(j as int));
                assert(left@.to_multiset() =~= held.to_multiset().remove(p));
                assert(left@.to_multiset() =~= b@.to_multiset().sub(was.insert(p)));
            },
            None => {
                assert(held.to_multiset().count(p) == 0);
            },
        }
        i += 1;
    }
    assert(a@.take(a.len() as int) =~= a@);
    n
}

/// How alike two texts are.
pub fn char_similarity(a: &str, b: &str) -> (r: Similarity)
    ensures
        (r.num as int, r.den as int) == likeness(a@, b@),
        r.den > 0,
        r.num <= u64::MAX * 2,
        r.den <= u64::MAX * 2,
{
    let ac = text::chars_of(a);
    let bc = text::chars_of(b);
    if ac.len() == 0 && bc.len() == 0 {
        return Similarity { num: 1, den: 1 };
    }
    if ac.len() == 0 || bc.len() == 0 {
        return Similarity { num: 0, den: 1 };
    }
    let pa = pairs_of(&ac);
    let pb = pairs_of(&bc);
    let n: usize = count_shared(&pa, &pb);
    Similarity { num: 2 * (n as u128), den: pa.len() as u128 + pb.len() as u128 }
}

/// Whether two texts are alike to at least `percent` hundredths.
pub fn is_alike(a: &str, b: &str, percent: u8) -> (r: bool)
    ensures
        r == alike(a@, b@, percent as int),
{
    let s = char_similarity(a, b);
    assert(percent as int * s.den as int <= 255 * s.den as int) by (nonlinear_arith)
        requires
            percent <= 255,
    ;
    100 * s.num >= (percent as u128) * s.den
}

/// What two texts share does not depend on which is named first.
proof fn lemma_shared_symmetric(a: Seq<(char, char)>, b: Seq<(char, char)>)
    ensures
        shared(a, b) == shared(b, a),
{
    broadcast use vstd::multiset::group_multiset_axioms;
    broadcast use vstd::multiset::group_multiset_properties;

    assert(a.to_multiset().intersection_with(b.to_multiset()) =~= b.to_multiset().intersection_with(
        a.to_multiset(),
    ));
}

/// No more is shared than there is.
proof fn lemma_shared_bound(a: Seq<(char, char)>, b: Seq<(char, char)>)
    ensures
        shared(a, b) <= a.len(),
    decreases a.len(),
{
    broadcast use vstd::seq_lib::group_to_multiset_ensures;
    broadcast use vstd::multiset::group_multiset_axioms;
    broadcast use vstd::multiset::group_multiset_properties;

    if a.len() == 0 {
        assert(a.to_multiset() =~= Multiset::empty());
        assert(a.to_multiset().intersection_with(b.to_multiset()) =~= Multiset::empty());
    } else {
        lemma_shared_bound(a.drop_last(), b);
        lemma_shared_push(a.drop_last(), b, a.last());
        assert(a =~= a.drop_last().push(a.last()));
    }
}

/// Likeness is symmetric and lies between nothing and one, and a text is fully like itself.
pub proof fn likeness_is_a_measure(a: Seq<char>, b: Seq<char>)
    ensures
        likeness(a, b) == likeness(b, a),
        0 <= likeness(a, b).0 <= likeness(a, b).1,
        likeness(a, b).1 > 0,
        likeness(a, a).0 == likeness(a, a).1,
{
    broadcast use vstd::seq_lib::group_to_multiset_ensures;
    broadcast use vstd::multiset::group_multiset_axioms;
    broadcast use vstd::multiset::group_multiset_properties;

    let pa = bigrams(a);
    let pb = bigrams(b);
    lemma_shared_symmetric(pa, pb);
    lemma_shared_bound(pa, pb);
    lemma_shared_bound(pb, pa);
    assert(pa.to_multiset().intersection_with(pa.to_multiset()) =~= pa.to_multiset());
}

/// A shown guess, a differing guess that waits, and how often the waiting one was read in a row.
pub struct Preedit {
    pub shown: Seq<char>,
    pub pending: Seq<char>,
    pub hits: int,
}

/// The likeness, in hundredths, from which a rewrite is shown at once.
pub const SAME_GUESS_PERCENT: u8 = 65;

/// Whether `new` follows `shown` smoothly: a first guess, text that grows or shrinks as a prefix, or
/// a correction that leaves most of it standing.
pub open spec fn smooth(shown: Seq<char>, new: Seq<char>) -> bool {
    ||| shown.len() == 0
    ||| shown.is_prefix_of(new)
    ||| new.is_prefix_of(shown)
    ||| alike(shown, new, SAME_GUESS_PERCENT as int)
}

/// The state after a guess was put on screen.
pub open spec fn settled(new: Seq<char>) -> Preedit {
    Preedit { shown: new, pending: Seq::empty(), hits: 0 }
}

impl Preedit {
    /// What reading `raw` does, and what is to be shown, if anything. A read that says nothing new
    /// ends the wait of another guess, as that one is then not read in a row.
    pub open spec fn read(self, raw: Seq<char>) -> (Preedit, Option<Seq<char>>) {
        let new = text::trimmed(raw);
        let hits = if new == self.pending {
            if self.hits < 255 {
                self.hits + 1
            } else {
                255
            }
        } else {
            1
        };
        if new.len() == 0 || new == self.shown {
            (settled(self.shown), None)
        } else if smooth(self.shown, new) || hits >= 2 {
            (settled(new), Some(new))
        } else {
            (Preedit { shown: self.shown, pending: new, hits }, None)
        }
    }

    /// Between reads a guess waits if and only if it was read exactly once.
    pub open spec fn wf(self) -> bool {
        0 <= self.hits <= 1 && (self.hits == 0 <==> self.pending.len() == 0)
    }
}

fn replace_text(s: &mut String, new: &str)
    ensures
        final(s)@ == new@,
{
    *s = new.to_string();
}

/// Decides whether a guess is shown: at once if it follows what is shown smoothly, otherwise
/// when it has been read twice in a row.
pub fn preedit_update(
    shown: &mut String,
    pending: &mut String,
    pending_hits: &mut u8,
    new: &str,
) -> (r: Option<String>)
    ensures
        ({
            let was = Preedit { shown: old(shown)@, pending: old(pending)@, hits: *old(pending_hits) as int };
            let now = Preedit { shown: final(shown)@, pending: final(pending)@, hits: *final(pending_hits) as int };
            let (next, show) = was.read(new@);
            &&& now == next
            &&& match r {
                Some(t) => show == Some(t@),
                None => show is None,
            }
        }),
{
    let new = text::trim(new);
    if new.unicode_len() == 0 || text::same(new, shown.as_str()) {
        *pending = String::new();
        *pending_hits = 0;
        return None;
    }
    let is_smooth = shown.as_str().unicode_len() == 0 || text::starts_with(new, shown.as_str())
        || text::starts_with(shown.as_str(), new) || is_alike(
        shown.as_str(),
        new,
        SAME_GUESS_PERCENT,
    );
    if !is_smooth {
        if text::same(new, pending.as_str()) {
            if *pending_hits < 255 {
                *pending_hits = *pending_hits + 1;
            }
        } else {
            replace_text(pending, new);
            *pending_hits = 1;
        }
        if *pending_hits < 2 {
            return None;
        }
    }
    replace_text(shown, new);
    *pending = String::new();
    *pending_hits = 0;
    Some(new.to_string())
}

/// The state before anything was read, and every state that reading leads to, is well-formed.
pub proof fn preedit_stays_wf(p: Preedit, raw: Seq<char>)
    requires
        p.wf(),
    ensures
        p.read(raw).0.wf(),
        settled(Seq::empty()).wf(),
{
}

/// Text that grows or shrinks as a prefix is shown at once, whatever was waiting.
pub proof fn prefixes_are_shown(p: Preedit, raw: Seq<char>)
    requires
        p.shown.is_prefix_of(text::trimmed(raw)) || text::trimmed(raw).is_prefix_of(p.shown),
        p.shown != text::trimmed(raw),
        text::trimmed(raw).len() > 0,
    ensures
        p.read(raw) == (settled(text::trimmed(raw)), Some(text::trimmed(raw))),
{
}

/// A rewrite that shares little with what is shown is held back on the first read and shown on
/// the second one in a row; any other read in between that shows nothing starts the count anew, be
/// it a third guess, what is shown already, or nothing.
pub proof fn rewrite_needs_two_reads(p: Preedit, raw: Seq<char>, other: Seq<char>)
    requires
        p.wf(),
        text::trimmed(raw).len() > 0,
        text::trimmed(raw) != p.shown,
        !smooth(p.shown, text::trimmed(raw)),
        text::trimmed(raw) != p.pending,
        text::trimmed(other).len() == 0 || text::trimmed(other) == p.shown || !smooth(
            p.shown,
            text::trimmed(other),
        ),
        text::trimmed(other) != text::trimmed(raw),
    ensures
        p.read(raw).1 is None,
        p.read(raw).0.shown == p.shown,
        p.read(raw).0.read(raw) == (settled(text::trimmed(raw)), Some(text::trimmed(raw))),
        p.read(raw).0.read(other).1 is None,
        p.read(raw).0.read(other).0.read(raw).1 is None,
{
}

/// The longest provisional text that may stand in: one character for each sixth of a second
/// begun, never under four or over twenty-eight.
pub open spec fn fallback_chars(bytes: int, sample_rate: int) -> int {
    let six_secs = (3 * bytes + sample_rate - 1) / sample_rate;
    if six_secs < 4 {
        4
    } else if six_secs > 28 {
        28
    } else {
        six_secs
    }
}

/// Whether `zip` may stand in for an empty final of a segment of `bytes` bytes: the segment is at
/// most two and a half seconds long, and the text neither a stray character nor too long for it.
pub open spec fn may_stand_in(zip: Seq<char>, bytes: int, sample_rate: int) -> bool {
    &&& sample_rate > 0
    &&& bytes <= 5 * sample_rate
    &&& 2 <= zip.len() <= fallback_chars(bytes, sample_rate)
}

/// The text of a phrase: what the final recogniser heard, and only if that is empty a short
/// provisional text.
pub open spec fn dual_final(qwen: Seq<char>, zip: Seq<char>, bytes: int, sample_rate: int) -> Seq<
    char,
> {
    if text::trimmed(qwen).len() > 0 {
        text::trimmed(qwen)
    } else if may_stand_in(text::trimmed(zip), bytes, sample_rate) {
        text::trimmed(zip)
    } else {
        Seq::empty()
    }
}

/// Picks the text of a phrase of `bytes` bytes of 16-bit mono sound.
pub fn pick_dual_final(qwen: &str, zip: &str, bytes: usize, sample_rate: u32) -> (r: String)
    ensures
        r@ == dual_final(qwen@, zip@, bytes as int, sample_rate as int),
{
    let q = text::trim(qwen);
    if q.unicode_len() > 0 {
        return q.to_string();
    }
    let z = text::trim(zip);
    if sample_rate > 0 && bytes as u128 <= 5 * (sample_rate as u128) {
        let six_secs: u128 = (3 * (bytes as u128) + sample_rate as u128 - 1) / (sample_rate as u128);
        let most: u128 = if six_secs < 4 {
            4
        } else if six_secs > 28 {
            28
        } else {
            six_secs
        };
        let n: usize = z.unicode_len();
        if n >= 2 && n as u128 <= most {
            return z.to_string();
        }
    }
    String::new()
}

/// Text of the final recogniser always wins; nothing is made up where both heard nothing, and a
/// long take never falls back to provisional text.
pub proof fn final_recogniser_wins(qwen: Seq<char>, zip: Seq<char>, bytes: int, sample_rate: int)
    ensures
        text::trimmed(qwen).len() > 0 ==> dual_final(qwen, zip, bytes, sample_rate)
            == text::trimmed(qwen),
        dual_final(qwen, zip, bytes, sample_rate).len() > 0 ==> dual_final(
            qwen,
            zip,
            bytes,
            sample_rate,
        ) == text::trimmed(qwen) || dual_final(qwen, zip, bytes, sample_rate) == text::trimmed(zip),
        text::trimmed(qwen).len() == 0 && bytes > 5 * sample_rate ==> dual_final(
            qwen,
            zip,
            bytes,
            sample_rate,
        ).len() == 0,
{
}

/// Whether `c` is an ASCII letter or digit.
pub open spec fn is_word_char(c: char) -> bool {
    ('0' <= c && c <= '9') || ('a' <= c && c <= 'z') || ('A' <= c && c <= 'Z')
}

/// Whether a space has to stand between `a` and `b`.
pub open spec fn spaced(a: Seq<char>, b: Seq<char>) -> bool {
    a.len() > 0 && b.len() > 0 && is_word_char(a.last()) && is_word_char(b[0])
}

fn word_char(c: char) -> (r: bool)
    ensures
        r == is_word_char(c),
{
    ('0' <= c && c <= '9') || ('a' <= c && c <= 'z') || ('A' <= c && c <= 'Z')
}

/// Whether two texts would run into one word if joined.
pub fn needs_space_between(a: &str, b: &str) -> (r: bool)
    ensures
        r == spaced(a@, b@),
{
    let n: usize = a.unicode_len();
    if n == 0 || b.unicode_len() == 0 {
        return false;
    }
    word_char(a.get_char(n - 1)) && word_char(b.get_char(0))
}

/// `committed` followed by `piece`.
pub open spec fn appended(committed: Seq<char>, piece: Seq<char>) -> Seq<char> {
    if spaced(committed, piece) {
        committed.push(' ') + piece
    } else {
        committed + piece
    }
}

/// Adds a phrase to the text so far.
pub fn append_phrase(committed: &mut String, piece: &str)
    ensures
        final(committed)@ == appended(old(committed)@, piece@),
{
    if piece.unicode_len() == 0 {
        assert(committed@ + piece@ =~= committed@);
        return;
    }
    if needs_space_between(committed.as_str(), piece) {
        committed.push(' ');
    }
    committed.append(piece);
}

/// Appending keeps what stood before in front and the piece at the end, adds at most one space,
/// and never lets two words run together.
pub proof fn appending_keeps_both(committed: Seq<char>, piece: Seq<char>)
    ensures
        committed.is_prefix_of(appended(committed, piece)),
        piece.is_suffix_of(appended(committed, piece)),
        appended(committed, piece).len() <= committed.len() + piece.len() + 1,
        committed.len() > 0 && piece.len() > 0 && is_word_char(committed.last()) && is_word_char(
            piece[0],
        ) ==> appended(committed, piece)[committed.len() as int] == ' ',
        piece.len() == 0 ==> appended(committed, piece) == committed,
        committed.len() == 0 ==> appended(committed, piece) == piece,
{
    let all = appended(committed, piece);
    assert(all.take(committed.len() as int) =~= committed);
    assert(all.skip(all.len() - piece.len()) =~= piece);
    assert(piece.len() == 0 ==> all =~= committed);
    assert(committed.len() == 0 ==> all =~= piece);
}

/// `s`, cut to `max_chars` characters and an ellipsis if it is longer.
pub open spec fn shortened(s: Seq<char>, max_chars: nat) -> Seq<char> {
    if s.len() <= max_chars {
        s
    } else {
        s.take(max_chars as int).push('…')
    }
}

/// Shortens a text for a log line.
pub fn truncate_log(s: &str, max_chars: usize) -> (r: String)
    ensures
        r@ == shortened(s@, max_chars as nat),
{
    if s.unicode_len() <= max_chars {
        s.to_string()
    } else {
        let mut t = s.substring_char(0, max_chars).to_string();
        assert(s@.subrange(0, max_chars as int) =~= s@.take(max_chars as int));
        t.push('…');
        t
    }
}

/// A space stands between two phrases exactly where two ASCII letters or digits would run together;
/// otherwise they are joined as they are, as Chinese is written.
pub proof fn spaces_only_part_words(committed: Seq<char>, piece: Seq<char>)
    ensures
        ({
            let word = |c: char|
                ('0' <= c && c <= '9') || ('a' <= c && c <= 'z') || ('A' <= c && c <= 'Z');
            let meet = committed.len() > 0 && piece.len() > 0 && word(committed.last()) && word(
                piece[0],
            );
            &&& meet ==> appended(committed, piece) == committed + seq![' '] + piece
            &&& !meet ==> appended(committed, piece) == committed + piece
        }),
{
    assert(committed.push(' ') + piece =~= committed + seq![' '] + piece);
}

/// Phrases of Chinese, or any phrases that do not begin and end with ASCII letters or digits, are
/// simply put one after another, however they are grouped.
pub proof fn joining_is_associative_without_words(a: Seq<char>, b: Seq<char>, c: Seq<char>)
    requires
        b.len() > 0,
        (b[0] as u32) >= 0x80,
        (b.last() as u32) >= 0x80,
    ensures
        appended(appended(a, b), c) == appended(a, appended(b, c)),
        appended(appended(a, b), c) == a + b + c,
{
    assert(appended(a, b) == a + b);
    assert((a + b).last() == b.last());
    assert((b + c)[0] == b[0]);
    assert(a + (b + c) =~= a + b + c);
}

proof fn lemma_part_is_shared(b: Seq<(char, char)>, i: int, j: int)
    requires
        0 <= i <= j <= b.len(),
    ensures
        shared(b.subrange(i, j), b) == j - i,
        shared(b, b.subrange(i, j)) == j - i,
{
    broadcast use vstd::seq_lib::group_to_multiset_ensures;
    broadcast use vstd::multiset::group_multiset_axioms;
    broadcast use vstd::multiset::group_multiset_properties;

    let a = b.subrange(i, j);
    let (head, tail) = (b.take(i), b.skip(j));
    assert(b =~= head + a + tail);
    vstd::seq_lib::lemma_multiset_commutative(head, a);
    vstd::seq_lib::lemma_multiset_commutative(head + a, tail);
    assert(forall|x: (char, char)|
        #[trigger] b.to_multiset().count(x) >= a.to_multiset().count(x));
    assert(a.to_multiset().intersection_with(b.to_multiset()) =~= a.to_multiset());
    lemma_shared_symmetric(a, b);
}

/// Likeness counts the pairs of neighbouring characters, each as often as it stands there: what is part
/// of a text shares all of its own pairs with it, and the likeness is twice that over the pairs of both.
pub proof fn parts_share_all_their_pairs(b: Seq<char>, i: int, j: int)
    requires
        0 <= i,
        i + 2 <= j <= b.len(),
    ensures
        likeness(b.subrange(i, j), b) == (2 * (j - i - 1), (j - i - 1) + (b.len() - 1)),
        likeness(b, b.subrange(i, j)) == (2 * (j - i - 1), (j - i - 1) + (b.len() - 1)),
{
    let a = b.subrange(i, j);
    assert(bigrams(a) =~= bigrams(b).subrange(i, j - 1));
    lemma_part_is_shared(bigrams(b), i, j - 1);
}

/// Texts of which no two neighbouring characters of the one are neighbours in the other are not alike
/// at all, and neither is a single character like a longer text without the character zero.
pub proof fn nothing_shared_is_not_alike(a: Seq<char>, b: Seq<char>)
    requires
        a.len() > 0,
        b.len() >= 2,
        a.len() >= 2 ==> forall|i: int, j: int|
            0 <= i < a.len() - 1 && 0 <= j < b.len() - 1 ==> (#[trigger] a[i], a[i + 1]) != (
                #[trigger] b[j],
                b[j + 1],
            ),
        a.len() == 1 ==> forall|j: int| 0 <= j < b.len() ==> #[trigger] b[j] != '\0',
    ensures
        likeness(a, b).0 == 0,
        likeness(b, a).0 == 0,
{
    broadcast use vstd::seq_lib::group_to_multiset_ensures;
    broadcast use vstd::multiset::group_multiset_axioms;
    broadcast use vstd::multiset::group_multiset_properties;

    let (pa, pb) = (bigrams(a), bigrams(b));
    assert forall|x: (char, char)| pa.contains(x) implies !pb.contains(x) by {
        let i = choose|i: int| 0 <= i < pa.len() && pa[i] == x;
        if pb.contains(x) {
            let j = choose|j: int| 0 <= j < pb.len() && pb[j] == x;
            assert(pb[j] == (b[j], b[j + 1]));
            if a.len() == 1 {
                assert(b[j + 1] != '\0');
            } else {
                assert(pa[i] == (a[i], a[i + 1]));
            }
        }
    }
    assert(pa.to_multiset().intersection_with(pb.to_multiset()) =~= Multiset::empty());
    lemma_shared_symmetric(pa, pb);
}

/// A single character is fully like itself and not at all like another one; nothing is like nothing
/// only.
pub proof fn short_texts_are_alike_or_not(x: char, y: char, s: Seq<char>)
    requires
        s.len() > 0,
    ensures
        likeness(seq![x], seq![y]).0 == if x == y {
            likeness(seq![x], seq![y]).1
        } else {
            0
        },
        likeness(Seq::empty(), s).0 == 0,
        likeness(s, Seq::empty()).0 == 0,
        likeness(Seq::empty(), Seq::empty()).0 == likeness(Seq::empty(), Seq::empty()).1,
        likeness(Seq::empty(), Seq::empty()).1 > 0,
{
    likeness_is_a_measure(seq![x], seq![y]);
    if x != y {
        broadcast use vstd::seq_lib::group_to_multiset_ensures;
        broadcast use vstd::multiset::group_multiset_axioms;
        broadcast use vstd::multiset::group_multiset_properties;

        let (pa, pb) = (bigrams(seq![x]), bigrams(seq![y]));
        assert forall|p: (char, char)| pa.contains(p) implies !pb.contains(p) by {}
        assert(pa.to_multiset().intersection_with(pb.to_multiset()) =~= Multiset::empty());
    } else {
        likeness_is_a_measure(seq![x], seq![x]);
    }
}

/// A guess that is neither first nor grows or shrinks is shown at once exactly if it is alike to at
/// least 65 hundredths to what is shown, as long as no guess waits.
pub proof fn corrections_are_shown_from_65_percent(p: Preedit, raw: Seq<char>)
    requires
        p.wf(),
        p.shown.len() > 0,
        text::trimmed(raw).len() > 0,
        text::trimmed(raw) != p.shown,
        !p.shown.is_prefix_of(text::trimmed(raw)),
        !text::trimmed(raw).is_prefix_of(p.shown),
        text::trimmed(raw) != p.pending,
    ensures
        ({
            let (num, den) = likeness(p.shown, text::trimmed(raw));
            let (q, show) = p.read(raw);
            &&& 100 * num >= 65 * den ==> show == Some(text::trimmed(raw)) && q.shown
                == text::trimmed(raw)
            &&& 100 * num < 65 * den ==> show is None && q.shown == p.shown
        }),
{
}

/// What is shown is what was read, trimmed; the first guess is shown at once; and whatever is shown,
/// only reading it again or nothing shows nothing without keeping a guess waiting.
pub proof fn shown_is_what_was_read(p: Preedit, raw: Seq<char>)
    ensures
        p.read(raw).1 matches Some(t) ==> t == text::trimmed(raw) && t.len() > 0 && p.read(raw).0.shown
            == t,
        p.read(raw).1 is None ==> p.read(raw).0.shown == p.shown,
        p.shown.len() == 0 && text::trimmed(raw).len() > 0 ==> p.read(raw).1 == Some(
            text::trimmed(raw),
        ),
        text::trimmed(raw).len() == 0 || text::trimmed(raw) == p.shown ==> p.read(raw).1 is None,
{
}

/// Where the final recogniser heard nothing, provisional text stands in exactly for a phrase of at most
/// two and a half seconds, if it has at least two characters and either at most four, or at most 28 and
/// less than one more than six for each second.
pub proof fn provisional_text_stands_in_for_short_phrases(
    qwen: Seq<char>,
    zip: Seq<char>,
    bytes: int,
    sample_rate: int,
)
    requires
        text::trimmed(qwen).len() == 0,
        bytes >= 0,
        sample_rate > 0,
    ensures
        ({
            let t = text::trimmed(zip);
            let fits = bytes <= 5 * sample_rate && t.len() >= 2 && (t.len() <= 4 || t.len() <= 28 && (
            t.len() - 1) * sample_rate < 3 * bytes);
            &&& fits ==> dual_final(qwen, zip, bytes, sample_rate) == t
            &&& !fits ==> dual_final(qwen, zip, bytes, sample_rate).len() == 0
        }),
{
    let t = text::trimmed(zip);
    let r = sample_rate;
    let n = t.len() as int;
    let q = (3 * bytes + r - 1) / r;
    assert((n <= q) <==> (n - 1) * r < 3 * bytes) by (nonlinear_arith)
        requires
            q == (3 * bytes + r - 1) / r,
            r > 0,
    ;
}

/// A text is shortened to its beginning and a mark that something is missing, and only where it is too
/// long.
pub proof fn shortening_keeps_the_beginning(s: Seq<char>, max_chars: nat)
    ensures
        s.len() <= max_chars ==> shortened(s, max_chars) == s,
        s.len() > max_chars ==> shortened(s, max_chars).len() == max_chars + 1 && shortened(
            s,
            max_chars,
        ).last() == '…' && shortened(s, max_chars).drop_last().is_prefix_of(s),
{
    if s.len() > max_chars {
        assert(shortened(s, max_chars).drop_last() =~= s.take(max_chars as int));
    }
}

} // verus!
