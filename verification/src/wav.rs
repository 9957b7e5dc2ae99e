//! Mono 16-bit little-endian PCM: levels, the gain that normalises a recording, WAV files.

use vstd::prelude::*;

verus! {

/// The signed sample that two bytes stand for, the low byte first.
pub open spec fn sample(lo: u8, hi: u8) -> int {
    let u = lo + 256 * hi;
    if u < 32768 {
        u
    } else {
        u - 65536
    }
}

/// The samples that a run of bytes holds; an odd last byte belongs to none.
pub open spec fn samples(pcm: Seq<u8>) -> Seq<int> {
    Seq::new(pcm.len() / 2, |i: int| sample(pcm[2 * i], pcm[2 * i + 1]))
}

/// The distance of a sample from zero.
pub open spec fn magnitude(x: int) -> int {
    if x < 0 {
        -x
    } else {
        x
    }
}

/// The largest magnitude among the samples; zero where there are none.
pub open spec fn peak_of(xs: Seq<int>) -> int
    decreases xs.len(),
{
    if xs.len() == 0 {
        0
    } else {
        let rest = peak_of(xs.drop_last());
        if magnitude(xs.last()) > rest {
            magnitude(xs.last())
        } else {
            rest
        }
    }
}

/// The sum of the squared samples.
pub open spec fn energy_of(xs: Seq<int>) -> int
    decreases xs.len(),
{
    if xs.len() == 0 {
        0
    } else {
        energy_of(xs.drop_last()) + xs.last() * xs.last()
    }
}

/// How loud a run of PCM is.
#[derive(Debug, Clone, Copy, PartialEq, Eq)]
pub struct Levels {
    /// The largest magnitude of a sample.
    pub peak: i32,
    /// The sum of the squared samples; the RMS is the root of its quotient by `count`.
    pub energy: u128,
    /// The number of samples.
    pub count: usize,
}

fn read_sample(lo: u8, hi: u8) -> (r: i32)
    ensures
        r == sample(lo, hi),
        -32768 <= r <= 32767,
{
    let u: i32 = lo as i32 + 256 * (hi as i32);
    if u < 32768 {
        u
    } else {
        u - 65536
    }
}

/// Peak and energy of mono s16le PCM.
pub fn pcm16_levels(pcm: &[u8]) -> (r: Levels)
    ensures
        r.peak == peak_of(samples(pcm@)),
        r.energy == energy_of(samples(pcm@)),
        r.count == pcm@.len() / 2,
{
    let n: usize = pcm.len() / 2;
    let mut peak: i32 = 0;
    let mut energy: u128 = 0;
    let mut i: usize = 0;
    while i < n
        invariant
            i <= n,
            n == pcm.len() / 2,
            peak == peak_of(samples(pcm@).take(i as int)),
            0 <= peak <= 32768,
            energy == energy_of(samples(pcm@).take(i as int)),
            energy <= i * 0x4000_0000,
        decreases n - i,
    {
        let s: i32 = read_sample(pcm[i * 2], pcm[i * 2 + 1]);
        let a: i32 = if s < 0 {
            -s
        } else {
            s
        };
        let a_wide: u128 = a as u128;
        proof {
            let now = samples(pcm@).take(i + 1);
            assert(now.drop_last() =~= samples(pcm@).take(i as int));
            assert(now.last() == s);
            assert(a_wide * a_wide <= 0x4000_0000) by (nonlinear_arith)
                requires
                    a_wide <= 32768,
            ;
            assert(a_wide * a_wide == s * s) by (nonlinear_arith)
                requires
                    a_wide == s || a_wide == -s,
            ;
        }
        if a > peak {
            peak = a;
        }
        energy = energy + a_wide * a_wide;
        i = i + 1;
    }
    proof {
        assert(samples(pcm@).take(n as int) =~= samples(pcm@));
    }
    Levels { peak, energy, count: n }
}

/// The peak is attained, bounds every sample, and is at most 32768.
pub proof fn peak_bounds(xs: Seq<int>)
    requires
        forall|i: int| 0 <= i < xs.len() ==> -32768 <= #[trigger] xs[i] <= 32767,
    ensures
        0 <= peak_of(xs) <= 32768,
        forall|i: int| 0 <= i < xs.len() ==> magnitude(#[trigger] xs[i]) <= peak_of(xs),
        peak_of(xs) == 0 || exists|i: int|
            0 <= i < xs.len() && magnitude(#[trigger] xs[i]) == peak_of(xs),
    decreases xs.len(),
{
    if xs.len() > 0 {
        let rest = xs.drop_last();
        assert forall|i: int| 0 <= i < rest.len() implies -32768 <= #[trigger] rest[i] <= 32767 by {
            assert(rest[i] == xs[i]);
        }
        peak_bounds(rest);
        assert forall|i: int| 0 <= i < xs.len() implies magnitude(#[trigger] xs[i]) <= peak_of(
            xs,
        ) by {
            if i < rest.len() {
                assert(rest[i] == xs[i]);
            }
        }
        if magnitude(xs.last()) > peak_of(rest) {
            assert(magnitude(xs[xs.len() - 1]) == peak_of(xs));
        } else if peak_of(rest) != 0 {
            let i = choose|i: int|
                0 <= i < rest.len() && magnitude(#[trigger] rest[i]) == peak_of(rest);
            assert(magnitude(xs[i]) == peak_of(xs));
        }
    }
}

/// What normalising does to a recording.
#[derive(Debug, Clone, Copy, PartialEq, Eq, Structural)]
pub enum Normalize {
    /// The recording stays as it is.
    Keep,
    /// Every sample is multiplied by `num / den`.
    Gain { num: u32, den: u32 },
}

/// The gain that brings `peak` to 16000: at most 40-fold, at least 15 hundredths.
pub open spec fn normal_gain(peak: int) -> (int, int) {
    if 16000 > 40 * peak {
        (40, 1)
    } else if 100 * 16000 < 15 * peak {
        (15, 100)
    } else {
        (16000, peak)
    }
}

/// What normalising does at a given peak. Below 80 there is nothing to raise, and a gain within
/// eight hundredths of one is not worth applying.
pub open spec fn normalize_at(peak: int) -> Normalize {
    let (num, den) = normal_gain(peak);
    if peak < 80 || 100 * magnitude(num - den) < 8 * den {
        Normalize::Keep
    } else {
        Normalize::Gain { num: num as u32, den: den as u32 }
    }
}

/// Soft peak normalisation toward about half of full scale.
///
/// Quiet recordings are raised; near-silence is left alone, so that no speech is made out of
/// electrical noise.
pub fn pcm16_normalize(pcm: &[u8]) -> (r: Normalize)
    ensures
        r == normalize_at(peak_of(samples(pcm@))),
{
    let peak: i32 = pcm16_levels(pcm).peak;
    proof {
        lemma_peak_range(pcm@);
    }
    if peak < 80 {
        return Normalize::Keep;
    }
    let p: u32 = peak as u32;
    let mut num: u32 = 16000;
    let mut den: u32 = p;
    if 16000 > 40 * p {
        num = 40;
        den = 1;
    } else if 1_600_000 < 15 * p {
        num = 15;
        den = 100;
    }
    let gap: u32 = if num < den {
        den - num
    } else {
        num - den
    };
    if 100 * gap < 8 * den {
        Normalize::Keep
    } else {
        Normalize::Gain { num, den }
    }
}

proof fn lemma_peak_range(pcm: Seq<u8>)
    ensures
        0 <= peak_of(samples(pcm)) <= 32768,
{
    peak_bounds(samples(pcm));
}

/// Normalising never clips: the gain it chooses takes no sample beyond 16000.
pub proof fn normalize_never_clips(pcm: Seq<u8>, i: int)
    requires
        0 <= i < samples(pcm).len(),
        normalize_at(peak_of(samples(pcm))) is Gain,
    ensures
        ({
            let gain = normalize_at(peak_of(samples(pcm)));
            &&& gain->den > 0
            &&& magnitude(samples(pcm)[i]) * gain->num <= 16000 * gain->den
        }),
{
    let p = peak_of(samples(pcm));
    peak_bounds(samples(pcm));
    let m = magnitude(samples(pcm)[i]);
    let gain = normalize_at(p);
    assert(m <= p <= 32768);
    if 16000 > 40 * p {
        assert(gain->num == 40 && gain->den == 1);
    } else {
        assert(gain->num == 16000 && gain->den == p);
    }
    assert(m * gain->num <= 16000 * gain->den) by (nonlinear_arith)
        requires
            m <= p,
            gain->num == 40 && gain->den == 1 && 40 * p < 16000 || gain->num == 16000 && gain->den
                == p,
    ;
}

/// Whether `out` is `xs` with a gain of `num / den`, each sample rounded to a whole number less than
/// one away.
pub open spec fn is_scaled(xs: Seq<int>, out: Seq<int>, num: int, den: int) -> bool {
    &&& out.len() == xs.len()
    &&& forall|i: int| 0 <= i < xs.len() ==> magnitude(#[trigger] out[i] * den - xs[i] * num) < den
}

/// Sound whose peak is 16000 already is kept.
pub proof fn normal_sound_is_kept(pcm: Seq<u8>)
    requires
        peak_of(samples(pcm)) == 16000,
    ensures
        normalize_at(peak_of(samples(pcm))) == Normalize::Keep,
{
}

/// Normalising twice is normalising once, however samples are rounded: sound that was kept is kept,
/// and sound that got its gain has a peak of 16000 and is kept. Peaks from 80 to 399 are left out:
/// their gain is cut at 40-fold, and a second one takes them further.
pub proof fn normalizing_twice_is_once(pcm: Seq<u8>, out: Seq<u8>)
    requires
        peak_of(samples(pcm)) < 80 || peak_of(samples(pcm)) >= 400,
        match normalize_at(peak_of(samples(pcm))) {
            Normalize::Keep => out == pcm,
            Normalize::Gain { num, den } => is_scaled(
                samples(pcm),
                samples(out),
                num as int,
                den as int,
            ),
        },
    ensures
        normalize_at(peak_of(samples(pcm))) is Gain ==> peak_of(samples(out)) == 16000,
        normalize_at(peak_of(samples(out))) == Normalize::Keep,
{
    let (xs, ys) = (samples(pcm), samples(out));
    let p = peak_of(xs);
    if normalize_at(p) is Gain {
        peak_bounds(xs);
        peak_bounds(ys);
        assert(normal_gain(p) == (16000int, p));
        assert forall|i: int| 0 <= i < ys.len() implies magnitude(#[trigger] ys[i]) <= 16000 by {
            let (x, y) = (xs[i], ys[i]);
            assert(magnitude(y) <= 16000) by (nonlinear_arith)
                requires
                    -p < y * p - x * 16000 < p,
                    -p <= x <= p,
                    p > 0,
            ;
        }
        let k = choose|k: int| 0 <= k < xs.len() && magnitude(#[trigger] xs[k]) == p;
        let (x, y) = (xs[k], ys[k]);
        assert(magnitude(y) == 16000) by (nonlinear_arith)
            requires
                -p < y * p - x * 16000 < p,
                x == p || x == -p,
                p > 0,
        ;
    }
}

/// The bytes of a 16-bit number, low byte first.
pub open spec fn le16(x: int) -> Seq<u8> {
    seq![(x % 256) as u8, (x / 256 % 256) as u8]
}

/// The bytes of a 32-bit number, low byte first.
#[verifier::opaque]
pub open spec fn le32(x: int) -> Seq<u8> {
    seq![
        (x % 256) as u8,
        (x / 256 % 256) as u8,
        (x / 65536 % 256) as u8,
        (x / 16777216 % 256) as u8,
    ]
}

/// The number that four bytes stand for, low byte first.
#[verifier::opaque]
pub open spec fn read_le32(b: Seq<u8>) -> int {
    b[0] + 256 * b[1] + 65536 * b[2] + 16777216 * b[3]
}

/// The length that a WAV header can state: the low 32 bits of the number of bytes.
pub open spec fn stated_len(pcm: Seq<u8>) -> int {
    pcm.len() as int % 0x1_0000_0000
}

/// The 44 bytes that stand before the samples: RIFF, a PCM format chunk for one channel of 16-bit
/// samples, and the head of the data chunk.
#[verifier::opaque]
pub open spec fn wav_header(sample_rate: int, data_len: int) -> Seq<u8> {
    seq![0x52u8, 0x49u8, 0x46u8, 0x46u8] + le32(36 + data_len) + seq![
        0x57u8,
        0x41u8,
        0x56u8,
        0x45u8,
    ] + seq![0x66u8, 0x6du8, 0x74u8, 0x20u8] + le32(16) + le16(1) + le16(1) + le32(sample_rate)
        + le32(2 * sample_rate) + le16(2) + le16(16) + seq![0x64u8, 0x61u8, 0x74u8, 0x61u8] + le32(
        data_len,
    )
}

/// The WAV file of a mono recording.
pub open spec fn wav_file(sample_rate: int, pcm: Seq<u8>) -> Seq<u8> {
    wav_header(sample_rate, stated_len(pcm)) + pcm
}

fn push_le16(out: &mut Vec<u8>, x: u16)
    ensures
        final(out)@ == old(out)@ + le16(x as int),
{
    out.push((x % 256) as u8);
    out.push((x / 256 % 256) as u8);
    proof {
        assert(out@ =~= old(out)@ + le16(x as int));
    }
}

fn push_le32(out: &mut Vec<u8>, x: u32)
    ensures
        final(out)@ == old(out)@ + le32(x as int),
{
    out.push((x % 256) as u8);
    out.push((x / 256 % 256) as u8);
    out.push((x / 65536 % 256) as u8);
    out.push((x / 16777216 % 256) as u8);
    proof {
        reveal(le32);
        assert(out@ =~= old(out)@ + le32(x as int));
    }
}

fn push_tag(out: &mut Vec<u8>, a: u8, b: u8, c: u8, d: u8)
    ensures
        final(out)@ == old(out)@ + seq![a, b, c, d],
{
    out.push(a);
    out.push(b);
    out.push(c);
    out.push(d);
    proof {
        assert(out@ =~= old(out)@ + seq![a, b, c, d]);
    }
}

/// The bytes of a WAV file that holds mono PCM16 little-endian samples.
pub fn write_pcm16_mono_wav(sample_rate: u32, pcm: &[u8]) -> (r: Vec<u8>)
    requires
        36 + stated_len(pcm@) <= u32::MAX,
        2 * sample_rate <= u32::MAX,
        44 + pcm@.len() <= usize::MAX,
    ensures
        r@ == wav_file(sample_rate as int, pcm@),
{
    let len: u64 = pcm.len() as u64;
    let data_len: u32 = (len % 0x1_0000_0000) as u32;
    let mut out: Vec<u8> = Vec::new();
    push_tag(&mut out, 0x52, 0x49, 0x46, 0x46);
    push_le32(&mut out, 36 + data_len);
    push_tag(&mut out, 0x57, 0x41, 0x56, 0x45);
    push_tag(&mut out, 0x66, 0x6d, 0x74, 0x20);
    push_le32(&mut out, 16);
    push_le16(&mut out, 1);
    push_le16(&mut out, 1);
    push_le32(&mut out, sample_rate);
    push_le32(&mut out, sample_rate * 2);
    push_le16(&mut out, 2);
    push_le16(&mut out, 16);
    push_tag(&mut out, 0x64, 0x61, 0x74, 0x61);
    push_le32(&mut out, data_len);
    proof {
        reveal(wav_header);
        assert(out@ =~= wav_header(sample_rate as int, stated_len(pcm@)));
    }
    out.extend_from_slice(pcm);
    proof {
        assert(out@ =~= wav_file(sample_rate as int, pcm@));
    }
    out
}

proof fn lemma_le32(x: int)
    requires
        0 <= x < 0x1_0000_0000,
    ensures
        read_le32(le32(x)) == x,
        le32(x).len() == 4,
{
    reveal(le32);
    reveal(read_le32);
    assert(x == x % 256 + 256 * (x / 256 % 256) + 65536 * (x / 65536 % 256) + 16777216 * (x
        / 16777216 % 256)) by (nonlinear_arith)
        requires
            0 <= x < 0x1_0000_0000,
    ;
}

proof fn lemma_header(sample_rate: int, data_len: int)
    ensures
        wav_header(sample_rate, data_len).len() == 44,
        wav_header(sample_rate, data_len).subrange(4, 8) == le32(36 + data_len),
        wav_header(sample_rate, data_len).subrange(24, 28) == le32(sample_rate),
        wav_header(sample_rate, data_len).subrange(28, 32) == le32(2 * sample_rate),
        wav_header(sample_rate, data_len).subrange(40, 44) == le32(data_len),
{
    reveal(wav_header);
    reveal(le32);
    let h = wav_header(sample_rate, data_len);
    assert(h.subrange(4, 8) =~= le32(36 + data_len));
    assert(h.subrange(24, 28) =~= le32(sample_rate));
    assert(h.subrange(28, 32) =~= le32(2 * sample_rate));
    assert(h.subrange(40, 44) =~= le32(data_len));
}

proof fn lemma_in_front<T>(head: Seq<T>, tail: Seq<T>, i: int, j: int)
    requires
        0 <= i <= j <= head.len(),
    ensures
        (head + tail).subrange(i, j) == head.subrange(i, j),
{
    assert((head + tail).subrange(i, j) =~= head.subrange(i, j));
}

proof fn lemma_reads_back(h: Seq<u8>, pcm: Seq<u8>, rate: int, n: int)
    requires
        h.len() == 44,
        h.subrange(4, 8) == le32(36 + n),
        h.subrange(24, 28) == le32(rate),
        h.subrange(28, 32) == le32(2 * rate),
        h.subrange(40, 44) == le32(n),
        0 <= n <= u32::MAX - 36,
        0 <= 2 * rate <= u32::MAX,
    ensures
        (h + pcm).skip(44) == pcm,
        read_le32((h + pcm).subrange(4, 8)) == 36 + n,
        read_le32((h + pcm).subrange(24, 28)) == rate,
        read_le32((h + pcm).subrange(28, 32)) == 2 * rate,
        read_le32((h + pcm).subrange(40, 44)) == n,
{
    lemma_in_front(h, pcm, 4, 8);
    lemma_in_front(h, pcm, 24, 28);
    lemma_in_front(h, pcm, 28, 32);
    lemma_in_front(h, pcm, 40, 44);
    assert((h + pcm).skip(44) =~= pcm);
    lemma_le32(36 + n);
    lemma_le32(rate);
    lemma_le32(2 * rate);
    lemma_le32(n);
}

/// A WAV file gives back what was written into it: the samples after 44 bytes of header, the rate
/// and the byte rate, and the length of the samples where 32 bits hold it.
pub proof fn wav_file_reads_back(sample_rate: u32, pcm: Seq<u8>)
    requires
        2 * sample_rate <= u32::MAX,
        36 + pcm.len() <= u32::MAX,
    ensures
        ({
            let file = wav_file(sample_rate as int, pcm);
            &&& file.len() == 44 + pcm.len()
            &&& file.skip(44) == pcm
            &&& read_le32(file.subrange(4, 8)) == file.len() - 8
            &&& read_le32(file.subrange(24, 28)) == sample_rate
            &&& read_le32(file.subrange(28, 32)) == 2 * sample_rate
            &&& read_le32(file.subrange(40, 44)) == pcm.len()
        }),
{
    let rate = sample_rate as int;
    let n = stated_len(pcm);
    lemma_header(rate, n);
    lemma_reads_back(wav_header(rate, n), pcm, rate, n);
}

/// A sample is two bytes, the low one first, and a negative one counts down from the top: every number
/// of 16 bits is read back from the bytes that stand for it.
pub proof fn samples_are_little_endian(x: int, before: Seq<u8>, behind: Seq<u8>)
    requires
        -32768 <= x <= 32767,
        before.len() % 2 == 0,
    ensures
        ({
            let u = if x < 0 {
                x + 65536
            } else {
                x
            };
            let pcm = before + seq![(u % 256) as u8, (u / 256) as u8] + behind;
            &&& samples(pcm).len() == pcm.len() / 2
            &&& samples(pcm)[(before.len() / 2) as int] == x
        }),
{
    let u = if x < 0 {
        x + 65536
    } else {
        x
    };
    let pcm = before + seq![(u % 256) as u8, (u / 256) as u8] + behind;
    let k = (before.len() / 2) as int;
    assert(2 * k == before.len());
    assert(pcm[2 * k] == (u % 256) as u8);
    assert(pcm[2 * k + 1] == (u / 256) as u8);
}

proof fn lemma_peak_joined(xs: Seq<int>, ys: Seq<int>)
    ensures
        peak_of(xs + ys) == if peak_of(xs) < peak_of(ys) {
            peak_of(ys)
        } else {
            peak_of(xs)
        },
        energy_of(xs + ys) == energy_of(xs) + energy_of(ys),
        peak_of(ys) >= 0,
        peak_of(xs) >= 0,
    decreases xs.len() + ys.len(),
{
    if ys.len() == 0 {
        assert(xs + ys =~= xs);
        if xs.len() > 0 {
            lemma_peak_joined(xs.drop_last(), ys);
        }
    } else {
        assert((xs + ys).drop_last() =~= xs + ys.drop_last());
        assert((xs + ys).last() == ys.last());
        lemma_peak_joined(xs, ys.drop_last());
    }
}

/// The levels of sound that is put together: the larger of the two peaks, and the sum of the energies.
/// A single sample has its magnitude for a peak, and its square for an energy.
pub proof fn levels_add_up(a: Seq<u8>, b: Seq<u8>, x: int)
    requires
        a.len() % 2 == 0,
    ensures
        peak_of(samples(a + b)) == if peak_of(samples(a)) < peak_of(samples(b)) {
            peak_of(samples(b))
        } else {
            peak_of(samples(a))
        },
        energy_of(samples(a + b)) == energy_of(samples(a)) + energy_of(samples(b)),
        peak_of(seq![x]) == if x < 0 {
            -x
        } else {
            x
        },
        energy_of(seq![x]) == x * x,
{
    assert(samples(a + b) =~= samples(a) + samples(b));
    lemma_peak_joined(samples(a), samples(b));
    assert(seq![x].drop_last() =~= Seq::<int>::empty());
    assert(peak_of(Seq::<int>::empty()) == 0);
    assert(energy_of(Seq::<int>::empty()) == 0);
}

/// Normalising brings the peak to 16000 where that takes no more than a 40-fold gain, and applies that
/// gain where it takes more. It leaves alone what has a peak under 80, and what is within eight
/// hundredths of 16000 already.
pub proof fn normalizing_aims_at_half_scale(peak: int)
    requires
        0 <= peak <= 32768,
    ensures
        normalize_at(peak) == Normalize::Keep <==> peak < 80 || 14815 <= peak <= 17391,
        normalize_at(peak) matches Normalize::Gain { num, den } ==> den > 0 && (peak >= 400 ==> num
            * peak == 16000 * den),
        normalize_at(peak) matches Normalize::Gain { num, den } ==> peak < 400 ==> num == 40 * den,
{
    if peak >= 400 {
        assert(normal_gain(peak) == (16000int, peak));
        assert(16000 * peak == 16000 * peak);
    }
}

/// A WAV file says what it holds: RIFF and WAVE, a format chunk of 16 bytes for uncompressed mono sound
/// of 16 bits in blocks of two bytes, and a data chunk.
pub proof fn wav_files_are_mono_pcm16(sample_rate: u32, pcm: Seq<u8>)
    ensures
        ({
            let file = wav_file(sample_rate as int, pcm);
            &&& file.subrange(0, 4) == seq!['R' as u8, 'I' as u8, 'F' as u8, 'F' as u8]
            &&& file.subrange(8, 12) == seq!['W' as u8, 'A' as u8, 'V' as u8, 'E' as u8]
            &&& file.subrange(12, 16) == seq!['f' as u8, 'm' as u8, 't' as u8, ' ' as u8]
            &&& file.subrange(16, 20) == seq![16u8, 0u8, 0u8, 0u8]
            &&& file.subrange(20, 22) == seq![1u8, 0u8]
            &&& file.subrange(22, 24) == seq![1u8, 0u8]
            &&& file.subrange(32, 34) == seq![2u8, 0u8]
            &&& file.subrange(34, 36) == seq![16u8, 0u8]
            &&& file.subrange(36, 40) == seq!['d' as u8, 'a' as u8, 't' as u8, 'a' as u8]
        }),
{
    reveal(wav_header);
    reveal(le32);
    let file = wav_file(sample_rate as int, pcm);
    assert(file.subrange(0, 4) =~= seq![0x52u8, 0x49u8, 0x46u8, 0x46u8]);
    assert(file.subrange(8, 12) =~= seq![0x57u8, 0x41u8, 0x56u8, 0x45u8]);
    assert(file.subrange(12, 16) =~= seq![0x66u8, 0x6du8, 0x74u8, 0x20u8]);
    assert(file.subrange(16, 20) =~= seq![16u8, 0u8, 0u8, 0u8]);
    assert(file.subrange(20, 22) =~= seq![1u8, 0u8]);
    assert(file.subrange(22, 24) =~= seq![1u8, 0u8]);
    assert(file.subrange(32, 34) =~= seq![2u8, 0u8]);
    assert(file.subrange(34, 36) =~= seq![16u8, 0u8]);
    assert(file.subrange(36, 40) =~= seq![0x64u8, 0x61u8, 0x74u8, 0x61u8]);
}

} // verus!
