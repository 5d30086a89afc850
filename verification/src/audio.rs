//! Bookkeeping of the audio pipeline: bytes from the ring become 32-bit
//! little-endian sample words, mono samples are grouped into whole frames
//! for downsampling to 16 kHz with the remainder carried over, and the
//! voice-activity detector is fed fixed windows.
//!
//! The sample values themselves are floating point and are combined by the
//! caller; these functions are generic over the sample type and only move
//! samples.
use vstd::prelude::*;

verus! {

/// Sample rate the recognition models expect.
pub const MODEL_SAMPLE_RATE: u32 = 16000;

/// Samples in one window of the voice-activity detector.
pub const VAD_WINDOW_SAMPLES: usize = 512;

/// The 32-bit word whose little-endian bytes are `b0 b1 b2 b3`.
pub open spec fn le_word(b0: u8, b1: u8, b2: u8, b3: u8) -> u32 {
    (b0 as int + 256 * (b1 as int) + 65536 * (b2 as int) + 16777216 * (b3 as int)) as u32
}

/// The little-endian 32-bit words of `bytes`, four bytes each; trailing
/// bytes that do not make a whole word are ignored.
pub open spec fn le_words_of(bytes: Seq<u8>) -> Seq<u32> {
    Seq::new(
        bytes.len() / 4,
        |i: int| le_word(bytes[4 * i], bytes[4 * i + 1], bytes[4 * i + 2], bytes[4 * i + 3]),
    )
}

/// Splits `bytes` into little-endian 32-bit words (the bit patterns of the
/// host's `f32` samples).
pub fn le_words(bytes: &[u8]) -> (w: Vec<u32>)
    ensures
        w@ == le_words_of(bytes@),
{
    let n = bytes.len() / 4;
    let mut w: Vec<u32> = Vec::with_capacity(n);
    let mut i: usize = 0;
    while i < n
        invariant
            n == bytes@.len() / 4,
            bytes@.len() <= usize::MAX,
            i <= n,
            w@ == le_words_of(bytes@).take(i as int),
        decreases n - i,
    {
        assert(4 * i + 3 < bytes@.len());
        let b0 = bytes[4 * i] as u32;
        let b1 = bytes[4 * i + 1] as u32;
        let b2 = bytes[4 * i + 2] as u32;
        let b3 = bytes[4 * i + 3] as u32;
        w.push(b0 + 256 * b1 + 65536 * b2 + 16777216 * b3);
        assert(w@ =~= le_words_of(bytes@).take(i + 1));
        i = i + 1;
    }
    assert(w@ =~= le_words_of(bytes@));
    w
}

/// How many input samples make one 16 kHz sample at `sample_rate`, or None
/// when the rate is below 16 kHz and cannot be downsampled.
pub fn down_ratio(sample_rate: u32) -> (r: Option<usize>)
    ensures
        sample_rate / 16000 == 0 ==> r is None,
        sample_rate / 16000 > 0 ==> r == Some((sample_rate / 16000) as usize),
{
    let q = sample_rate / MODEL_SAMPLE_RATE;
    if q == 0 {
        None
    } else {
        Some(q as usize)
    }
}

/// What the recognition worker does after draining the ring.
#[derive(PartialEq, Eq, Structural, Debug, Clone, Copy)]
pub enum WorkerStep {
    /// Audio arrived and the worker keeps running: process it.
    Process,
    /// Nothing arrived and the worker keeps running: sleep until woken.
    Wait,
    /// The worker was told to stop: process what was drained, then finish.
    ProcessThenFinish,
    /// The worker was told to stop and nothing is left: finish.
    Finish,
}

/// The worker's next step, given whether it is still to run and how many
/// bytes it drained from the ring.
pub fn worker_step(running: bool, drained: usize) -> (step: WorkerStep)
    ensures
        step == (if running {
            if drained > 0 {
                WorkerStep::Process
            } else {
                WorkerStep::Wait
            }
        } else if drained > 0 {
            WorkerStep::ProcessThenFinish
        } else {
            WorkerStep::Finish
        }),
{
    if running {
        if drained > 0 {
            WorkerStep::Process
        } else {
            WorkerStep::Wait
        }
    } else if drained > 0 {
        WorkerStep::ProcessThenFinish
    } else {
        WorkerStep::Finish
    }
}

/// Length of the longest prefix of `len` samples made of whole frames of
/// `ratio` samples.
pub open spec fn whole_frames_len(len: nat, ratio: nat) -> nat {
    (len - len % ratio) as nat
}

/// Appends `fresh` to the samples carried over in `leftover` and takes the
/// longest prefix made of whole frames of `ratio` samples; what remains is
/// carried over in `leftover` for the next call.
pub fn split_whole_frames<T: Copy>(leftover: &mut Vec<T>, fresh: &[T], ratio: usize) -> (frames: Vec<T>)
    requires
        ratio >= 1,
    ensures
        ({
            let all = old(leftover)@ + fresh@;
            let cut = whole_frames_len(all.len(), ratio as nat) as int;
            &&& frames@ == all.take(cut)
            &&& final(leftover)@ == all.skip(cut)
        }),
{
    let ghost all = old(leftover)@ + fresh@;
    let mut joined: Vec<T> = Vec::new();
    let mut i: usize = 0;
    while i < leftover.len()
        invariant
            i <= leftover@.len(),
            leftover@ == old(leftover)@,
            joined@ == leftover@.take(i as int),
        decreases leftover@.len() - i,
    {
        joined.push(leftover[i]);
        assert(joined@ =~= leftover@.take(i + 1));
        i = i + 1;
    }
    assert(leftover@.take(i as int) =~= leftover@);
    let mut j: usize = 0;
    while j < fresh.len()
        invariant
            j <= fresh@.len(),
            joined@ == old(leftover)@ + fresh@.take(j as int),
            joined@.len() == old(leftover)@.len() + j,
        decreases fresh@.len() - j,
    {
        joined.push(fresh[j]);
        assert(joined@ =~= old(leftover)@ + fresh@.take(j + 1));
        j = j + 1;
    }
    assert(fresh@.take(j as int) =~= fresh@);
    let total = joined.len();
    proof {
        vstd::arithmetic::div_mod::lemma_mod_decreases(total as nat, ratio as nat);
    }
    let cut = total - total % ratio;
    let mut frames: Vec<T> = Vec::new();
    let mut k: usize = 0;
    while k < cut
        invariant
            joined@ == all,
            cut <= total,
            total == all.len(),
            k <= cut,
            frames@ == all.take(k as int),
        decreases cut - k,
    {
        frames.push(joined[k]);
        assert(frames@ =~= all.take(k + 1));
        k = k + 1;
    }
    leftover.clear();
    let mut m: usize = cut;
    while m < total
        invariant
            joined@ == all,
            cut <= m <= total,
            total == all.len(),
            leftover@ == all.subrange(cut as int, m as int),
        decreases total - m,
    {
        leftover.push(joined[m]);
        assert(leftover@ =~= all.subrange(cut as int, m + 1));
        m = m + 1;
    }
    assert(all.subrange(cut as int, total as int) =~= all.skip(cut as int));
    frames
}

/// Samples handed to the voice-activity detector next: a whole window of
/// `n` when `buf` holds one; once the worker is finishing, the partial rest
/// otherwise, so that no speech is lost at shutdown; nothing else.
pub open spec fn next_window_len(held: nat, n: nat, finishing: bool) -> Option<nat> {
    if held >= n {
        Some(n)
    } else if finishing && held > 0 {
        Some(held)
    } else {
        None
    }
}

/// Takes the next samples for the detector out of `buf` (see
/// `next_window_len`).
pub fn next_window<T>(buf: &mut Vec<T>, n: usize, finishing: bool) -> (w: Option<Vec<T>>)
    ensures
        match next_window_len(old(buf)@.len(), n as nat, finishing) {
            Some(k) => w matches Some(v) && v@ == old(buf)@.take(k as int) && final(buf)@ == old(
                buf,
            )@.skip(k as int),
            None => w is None && final(buf)@ == old(buf)@,
        },
{
    let k = if buf.len() >= n {
        n
    } else if finishing && buf.len() > 0 {
        buf.len()
    } else {
        return None;
    };
    let mut window = buf.split_off(k);
    std::mem::swap(buf, &mut window);
    assert(window@ =~= old(buf)@.take(k as int));
    assert(buf@ =~= old(buf)@.skip(k as int));
    Some(window)
}

/// No sample is lost or reordered on its way to the detector: each window
/// taken, followed by what stays behind, is what was held; and once the
/// worker is finishing, nothing stays behind when no window is left.
pub proof fn law_windows_conserve<T>(held: Seq<T>, n: nat, finishing: bool)
    requires
        n >= 1,
    ensures
        match next_window_len(held.len(), n, finishing) {
            Some(k) => held.take(k as int) + held.skip(k as int) == held && k >= 1,
            None => finishing ==> held.len() == 0,
        },
{
    match next_window_len(held.len(), n, finishing) {
        Some(k) => {
            assert(held.take(k as int) + held.skip(k as int) =~= held);
        },
        None => {},
    }
}

/// Downsampling loses no sample and splits no frame: the frames taken and
/// the samples carried over make up, in order, the carried-over samples and
/// the fresh ones; the frames are whole frames of `ratio`, and fewer than
/// `ratio` samples are carried over.
pub proof fn law_frames_conserve<T>(all: Seq<T>, ratio: nat)
    requires
        ratio >= 1,
    ensures
        ({
            let cut = whole_frames_len(all.len(), ratio) as int;
            &&& all.take(cut) + all.skip(cut) == all
            &&& (cut as nat) % ratio == 0
            &&& all.len() - cut < ratio
        }),
{
    let len = all.len() as int;
    let r = ratio as int;
    let cut = whole_frames_len(all.len(), ratio) as int;
    vstd::arithmetic::div_mod::lemma_fundamental_div_mod(len, r);
    vstd::arithmetic::div_mod::lemma_mod_pos_bound(len, r);
    vstd::arithmetic::div_mod::lemma_mod_multiples_basic(len / r, r);
    assert(cut == r * (len / r));
    assert(cut == (len / r) * r) by {
        vstd::arithmetic::mul::lemma_mul_is_commutative(r, len / r);
    }
    assert(all.take(cut) + all.skip(cut) =~= all);
}

/// The frames taken from a carried-over prefix `leftover` and fresh samples
/// `fresh`, and what is carried over after.
pub open spec fn frames_step<T>(leftover: Seq<T>, fresh: Seq<T>, ratio: nat) -> (Seq<T>, Seq<T>) {
    let all = leftover + fresh;
    let cut = whole_frames_len(all.len(), ratio) as int;
    (all.take(cut), all.skip(cut))
}

/// Splitting the stream into chunks changes no frame: taking frames from
/// `a` and then from `b` gives the same frames, in order, and carries over
/// the same samples as taking them from `a` followed by `b` at once.
pub proof fn law_frames_chunking<T>(leftover: Seq<T>, a: Seq<T>, b: Seq<T>, ratio: nat)
    requires
        ratio >= 1,
    ensures
        ({
            let (f1, l1) = frames_step(leftover, a, ratio);
            let (f2, l2) = frames_step(l1, b, ratio);
            let (f, l) = frames_step(leftover, a + b, ratio);
            f1 + f2 == f && l2 == l
        }),
{
    let r = ratio as int;
    let all1 = leftover + a;
    let all = leftover + (a + b);
    let n1 = all1.len() as int;
    let n = all.len() as int;
    let c1 = whole_frames_len(all1.len(), ratio) as int;
    let c = whole_frames_len(all.len(), ratio) as int;
    let l1 = all1.skip(c1);
    let all2 = l1 + b;
    let n2 = all2.len() as int;
    let c2 = whole_frames_len(all2.len(), ratio) as int;
    vstd::arithmetic::div_mod::lemma_fundamental_div_mod(n1, r);
    vstd::arithmetic::div_mod::lemma_mod_pos_bound(n1, r);
    vstd::arithmetic::div_mod::lemma_mod_pos_bound(n, r);
    assert(c1 == r * (n1 / r));
    assert(n2 == n - c1);
    let q = n1 / r;
    assert(r * (-q) == -(r * q)) by (nonlinear_arith);
    assert(n2 % r == n % r) by {
        vstd::arithmetic::div_mod::lemma_mod_multiples_vanish(-q, n, r);
        assert(n2 == r * (-q) + n);
    }
    vstd::arithmetic::div_mod::lemma_mod_decreases(n as nat, ratio);
    vstd::arithmetic::div_mod::lemma_mod_decreases(n1 as nat, ratio);
    vstd::arithmetic::div_mod::lemma_mod_decreases(n2 as nat, ratio);
    assert(c == n - n % r);
    assert(c1 == n1 - n1 % r);
    assert(c2 == n2 - n2 % r);
    assert(c2 == c - c1);
    assert(all2 =~= all.skip(c1));
    assert(all1.take(c1) + all2.take(c2) =~= all.take(c));
    assert(all2.skip(c2) =~= all.skip(c));
}

/// The detector gets exactly one window of `n` whenever `n` samples are
/// held, never more; while running, nothing when fewer are held; at
/// shutdown, whatever is left.
pub proof fn law_window_sizes(held: nat, n: nat, finishing: bool)
    requires
        n >= 1,
    ensures
        held >= n ==> next_window_len(held, n, finishing) == Some(n),
        held < n && !finishing ==> next_window_len(held, n, finishing) is None,
        0 < held < n && finishing ==> next_window_len(held, n, finishing) == Some(held),
        held == 0 ==> next_window_len(held, n, finishing) is None,
        next_window_len(held, n, finishing) matches Some(k) ==> 1 <= k <= n && k <= held,
{
}

/// Reading a 32-bit word back from its four little-endian bytes gives the
/// word.
pub proof fn law_le_word_roundtrip(x: u32)
    ensures
        le_word(
            (x % 256) as u8,
            ((x / 256) % 256) as u8,
            ((x / 65536) % 256) as u8,
            (x / 16777216) as u8,
        ) == x,
{
}

/// Each word is made of its own four bytes: changing byte `4 * i + j`
/// changes word `i` and no other.
pub proof fn law_le_words_local(bytes: Seq<u8>, k: int, v: u8)
    requires
        0 <= k < bytes.len(),
        v != bytes[k],
    ensures
        forall|i: int|
            0 <= i < bytes.len() / 4 && i != k / 4 ==> #[trigger] le_words_of(bytes.update(k, v))[i]
                == le_words_of(bytes)[i],
        k < 4 * (bytes.len() / 4) ==> le_words_of(bytes.update(k, v))[k / 4] != le_words_of(
            bytes,
        )[k / 4],
        le_words_of(bytes.update(k, v)).len() == le_words_of(bytes).len(),
{
    let u = bytes.update(k, v);
    assert forall|i: int|
        0 <= i < bytes.len() / 4 && i != k / 4 implies #[trigger] le_words_of(u)[i]
        == le_words_of(bytes)[i] by {
        assert(u[4 * i] == bytes[4 * i]);
        assert(u[4 * i + 1] == bytes[4 * i + 1]);
        assert(u[4 * i + 2] == bytes[4 * i + 2]);
        assert(u[4 * i + 3] == bytes[4 * i + 3]);
    }
    if k < 4 * (bytes.len() / 4) {
        let i = k / 4;
        let b = bytes;
        let w0 = b[4 * i] as int + 256 * (b[4 * i + 1] as int) + 65536 * (b[4 * i + 2] as int)
            + 16777216 * (b[4 * i + 3] as int);
        let w1 = u[4 * i] as int + 256 * (u[4 * i + 1] as int) + 65536 * (u[4 * i + 2] as int)
            + 16777216 * (u[4 * i + 3] as int);
        assert(w0 != w1) by {
            assert(k == 4 * i || k == 4 * i + 1 || k == 4 * i + 2 || k == 4 * i + 3);
        }
    }
}

} // verus!
