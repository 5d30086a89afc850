//! A single-producer, single-consumer byte ring buffer of fixed capacity.
//!
//! The ring holds raw audio bytes between the host's DSP callback, which
//! writes, and the recognition worker, which reads. One slot is always kept
//! free, so a ring of capacity `cap` holds at most `cap - 1` bytes. Writes
//! are all-or-nothing: a write that does not fit is dropped whole. Reads are
//! all-or-nothing too: a chunk is read only when that many bytes are held.
use vstd::prelude::*;

verus! {

/// Capacity of the ring the plugin allocates (2 MiB).
pub const RING_CAP: usize = 2097152;

/// Bytes of audio that make one window of the voice-activity detector.
pub const VAD_WINDOW_BYTES: usize = 12288;

/// The worker sleeps until at least this many bytes (three windows) are held.
pub const WAKE_THRESHOLD: usize = VAD_WINDOW_BYTES * 3;

/// Position `x` reduced once modulo `cap`, for `x < 2 * cap`.
pub open spec fn wrap(x: int, cap: int) -> int {
    if x < cap {
        x
    } else {
        x - cap
    }
}

/// A write of `len` bytes into a ring of capacity `cap` holding `held` bytes
/// is accepted when it is not empty and leaves the free slot free.
pub open spec fn write_accepted(held: nat, cap: nat, len: nat) -> bool {
    0 < len && held + len + 1 <= cap
}

/// The bytes a ring holds after a write of `data`.
pub open spec fn after_write(held: Seq<u8>, cap: nat, data: Seq<u8>) -> Seq<u8> {
    if write_accepted(held.len(), cap, data.len()) {
        held + data
    } else {
        held
    }
}

/// A byte ring buffer. Its view is the sequence of bytes it holds, oldest
/// first.
pub struct Ring {
    buf: Vec<u8>,
    cap: usize,
    wp: usize,
    rp: usize,
}

impl Ring {
    /// Well-formedness: the storage has `cap` bytes and both positions lie
    /// inside it.
    pub closed spec fn wf(&self) -> bool {
        &&& self.cap >= 1
        &&& self.buf@.len() == self.cap
        &&& self.wp < self.cap
        &&& self.rp < self.cap
    }

    /// The capacity the ring was made with.
    pub closed spec fn capacity(&self) -> nat {
        self.cap as nat
    }

    /// Number of bytes held: the distance from the read to the write position.
    closed spec fn count(&self) -> nat {
        if self.wp >= self.rp {
            (self.wp - self.rp) as nat
        } else {
            (self.cap - self.rp + self.wp) as nat
        }
    }

    /// A well-formed ring never holds more than `capacity() - 1` bytes.
    pub proof fn lemma_bounds(&self)
        requires
            self.wf(),
        ensures
            self.capacity() >= 1,
            self@.len() + 1 <= self.capacity(),
    {
    }
}

impl View for Ring {
    type V = Seq<u8>;

    closed spec fn view(&self) -> Seq<u8> {
        Seq::new(self.count(), |i: int| self.buf@[wrap(self.rp + i, self.cap as int)])
    }
}

impl Ring {
    /// An empty ring of capacity `cap`.
    pub fn new(cap: usize) -> (r: Ring)
        requires
            cap >= 1,
        ensures
            r.wf(),
            r.capacity() == cap,
            r@ == Seq::<u8>::empty(),
    {
        let r = Ring { buf: vec![0u8; cap], cap, wp: 0, rp: 0 };
        assert(r@ =~= Seq::<u8>::empty());
        r
    }

    /// Number of bytes held.
    pub fn available(&self) -> (n: usize)
        requires
            self.wf(),
        ensures
            n == self@.len(),
    {
        let w = self.wp;
        let r = self.rp;
        if w >= r {
            w - r
        } else {
            self.cap - r + w
        }
    }

    /// Number of bytes a write may still add.
    pub fn space(&self) -> (n: usize)
        requires
            self.wf(),
        ensures
            n + self@.len() + 1 == self.capacity(),
    {
        self.cap - self.available() - 1
    }

    /// Appends all of `data`, or nothing when `data` is empty or does not fit
    /// in the free space.
    pub fn write(&mut self, data: &[u8])
        requires
            old(self).wf(),
        ensures
            final(self).wf(),
            final(self).capacity() == old(self).capacity(),
            final(self)@ == after_write(old(self)@, old(self).capacity(), data@),
    {
        let len = data.len();
        if len == 0 || len > self.space() {
            return;
        }
        let ghost held = self@;
        let ghost old_buf = self.buf@;
        let ghost count = self.count();
        let cap = self.cap;
        let w = self.wp;
        let mut pos = w;
        let mut i: usize = 0;
        assert(w as int == wrap(self.rp + count, cap as int));
        while i < len
            invariant
                self.cap == cap,
                self.rp == old(self).rp,
                self.wp == w,
                self.buf@.len() == cap,
                cap >= 1,
                w < cap,
                self.rp < cap,
                count == old(self).count(),
                w as int == wrap(self.rp + count, cap as int),
                len == data@.len(),
                count + len + 1 <= cap,
                i <= len,
                pos < cap,
                pos as int == wrap(w + i, cap as int),
                forall|k: int|
                    0 <= k < cap ==> #[trigger] self.buf@[wrap(self.rp + k, cap as int)] == if count
                        <= k < count + i {
                        data@[k - count]
                    } else {
                        old_buf[wrap(self.rp + k, cap as int)]
                    },
            decreases len - i,
        {
            let ghost before = self.buf@;
            self.buf.set(pos, data[i]);
            assert forall|k: int| 0 <= k < cap implies #[trigger] self.buf@[wrap(
                self.rp + k,
                cap as int,
            )] == if count <= k < count + i + 1 {
                data@[k - count]
            } else {
                old_buf[wrap(self.rp + k, cap as int)]
            } by {
                if k != count + i {
                    assert(wrap(self.rp + k, cap as int) != pos);
                    assert(before[wrap(self.rp + k, cap as int)] == self.buf@[wrap(
                        self.rp + k,
                        cap as int,
                    )]);
                }
            }
            i = i + 1;
            pos = if pos + 1 == cap {
                0
            } else {
                pos + 1
            };
        }
        self.wp = pos;
        assert(self.count() == count + len);
        assert forall|j: int| 0 <= j < count + len implies #[trigger] self@[j] == (held + data@)[j] by {
            assert(self.buf@[wrap(self.rp + j, cap as int)] == if count <= j < count + len {
                data@[j - count]
            } else {
                old_buf[wrap(self.rp + j, cap as int)]
            });
        }
        assert(self@ =~= held + data@);
    }

    /// Reads exactly `n` bytes into `out`, oldest first, when at least `n`
    /// bytes are held, and returns `n`. Otherwise reads nothing, leaves `out`
    /// as it was and returns 0.
    pub fn read_chunk(&mut self, out: &mut Vec<u8>, n: usize) -> (got: usize)
        requires
            old(self).wf(),
        ensures
            final(self).wf(),
            final(self).capacity() == old(self).capacity(),
            n <= old(self)@.len() ==> {
                &&& got == n
                &&& final(out)@ == old(self)@.take(n as int)
                &&& final(self)@ == old(self)@.skip(n as int)
            },
            n > old(self)@.len() ==> {
                &&& got == 0
                &&& final(out)@ == old(out)@
                &&& final(self)@ == old(self)@
            },
    {
        if self.available() < n {
            return 0;
        }
        let ghost held = self@;
        let cap = self.cap;
        let r = self.rp;
        out.clear();
        let mut pos = r;
        let mut i: usize = 0;
        while i < n
            invariant
                self.wf(),
                self.cap == cap,
                self.rp == r,
                self@ == held,
                n <= held.len(),
                held.len() + 1 <= cap,
                i <= n,
                pos < cap,
                pos as int == wrap(r + i, cap as int),
                out@ == held.take(i as int),
            decreases n - i,
        {
            out.push(self.buf[pos]);
            assert(out@ =~= held.take(i + 1));
            i = i + 1;
            pos = if pos + 1 == cap {
                0
            } else {
                pos + 1
            };
        }
        self.rp = pos;
        assert(self@ =~= held.skip(n as int));
        n
    }

    /// Reads everything held into `out` and returns how many bytes that was;
    /// when nothing is held, leaves `out` as it was and returns 0.
    pub fn drain(&mut self, out: &mut Vec<u8>) -> (got: usize)
        requires
            old(self).wf(),
        ensures
            final(self).wf(),
            final(self).capacity() == old(self).capacity(),
            got == old(self)@.len(),
            got > 0 ==> final(out)@ == old(self)@,
            got == 0 ==> final(out)@ == old(out)@,
            final(self)@ == Seq::<u8>::empty(),
    {
        let a = self.available();
        if a == 0 {
            assert(self@ =~= Seq::<u8>::empty());
            return 0;
        }
        let got = self.read_chunk(out, a);
        assert(old(self)@.take(a as int) =~= old(self)@);
        assert(self@ =~= Seq::<u8>::empty());
        got
    }

    /// Forgets everything held.
    pub fn reset(&mut self)
        requires
            old(self).wf(),
        ensures
            final(self).wf(),
            final(self).capacity() == old(self).capacity(),
            final(self)@ == Seq::<u8>::empty(),
    {
        self.wp = 0;
        self.rp = 0;
        assert(self@ =~= Seq::<u8>::empty());
    }

    /// Whether the worker, while `running`, should keep sleeping: fewer than
    /// `WAKE_THRESHOLD` bytes are held.
    pub fn should_wait(&self, running: bool) -> (wait: bool)
        requires
            self.wf(),
        ensures
            wait == (self@.len() < WAKE_THRESHOLD && running),
    {
        self.available() < WAKE_THRESHOLD && running
    }
}

/// FIFO order: after an accepted write, the bytes that were held come out
/// first, unchanged, and then exactly the bytes written.
pub proof fn law_fifo(held: Seq<u8>, cap: nat, data: Seq<u8>)
    requires
        held.len() + 1 <= cap,
        write_accepted(held.len(), cap, data.len()),
    ensures
        after_write(held, cap, data).take(held.len() as int) == held,
        after_write(held, cap, data).skip(held.len() as int) == data,
{
    assert((held + data).take(held.len() as int) =~= held);
    assert((held + data).skip(held.len() as int) =~= data);
}

/// A write into an empty ring that fits is read back whole and unchanged.
pub proof fn law_write_then_drain(cap: nat, data: Seq<u8>)
    requires
        0 < data.len(),
        data.len() + 1 <= cap,
    ensures
        after_write(Seq::<u8>::empty(), cap, data) == data,
{
    assert(Seq::<u8>::empty() + data =~= data);
}

/// A ring never holds more than `cap - 1` bytes, whatever is written.
pub proof fn law_capacity_kept(held: Seq<u8>, cap: nat, data: Seq<u8>)
    requires
        held.len() + 1 <= cap,
    ensures
        after_write(held, cap, data).len() + 1 <= cap,
{
}

/// A write is never split: the ring afterwards holds either what it held or
/// that followed by all of the data.
pub proof fn law_write_all_or_nothing(held: Seq<u8>, cap: nat, data: Seq<u8>)
    ensures
        after_write(held, cap, data) == held || after_write(held, cap, data) == held + data,
{
}

/// Reading back what was written into an empty ring is the identity,
/// and leaves the ring empty: a chunk of the written length is exactly the
/// data.
pub proof fn law_write_then_read_chunk(cap: nat, data: Seq<u8>)
    requires
        0 < data.len(),
        data.len() + 1 <= cap,
    ensures
        data.len() <= after_write(Seq::<u8>::empty(), cap, data).len(),
        after_write(Seq::<u8>::empty(), cap, data).take(data.len() as int) == data,
        after_write(Seq::<u8>::empty(), cap, data).skip(data.len() as int).len() == 0,
{
    assert(Seq::<u8>::empty() + data =~= data);
    assert(data.take(data.len() as int) =~= data);
}

/// A write is stored exactly when it is not empty and no longer than the
/// space the ring reports (`capacity - 1 - held`).
pub proof fn law_space_admits(held: nat, cap: nat, len: nat)
    requires
        held + 1 <= cap,
    ensures
        write_accepted(held, cap, len) <==> (0 < len && len <= cap - 1 - held),
{
}

} // verus!
