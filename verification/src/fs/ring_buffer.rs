//! The fixed-size ring buffer behind the serial terminal.
//!
//! The buffer keeps `head` (next byte to take) and `tail` (next slot to fill)
//! inside an array of `N` bytes.
use vstd::prelude::*;
use crate::fs::pipes::seq_sum;

verus! {

/// Bytes held between `head` and `tail`, wrapping around at `N`.
pub open spec fn ring_len(head: int, tail: int, n: int) -> int {
    if head <= tail {
        tail - head
    } else {
        tail + n - head
    }
}

/// A ring of `N` bytes.
pub struct RingBufferInner<const N: usize> {
    pub buf: [u8; N],
    pub head: usize,
    pub tail: usize,
}

impl<const N: usize> RingBufferInner<N> {
    /// The bytes of the ring.
    pub open spec fn bytes(&self) -> Seq<u8> {
        self.buf@
    }

    /// Number of bytes the ring counts as held.
    pub open spec fn spec_len(&self) -> int {
        ring_len(self.head as int, self.tail as int, N as int)
    }

    /// The bytes of the ring after `push` copies `src` in at `tail`, wrapping at `N`.
    pub open spec fn pushed(&self, src: Seq<u8>) -> Seq<u8> {
        Seq::new(
            N as nat,
            |j: int|
                if j < self.tail + src.len() - N {
                    src[j + N - self.tail]
                } else if self.tail <= j < self.tail + src.len() {
                    src[j - self.tail]
                } else {
                    self.buf@[j]
                },
        )
    }

    /// Whether `len` stays inside the machine's integers.
    pub open spec fn len_ok(&self) -> bool {
        self.head > self.tail ==> self.tail + N <= usize::MAX && self.head <= self.tail + N
    }

    /// Whether `push` of a slice of `src_len` bytes stays inside every bound it slices by.
    pub open spec fn push_ok(&self, src_len: int) -> bool {
        let l = self.spec_len();
        &&& src_len >= l
        &&& self.tail <= N
        &&& self.tail + l <= usize::MAX
        &&& if self.tail + l > l {
            N - self.tail <= l && l - (N - self.tail) <= N
        } else {
            self.tail + l <= N
        }
    }

    /// Whether `pop_x` into a slice of `dst_len` bytes stays inside every bound it slices by.
    pub open spec fn pop_x_ok(&self, dst_len: int) -> bool {
        let l = self.spec_len();
        &&& dst_len >= l
        &&& self.head <= N
        &&& if self.head <= self.tail && l + self.head > N {
            l - (N - self.head) <= N
        } else {
            self.head + l <= N
        }
    }

    /// An empty ring of zeros.
    pub fn new() -> (r: Self)
        ensures
            r.head == 0,
            r.tail == 0,
            forall|j: int| 0 <= j < N ==> r.buf@[j] == 0,
    {
        Self { buf: [0u8; N], head: 0, tail: 0 }
    }

    /// A ring as `new` makes it, with head and tail both at 0, holds no byte;
    /// `push`, `pop` and `pop_x` may each be called on it, `push` accepts
    /// none (it accepts as many bytes as the ring holds), `pop` and `pop_x`
    /// give none back, and head and tail stay at 0.  So from `new` on, `len`
    /// is always 0, the bytes accepted less the bytes given back.
    pub proof fn lemma_new_ring_stays_empty(r: Self, src_len: int, dst_len: int)
        requires
            N > 0,
            r.head == 0,
            r.tail == 0,
            src_len >= 0,
            dst_len >= 0,
        ensures
            r.spec_len() == 0,
            r.len_ok(),
            r.push_ok(src_len),
            r.pop_x_ok(dst_len),
            (r.tail + r.spec_len()) % (N as int) == 0,
            (r.head + r.spec_len()) % (N as int) == 0,
    {
    }

    /// `pos` wrapped into the ring.
    fn wrap_around(pos: usize) -> (r: usize)
        requires
            N > 0,
        ensures
            r == pos % N,
    {
        pos % N
    }

    /// Number of bytes held.
    pub fn len(&self) -> (r: usize)
        requires
            self.len_ok(),
        ensures
            r == self.spec_len(),
    {
        if self.head <= self.tail {
            self.tail - self.head
        } else {
            self.tail + N - self.head
        }
    }

    /// Copies the first `len()` bytes of `buf` into the ring at `tail`,
    /// wrapping at `N`, moves `tail` past them and answers how many bytes that was.
    pub fn push(&mut self, buf: &[u8]) -> (r: usize)
        requires
            N > 0,
            old(self).len_ok(),
            old(self).push_ok(buf@.len() as int),
        ensures
            r == old(self).spec_len(),
            final(self).head == old(self).head,
            final(self).tail == (old(self).tail + r) % (N as int),
            final(self).buf@ == old(self).pushed(buf@.subrange(0, r as int)),
    {
        let l = self.len();
        let ghost src = buf@.subrange(0, l as int);
        let ghost old_buf = self.buf@;
        let ghost tail = self.tail;
        let ghost head0 = self.head;
        let end = self.tail + l;
        if end > l {
            // wrap around: the part up to the ring's end, then the rest from its start
            let first = N - self.tail;
            let mut j: usize = 0;
            while j < first
                invariant
                    self.tail == tail,
                    self.head == head0,
                    first == N - tail,
                    first <= l,
                    l <= buf@.len(),
                    l - first <= N,
                    self.buf@.len() == N,
                    j <= first,
                    forall|q: int| 0 <= q < N ==> #[trigger] self.buf@[q] == if tail <= q < tail + j {
                        buf@[q - tail]
                    } else {
                        old_buf[q]
                    },
                decreases first - j,
            {
                self.buf[self.tail + j] = buf[j];
                j = j + 1;
            }
            let rest = l - first;
            let mut k: usize = 0;
            while k < rest
                invariant
                    self.tail == tail,
                    self.head == head0,
                    first == N - tail,
                    rest == l - first,
                    l <= buf@.len(),
                    rest <= N,
                    self.buf@.len() == N,
                    k <= rest,
                    forall|q: int| 0 <= q < N ==> #[trigger] self.buf@[q] == if q < k {
                        buf@[q + first]
                    } else if tail <= q {
                        buf@[q - tail]
                    } else {
                        old_buf[q]
                    },
                decreases rest - k,
            {
                self.buf[k] = buf[first + k];
                k = k + 1;
            }
            proof {
                assert(self.buf@ =~= old(self).pushed(src));
            }
        } else {
            let mut j: usize = 0;
            while j < l
                invariant
                    self.tail == tail,
                    self.head == head0,
                    tail + l <= N,
                    l <= buf@.len(),
                    self.buf@.len() == N,
                    j <= l,
                    forall|q: int| 0 <= q < N ==> #[trigger] self.buf@[q] == if tail <= q < tail + j {
                        buf@[q - tail]
                    } else {
                        old_buf[q]
                    },
                decreases l - j,
            {
                self.buf[self.tail + j] = buf[j];
                j = j + 1;
            }
            proof {
                assert(self.buf@ =~= old(self).pushed(src));
            }
        }
        self.tail = Self::wrap_around(self.tail + l);
        l
    }

    /// Takes the byte at `head` and moves `head` on by one (without wrapping),
    /// or `None` when the ring holds nothing.
    pub fn pop(&mut self) -> (r: Option<u8>)
        requires
            old(self).len_ok(),
            old(self).spec_len() > 0 ==> old(self).head < N,
        ensures
            old(self).spec_len() > 0 ==> r == Some(old(self).buf@[old(self).head as int])
                && final(self).head == old(self).head + 1,
            old(self).spec_len() == 0 ==> r is None && final(self).head == old(self).head,
            final(self).tail == old(self).tail,
            final(self).buf@ == old(self).buf@,
    {
        if self.len() > 0 {
            let result = self.buf[self.head];
            self.head = self.head + 1;
            Some(result)
        } else {
            None
        }
    }

    /// Copies `len()` bytes from `head` on (wrapping at `N` when `head <= tail`
    /// and they run past the end) into the start of `buf`, moves `head` past
    /// them and answers how many bytes that was.
    pub fn pop_x(&mut self, buf: &mut [u8]) -> (r: usize)
        requires
            N > 0,
            old(self).len_ok(),
            old(self).pop_x_ok(old(buf)@.len() as int),
        ensures
            r == old(self).spec_len(),
            final(self).head == (old(self).head + r) % (N as int),
            final(self).tail == old(self).tail,
            final(self).buf@ == old(self).buf@,
            final(buf)@.len() == old(buf)@.len(),
            forall|q: int|
                0 <= q < old(buf)@.len() ==> #[trigger] final(buf)@[q] == if q < r {
                    if old(self).head + q < N {
                        old(self).buf@[old(self).head + q]
                    } else {
                        old(self).buf@[old(self).head + q - N]
                    }
                } else {
                    old(buf)@[q]
                },
    {
        let l = self.len();
        let ghost head = self.head;
        let ghost old_dst = buf@;
        let ghost ring = self.buf@;
        if self.head <= self.tail && l + self.head > N {
            let first = N - self.head;
            let mut j: usize = 0;
            while j < l
                invariant
                    self.head == head,
                    self.buf@ == ring,
                    ring.len() == N,
                    first == N - head,
                    first < l,
                    l - first <= N,
                    l <= buf@.len(),
                    buf@.len() == old_dst.len(),
                    j <= l,
                    forall|q: int| 0 <= q < buf@.len() ==> #[trigger] buf@[q] == if q < j {
                        if head + q < N {
                            ring[head + q]
                        } else {
                            ring[head + q - N]
                        }
                    } else {
                        old_dst[q]
                    },
                decreases l - j,
            {
                if j < first {
                    buf[j] = self.buf[self.head + j];
                } else {
                    buf[j] = self.buf[j - first];
                }
                j = j + 1;
            }
        } else {
            let mut j: usize = 0;
            while j < l
                invariant
                    self.head == head,
                    self.buf@ == ring,
                    ring.len() == N,
                    head + l <= N,
                    l <= buf@.len(),
                    buf@.len() == old_dst.len(),
                    j <= l,
                    forall|q: int| 0 <= q < buf@.len() ==> #[trigger] buf@[q] == if q < j {
                        ring[head + q]
                    } else {
                        old_dst[q]
                    },
                decreases l - j,
            {
                buf[j] = self.buf[self.head + j];
                j = j + 1;
            }
        }
        self.head = Self::wrap_around(self.head + l);
        l
    }
}

/// One call on a ring of `n` bytes, as `push`, `pop` and `pop_x` state it
/// over its head and tail: `accepted` bytes taken in, `returned` given back.
pub open spec fn ring_step(h0: int, t0: int, h1: int, t1: int, n: int, accepted: int, returned: int) -> bool {
    let l = ring_len(h0, t0, n);
    ||| accepted == l && returned == 0 && h1 == h0 && t1 == (t0 + accepted) % n
    ||| accepted == 0 && l > 0 && returned == 1 && h1 == h0 + 1 && t1 == t0
    ||| accepted == 0 && l == 0 && returned == 0 && h1 == h0 && t1 == t0
    ||| accepted == 0 && returned == l && h1 == (h0 + returned) % n && t1 == t0
}

proof fn lemma_ring_zero(heads: Seq<int>, tails: Seq<int>, n: int, accepted: Seq<int>, returned: Seq<int>)
    requires
        n > 0,
        heads.len() == accepted.len() + 1,
        tails.len() == heads.len(),
        returned.len() == accepted.len(),
        heads[0] == 0,
        tails[0] == 0,
        forall|i: int|
            0 <= i < accepted.len() ==> #[trigger] ring_step(heads[i], tails[i], heads[i + 1], tails[i + 1], n, accepted[i], returned[i]),
    ensures
        forall|i: int| 0 <= i < heads.len() ==> #[trigger] heads[i] == 0 && tails[i] == 0 && seq_sum(accepted.take(i))
            == 0 && seq_sum(returned.take(i)) == 0,
    decreases accepted.len(),
{
    if accepted.len() > 0 {
        let k = accepted.len() - 1;
        lemma_ring_zero(heads.drop_last(), tails.drop_last(), n, accepted.drop_last(), returned.drop_last());
        assert forall|i: int| 0 <= i < heads.len() implies heads[i] == 0 && tails[i] == 0 && seq_sum(accepted.take(i))
            == 0 && seq_sum(returned.take(i)) == 0 by {
            if i < heads.len() - 1 {
                assert(heads.drop_last()[i] == heads[i]);
                assert(tails.drop_last()[i] == tails[i]);
                assert(accepted.drop_last().take(i) =~= accepted.take(i));
                assert(returned.drop_last().take(i) =~= returned.take(i));
            } else {
                assert(heads.drop_last()[k] == heads[k]);
                assert(tails.drop_last()[k] == tails[k]);
                assert(accepted.drop_last().take(k) =~= accepted.take(k));
                assert(returned.drop_last().take(k) =~= returned.take(k));
                assert(accepted.take(i).drop_last() =~= accepted.take(k));
                assert(returned.take(i).drop_last() =~= returned.take(k));
                assert(ring_step(heads[k], tails[k], heads[k + 1], tails[k + 1], n, accepted[k], returned[k]));
                assert(0int % n == 0) by (nonlinear_arith)
                    requires
                        n > 0,
                ;
            }
        }
    }
}

/// From a ring as `new` makes it (head and tail at 0), through any run of
/// `push`, `pop` and `pop_x`, the bytes it counts (`len`) are the bytes
/// accepted less the bytes given back, at most `n - 1`, and head and tail
/// stay inside the ring (both stay at 0: `push` accepts only as many bytes
/// as the ring holds).
pub proof fn lemma_ring_counts(heads: Seq<int>, tails: Seq<int>, n: int, accepted: Seq<int>, returned: Seq<int>)
    requires
        n > 0,
        heads.len() == accepted.len() + 1,
        tails.len() == heads.len(),
        returned.len() == accepted.len(),
        heads[0] == 0,
        tails[0] == 0,
        forall|i: int|
            0 <= i < accepted.len() ==> #[trigger] ring_step(heads[i], tails[i], heads[i + 1], tails[i + 1], n, accepted[i], returned[i]),
    ensures
        forall|i: int| 0 <= i < heads.len() ==> {
            &&& #[trigger] ring_len(heads[i], tails[i], n) == seq_sum(accepted.take(i)) - seq_sum(returned.take(i))
            &&& ring_len(heads[i], tails[i], n) <= n - 1
            &&& 0 <= heads[i] < n && 0 <= tails[i] < n
        },
{
    lemma_ring_zero(heads, tails, n, accepted, returned);
    assert forall|i: int| 0 <= i < heads.len() implies {
        &&& #[trigger] ring_len(heads[i], tails[i], n) == seq_sum(accepted.take(i)) - seq_sum(returned.take(i))
        &&& ring_len(heads[i], tails[i], n) <= n - 1
        &&& 0 <= heads[i] < n && 0 <= tails[i] < n
    } by {
        assert(heads[i] == 0 && tails[i] == 0);
    }
}

} // verus!
