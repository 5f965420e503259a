//! Anonymous pipes: a first-in first-out byte buffer with a write end and a
//! read end.
use vstd::prelude::*;
use std::collections::VecDeque;
use crate::error::ErrorNum;

verus! {

/// The bytes written into a pipe and not read yet.
pub struct PipeBufferInner {
    pub buffer: VecDeque<u8>,
}

impl View for PipeBufferInner {
    type V = Seq<u8>;

    open spec fn view(&self) -> Seq<u8> {
        self.buffer@
    }
}

impl PipeBufferInner {
    /// An empty buffer.
    pub fn new() -> (r: Self)
        ensures
            r@ == Seq::<u8>::empty(),
    {
        Self { buffer: VecDeque::new() }
    }
}

/// The shared buffer of a pipe.
pub struct PipeBuffer {
    pub inner: PipeBufferInner,
}

impl View for PipeBuffer {
    type V = Seq<u8>;

    open spec fn view(&self) -> Seq<u8> {
        self.inner@
    }
}

impl PipeBuffer {
    /// An empty pipe buffer.
    pub fn new() -> (r: Self)
        ensures
            r@ == Seq::<u8>::empty(),
    {
        Self { inner: PipeBufferInner::new() }
    }

    /// Number of bytes waiting to be read.
    pub fn byte_count(&self) -> (r: usize)
        ensures
            r == self@.len(),
    {
        proof {
            vstd::std_specs::vecdeque::axiom_spec_len(&self.inner.buffer);
        }
        self.inner.buffer.len()
    }

    /// Appends `data` after the bytes already waiting.
    pub fn write(&mut self, data: Vec<u8>)
        ensures
            final(self)@ == old(self)@ + data@,
    {
        let mut i: usize = 0;
        while i < data.len()
            invariant
                i <= data@.len(),
                self@ == old(self)@ + data@.subrange(0, i as int),
            decreases data@.len() - i,
        {
            self.inner.buffer.push_back(data[i]);
            proof {
                assert(data@.subrange(0, i + 1) =~= data@.subrange(0, i as int).push(data@[i as int]));
            }
            i = i + 1;
        }
        proof {
            assert(data@.subrange(0, data@.len() as int) =~= data@);
        }
    }

    /// Takes the first `length` bytes, or `None` (taking nothing) when fewer
    /// than `length` bytes are waiting.
    pub fn read(&mut self, length: usize) -> (r: Option<Vec<u8>>)
        ensures
            length <= old(self)@.len() ==> (r matches Some(v) && v@ == old(self)@.subrange(
                0,
                length as int,
            ) && final(self)@ == old(self)@.subrange(length as int, old(self)@.len() as int)),
            length > old(self)@.len() ==> (r is None && final(self)@ == old(self)@),
    {
        proof {
            vstd::std_specs::vecdeque::axiom_spec_len(&self.inner.buffer);
        }
        if length <= self.inner.buffer.len() {
            let mut new_buf = self.inner.buffer.split_off(length);
            std::mem::swap(&mut self.inner.buffer, &mut new_buf);
            let mut res: Vec<u8> = Vec::new();
            let mut i: usize = 0;
            proof {
                vstd::std_specs::vecdeque::axiom_spec_len(&new_buf);
            }
            while i < new_buf.len()
                invariant
                    new_buf@.len() == length,
                    i <= length,
                    res@ == new_buf@.subrange(0, i as int),
                decreases length - i,
            {
                proof {
                    vstd::std_specs::vecdeque::axiom_spec_len(&new_buf);
                }
                res.push(new_buf[i]);
                proof {
                    assert(new_buf@.subrange(0, i + 1) =~= new_buf@.subrange(0, i as int).push(
                        new_buf@[i as int],
                    ));
                }
                i = i + 1;
            }
            proof {
                assert(new_buf@.subrange(0, length as int) =~= new_buf@);
            }
            Some(res)
        } else {
            None
        }
    }
}

/// What a read on the read end of a pipe comes to.
pub enum PipeReadOutcome {
    /// The bytes read.
    Data(Vec<u8>),
    /// Too few bytes are waiting: the reader has to wait and try again.
    Wait,
    /// The write end is gone.
    Broken,
}

/// The end of a pipe that bytes are written into; it keeps the buffer alive.
pub struct PipeWriteEnd {
    pub buffer: PipeBuffer,
}

/// The end of a pipe that bytes are read from; it reaches the buffer only
/// while the write end lives.
pub struct PipeReadEnd {}

/// A new pipe with an empty buffer.
pub fn new_pipe() -> (r: (PipeReadEnd, PipeWriteEnd))
    ensures
        r.1.buffer@ == Seq::<u8>::empty(),
{
    let buffer = PipeBuffer::new();
    (PipeReadEnd {  }, PipeWriteEnd { buffer })
}

impl PipeWriteEnd {
    /// Writes all of `data` into the pipe and answers how many bytes that was.
    pub fn write(&mut self, data: Vec<u8>) -> (r: Result<usize, ErrorNum>)
        ensures
            r == Ok::<usize, ErrorNum>(data@.len() as usize),
            final(self).buffer@ == old(self).buffer@ + data@,
    {
        let len = data.len();
        self.buffer.write(data);
        Ok(len)
    }

    /// The write end cannot be read.
    pub fn read(&self, _length: usize) -> (r: Result<Vec<u8>, ErrorNum>)
        ensures
            r matches Err(e) && e == ErrorNum::EPERM,
    {
        Err(ErrorNum::EPERM)
    }

    /// Size the write end reports: the bytes waiting.
    pub fn file_size(&self) -> (r: usize)
        ensures
            r == self.buffer@.len(),
    {
        self.buffer.byte_count()
    }
}

impl PipeReadEnd {
    /// One attempt at reading `length` bytes from the pipe whose write end
    /// holds `buffer` (`None` once the write end is gone).
    pub fn read_step(&self, buffer: Option<&mut PipeBuffer>, length: usize) -> (r: PipeReadOutcome)
        ensures
            buffer is None ==> r is Broken,
            buffer matches Some(b) ==> (if length <= b@.len() {
                (r matches PipeReadOutcome::Data(v) && v@ == b@.subrange(0, length as int))
            } else {
                r is Wait
            }),
            buffer matches Some(b) ==> (if length <= b@.len() {
                final(b)@ == b@.subrange(length as int, b@.len() as int)
            } else {
                final(b)@ == b@
            }),
    {
        match buffer {
            Some(b) => match b.read(length) {
                Some(res) => PipeReadOutcome::Data(res),
                None => PipeReadOutcome::Wait,
            },
            None => PipeReadOutcome::Broken,
        }
    }

    /// The read end cannot be written.
    pub fn write(&self, _data: Vec<u8>) -> (r: Result<usize, ErrorNum>)
        ensures
            r matches Err(e) && e == ErrorNum::EPERM,
    {
        Err(ErrorNum::EPERM)
    }

    /// Size the read end reports: the bytes waiting, or 0 once the write end is gone.
    pub fn file_size(&self, buffer: Option<&PipeBuffer>) -> (r: usize)
        ensures
            buffer matches Some(b) ==> r == b@.len(),
            buffer is None ==> r == 0,
    {
        match buffer {
            Some(b) => b.byte_count(),
            None => 0,
        }
    }
}

/// What a read returns is what was written, in the same order: after writing
/// `data` into a pipe holding `before`, reading `length` bytes with
/// `length <= before.len() + data.len()` yields the first `length` bytes of
/// `before + data` and leaves the rest.
pub proof fn lemma_pipe_fifo(before: Seq<u8>, data: Seq<u8>, length: nat)
    requires
        length <= before.len() + data.len(),
    ensures
        (before + data).subrange(0, length as int) + (before + data).subrange(
            length as int,
            (before + data).len() as int,
        ) == before + data,
        length <= before.len() ==> (before + data).subrange(0, length as int) == before.subrange(
            0,
            length as int,
        ),
{
    assert((before + data).subrange(0, length as int) + (before + data).subrange(
        length as int,
        (before + data).len() as int,
    ) =~= before + data);
    if length <= before.len() {
        assert((before + data).subrange(0, length as int) =~= before.subrange(0, length as int));
    }
}

/// The sum of the numbers `s`.
pub open spec fn seq_sum(s: Seq<int>) -> int
    decreases s.len(),
{
    if s.len() == 0 {
        0
    } else {
        seq_sum(s.drop_last()) + s.last()
    }
}

/// One call on a pipe's buffer, as `write` and `read` state it: the bytes
/// go from `before` to `after`, `written` bytes accepted and `taken` bytes
/// handed out (0 for a refused read).
pub open spec fn pipe_step(before: Seq<u8>, after: Seq<u8>, written: int, taken: int) -> bool {
    ||| (exists|d: Seq<u8>| after == before + d && written == d.len()) && taken == 0
    ||| written == 0 && 0 <= taken <= before.len() && after == before.subrange(taken, before.len() as int)
    ||| written == 0 && taken == 0 && after == before
}

/// A pipe's byte count, from an empty buffer through any run of writes and
/// reads, is the bytes written less the bytes read.
pub proof fn lemma_pipe_counts(states: Seq<Seq<u8>>, written: Seq<int>, taken: Seq<int>)
    requires
        states.len() == written.len() + 1,
        taken.len() == written.len(),
        states[0].len() == 0,
        forall|i: int| 0 <= i < written.len() ==> #[trigger] pipe_step(states[i], states[i + 1], written[i], taken[i]),
    ensures
        forall|i: int| 0 <= i < states.len() ==> #[trigger] states[i].len() == seq_sum(written.take(i)) - seq_sum(
            taken.take(i),
        ),
    decreases written.len(),
{
    if written.len() > 0 {
        let n = written.len() - 1;
        lemma_pipe_counts(states.drop_last(), written.drop_last(), taken.drop_last());
        assert forall|i: int| 0 <= i < states.len() implies #[trigger] states[i].len() == seq_sum(written.take(i))
            - seq_sum(taken.take(i)) by {
            if i < states.len() - 1 {
                assert(states.drop_last()[i] == states[i]);
                assert(written.drop_last().take(i) =~= written.take(i));
                assert(taken.drop_last().take(i) =~= taken.take(i));
            } else {
                assert(states.drop_last()[n] == states[n]);
                assert(written.drop_last().take(n) =~= written.take(n));
                assert(taken.drop_last().take(n) =~= taken.take(n));
                assert(written.take(i).drop_last() =~= written.take(n));
                assert(taken.take(i).drop_last() =~= taken.take(n));
                assert(pipe_step(states[n], states[n + 1], written[n], taken[n]));
            }
        }
    }
}

} // verus!
