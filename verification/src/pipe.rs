//! Anonymous pipes: a bounded byte ring shared by reader and writer ends.
//!
//! The ring keeps the bytes written and not yet read, in order. A read
//! takes a prefix of them; a write appends as much of its input as fits.
//! Blocking and waking happen around these steps: each step reports what
//! the caller must do when nothing can move.
use vstd::prelude::*;

verus! {

/// Bytes a pipe can hold.
pub const PIPE_CAPACITY: usize = 4096;

/// Poll event bits (Linux `POLLIN`, `POLLOUT`, `POLLERR`, `POLLHUP`).
pub const POLL_IN: u32 = 0x1;
pub const POLL_OUT: u32 = 0x4;
pub const POLL_ERR: u32 = 0x8;
pub const POLL_HUP: u32 = 0x10;

/// Open flags accepted by `pipe2` (Linux `O_NONBLOCK`, `O_CLOEXEC`).
pub const O_NONBLOCK: u32 = 0o4000;
pub const O_CLOEXEC: u32 = 0o2000000;

#[derive(Clone, Copy, Debug, PartialEq, Eq, Structural)]
pub enum PipeError {
    /// `pipe2` was given a flag other than `O_NONBLOCK` / `O_CLOEXEC`.
    InvalidFlags,
}

/// Outcome of one read step.
#[derive(Debug)]
pub enum ReadStep {
    /// These bytes were taken from the pipe (at least one).
    Data(Vec<u8>),
    /// The pipe is empty and no writer remains: end of file.
    EndOfFile,
    /// The pipe is empty but a writer remains: wait, or fail with `EAGAIN`.
    Empty,
}

/// Outcome of one write step.
#[derive(Clone, Copy, Debug, PartialEq, Eq, Structural)]
pub enum WriteStep {
    /// This many input bytes were appended (at least one).
    Written(usize),
    /// No reader remains: `EPIPE` (or a short count if bytes were written earlier).
    Broken,
    /// The pipe is full: wait, or fail with `EAGAIN`.
    Full,
}

/// The shared state of one pipe.
pub struct PipeState {
    pub buffer: Vec<u8>,
    pub head: usize,
    pub len: usize,
    pub readers: usize,
    pub writers: usize,
}

impl PipeState {
    pub open spec fn wf(&self) -> bool {
        &&& self.buffer@.len() == PIPE_CAPACITY
        &&& self.head < PIPE_CAPACITY
        &&& self.len <= PIPE_CAPACITY
    }

    /// The bytes written and not yet read, oldest first.
    pub open spec fn contents(&self) -> Seq<u8> {
        Seq::new(self.len as nat, |i: int| self.buffer@[(self.head + i) % (PIPE_CAPACITY as int)])
    }

    /// A fresh pipe with one reader, one writer and no data.
    pub fn new() -> (pipe: Self)
        ensures
            pipe.wf(),
            pipe.contents() == Seq::<u8>::empty(),
            pipe.readers == 1,
            pipe.writers == 1,
    {
        let mut buffer: Vec<u8> = Vec::new();
        let mut i: usize = 0;
        while i < PIPE_CAPACITY
            invariant
                i <= PIPE_CAPACITY,
                buffer@.len() == i,
            decreases PIPE_CAPACITY - i,
        {
            buffer.push(0);
            i = i + 1;
        }
        let pipe = PipeState { buffer, head: 0, len: 0, readers: 1, writers: 1 };
        assert(pipe.contents() =~= Seq::<u8>::empty());
        pipe
    }

    /// Takes up to `capacity` bytes from the front of the pipe.
    pub fn read(&mut self, capacity: usize) -> (step: ReadStep)
        requires
            old(self).wf(),
        ensures
            final(self).wf(),
            final(self).readers == old(self).readers,
            final(self).writers == old(self).writers,
            old(self).len == 0 ==> final(self).contents() == old(self).contents()
                && step is EndOfFile == (old(self).writers == 0)
                && step is Empty == (old(self).writers != 0),
            old(self).len != 0 ==> ({
                let n = if capacity < old(self).len { capacity as int } else { old(self).len as int };
                &&& step matches ReadStep::Data(bytes)
                &&& bytes@ == old(self).contents().take(n)
                &&& final(self).contents() == old(self).contents().skip(n)
            }),
    {
        if self.len == 0 {
            if self.writers == 0 {
                return ReadStep::EndOfFile;
            }
            return ReadStep::Empty;
        }
        let ghost entry_view = self.contents();
        let mut out: Vec<u8> = Vec::new();
        while self.len > 0 && out.len() < capacity
            invariant
                self.wf(),
                self.readers == old(self).readers,
                self.writers == old(self).writers,
                out@.len() <= capacity,
                out@ + self.contents() == entry_view,
            decreases self.len,
        {
            let available = if self.len < PIPE_CAPACITY - self.head { self.len } else { PIPE_CAPACITY - self.head };
            let wanted = capacity - out.len();
            let chunk = if available < wanted { available } else { wanted };
            let start = self.head;
            let ghost before_out = out@;
            let ghost before_contents = self.contents();
            let mut k: usize = 0;
            while k < chunk
                invariant
                    self.wf(),
                    start == self.head,
                    chunk <= self.len,
                    start + chunk <= PIPE_CAPACITY,
                    k <= chunk,
                    before_contents == self.contents(),
                    out@ == before_out + before_contents.take(k as int),
                decreases chunk - k,
            {
                out.push(self.buffer[start + k]);
                proof {
                    assert(before_contents[k as int] == self.buffer@[(start + k) as int]);
                    assert(before_contents.take(k as int + 1) =~= before_contents.take(k as int).push(before_contents[k as int]));
                }
                k = k + 1;
            }
            self.head = (start + chunk) % PIPE_CAPACITY;
            self.len = self.len - chunk;
            proof {
                assert(self.contents() =~= before_contents.skip(chunk as int));
                assert(before_contents =~= before_contents.take(chunk as int) + before_contents.skip(chunk as int));
                assert(out@ + self.contents() =~= before_out + before_contents);
            }
        }
        proof {
            let n = if capacity < old(self).len { capacity as int } else { old(self).len as int };
            assert(out@.len() == n);
            assert(out@ =~= entry_view.take(n));
            assert(self.contents() =~= entry_view.skip(n));
        }
        ReadStep::Data(out)
    }

    /// Appends as much of `input` as fits into the pipe.
    pub fn write(&mut self, input: &[u8]) -> (step: WriteStep)
        requires
            old(self).wf(),
        ensures
            final(self).wf(),
            final(self).readers == old(self).readers,
            final(self).writers == old(self).writers,
            old(self).readers == 0 ==> step == WriteStep::Broken && final(self).contents() == old(self).contents(),
            old(self).readers != 0 && old(self).len == PIPE_CAPACITY ==>
                step == WriteStep::Full && final(self).contents() == old(self).contents(),
            old(self).readers != 0 && old(self).len < PIPE_CAPACITY ==> ({
                let room = PIPE_CAPACITY - old(self).len;
                let n = if input@.len() < room { input@.len() as int } else { room as int };
                &&& step == WriteStep::Written(n as usize)
                &&& final(self).contents() == old(self).contents() + input@.take(n)
            }),
    {
        if self.readers == 0 {
            return WriteStep::Broken;
        }
        if self.len == PIPE_CAPACITY {
            return WriteStep::Full;
        }
        let ghost entry_view = self.contents();
        let mut copied: usize = 0;
        while copied < input.len() && self.len < PIPE_CAPACITY
            invariant
                self.wf(),
                self.readers == old(self).readers,
                self.writers == old(self).writers,
                copied <= input@.len(),
                self.contents() == entry_view + input@.take(copied as int),
                self.len == entry_view.len() + copied,
            decreases input@.len() - copied,
        {
            let tail = (self.head + self.len) % PIPE_CAPACITY;
            let room = PIPE_CAPACITY - self.len;
            let writable = if tail >= self.head { PIPE_CAPACITY - tail } else { self.head - tail };
            let writable = if writable < room { writable } else { room };
            let remaining = input.len() - copied;
            let chunk = if writable < remaining { writable } else { remaining };
            let mut k: usize = 0;
            while k < chunk
                invariant
                    self.wf(),
                    self.readers == old(self).readers,
                    self.writers == old(self).writers,
                    (tail + k) % (PIPE_CAPACITY as int) == (self.head + self.len) % (PIPE_CAPACITY as int),
                    tail + chunk <= PIPE_CAPACITY,
                    entry_view.len() + copied + chunk <= PIPE_CAPACITY,
                    copied + chunk <= input@.len(),
                    k <= chunk,
                    self.contents() == entry_view + input@.take((copied + k) as int),
                    self.len == entry_view.len() + copied + k,
                decreases chunk - k,
            {
                let ghost before = self.contents();
                let position = tail + k;
                assert(position == (self.head + self.len) % (PIPE_CAPACITY as int)) by {
                    assert(tail + k < PIPE_CAPACITY);
                    assert((tail + k) % (PIPE_CAPACITY as int) == tail + k);
                }
                self.buffer.set(position, input[copied + k]);
                self.len = self.len + 1;
                proof {
                    assert forall|i: int| 0 <= i < before.len() implies self.contents()[i] == before[i] by {
                        assert((self.head + i) % (PIPE_CAPACITY as int) != position as int);
                    }
                    assert(self.contents() =~= before.push(input@[(copied + k) as int]));
                    assert(input@.take((copied + k + 1) as int) =~= input@.take((copied + k) as int).push(input@[(copied + k) as int]));
                }
                k = k + 1;
            }
            copied = copied + chunk;
            assert(chunk > 0) by {
                assert(tail < PIPE_CAPACITY);
                if tail < self.head {
                } else {
                }
            }
        }
        WriteStep::Written(copied)
    }

    /// A reader end closed; the endpoint count never underflows.
    pub fn close_reader(&mut self)
        ensures
            final(self).readers == (if old(self).readers == 0 { 0 } else { (old(self).readers - 1) as usize }),
            final(self).writers == old(self).writers,
            final(self).buffer == old(self).buffer,
            final(self).head == old(self).head,
            final(self).len == old(self).len,
    {
        self.readers = self.readers.saturating_sub(1);
    }

    /// The reader side is gone for good (process exit of the last owner).
    pub fn exit_reader(&mut self)
        ensures
            final(self).readers == 0,
            final(self).writers == old(self).writers,
            final(self).buffer == old(self).buffer,
            final(self).head == old(self).head,
            final(self).len == old(self).len,
    {
        self.readers = 0;
    }

    /// A writer end closed; the endpoint count never underflows.
    pub fn close_writer(&mut self)
        ensures
            final(self).writers == (if old(self).writers == 0 { 0 } else { (old(self).writers - 1) as usize }),
            final(self).readers == old(self).readers,
            final(self).buffer == old(self).buffer,
            final(self).head == old(self).head,
            final(self).len == old(self).len,
    {
        self.writers = self.writers.saturating_sub(1);
    }

    /// The writer side is gone for good.
    pub fn exit_writer(&mut self)
        ensures
            final(self).writers == 0,
            final(self).readers == old(self).readers,
            final(self).buffer == old(self).buffer,
            final(self).head == old(self).head,
            final(self).len == old(self).len,
    {
        self.writers = 0;
    }

    /// Readiness of the reader end among `requested` (hang-up always reported).
    pub fn reader_poll(&self, requested: u32) -> (ready: u32)
        ensures
            ready == ((if self.len != 0 || self.writers == 0 { POLL_IN } else { 0 })
                | (if self.writers == 0 { POLL_HUP } else { 0 })) & (requested | POLL_HUP),
    {
        let mut ready: u32 = 0;
        if self.len != 0 || self.writers == 0 {
            ready = ready | POLL_IN;
        }
        if self.writers == 0 {
            ready = ready | POLL_HUP;
        }
        proof {
            assert(0u32 | POLL_IN == POLL_IN) by (bit_vector);
            assert(0u32 | POLL_HUP == POLL_HUP) by (bit_vector);
            assert(0u32 | 0u32 == 0u32) by (bit_vector);
            assert(POLL_IN | 0u32 == POLL_IN) by (bit_vector);
        }
        ready & (requested | POLL_HUP)
    }

    /// Readiness of the writer end among `requested` (errors always reported).
    pub fn writer_poll(&self, requested: u32) -> (ready: u32)
        requires
            self.wf(),
        ensures
            ready == (if self.readers == 0 {
                POLL_ERR
            } else if self.len < PIPE_CAPACITY {
                POLL_OUT
            } else {
                0
            }) & (requested | POLL_ERR),
    {
        let ready: u32 = if self.readers == 0 {
            POLL_ERR
        } else if self.len < PIPE_CAPACITY {
            POLL_OUT
        } else {
            0
        };
        ready & (requested | POLL_ERR)
    }
}

/// Validates `pipe2` flags and returns the status flags both ends carry.
pub fn pipe_status_flags(flags: u32) -> (status: Result<u32, PipeError>)
    ensures
        flags & !(O_CLOEXEC | O_NONBLOCK) != 0 ==> status == Err::<u32, PipeError>(PipeError::InvalidFlags),
        flags & !(O_CLOEXEC | O_NONBLOCK) == 0 ==> status == Ok::<u32, PipeError>(
            if flags & O_NONBLOCK != 0 { O_NONBLOCK } else { 0 },
        ),
{
    let allowed = O_CLOEXEC | O_NONBLOCK;
    if flags & !allowed != 0 {
        return Err(PipeError::InvalidFlags);
    }
    if flags & O_NONBLOCK != 0 {
        Ok(O_NONBLOCK)
    } else {
        Ok(0)
    }
}

/// Bytes come out of a pipe in the order they went in: writing `input` to
/// a pipe holding `held` and then reading everything returns `held`
/// followed by the written prefix of `input`.
pub proof fn lemma_pipe_is_fifo(held: Seq<u8>, input: Seq<u8>, written: int)
    requires
        0 <= written <= input.len(),
    ensures
        ({
            let after_write = held + input.take(written);
            let n = after_write.len() as int;
            &&& after_write.take(n) == held + input.take(written)
            &&& after_write.take(held.len() as int) == held
            &&& after_write.skip(held.len() as int) == input.take(written)
        }),
{
    let after_write = held + input.take(written);
    assert(after_write.take(after_write.len() as int) =~= after_write);
    assert(after_write.take(held.len() as int) =~= held);
    assert(after_write.skip(held.len() as int) =~= input.take(written));
}

} // verus!
