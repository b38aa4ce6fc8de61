//! The pull-based reader over a chunked byte stream.
//!
//! An HTTP response body arrives as a stream of chunks; the copy loop
//! wants a sequential reader. The adapter buffers one chunk at a
//! time: read requests are served from the current chunk at an
//! advancing offset, and the next chunk is pulled from the stream
//! only when the current one is exhausted. The buffering logic lives
//! here; the asynchronous shell owns the stream and the polling.

use vstd::prelude::*;

verus! {

/// One buffered chunk and the read position inside it.
pub struct ChunkBuffer {
    pub chunk: Option<Vec<u8>>,
    pub position: usize,
}

impl ChunkBuffer {
    /// The position never runs past the buffered chunk.
    pub open spec fn wf(&self) -> bool {
        match self.chunk {
            Some(c) => self.position <= c@.len(),
            None => self.position == 0,
        }
    }

    /// The bytes not yet handed out.
    pub open spec fn remaining(&self) -> Seq<u8> {
        match self.chunk {
            Some(c) => c@.subrange(self.position as int, c@.len() as int),
            None => Seq::empty(),
        }
    }

    /// An empty buffer: the next read must pull a chunk first.
    pub fn new() -> (r: ChunkBuffer)
        ensures
            r.wf(),
            r.remaining() == Seq::<u8>::empty(),
    {
        let r = ChunkBuffer { chunk: None, position: 0 };
        proof {
            assert(r.remaining() =~= Seq::<u8>::empty());
        }
        r
    }

    /// Whether the buffered chunk (if any) has been fully handed out,
    /// so the next chunk must be pulled from the stream.
    pub fn needs_pull(&self) -> (r: bool)
        requires
            self.wf(),
        ensures
            r == (self.remaining().len() == 0),
    {
        match &self.chunk {
            Some(c) => self.position == c.len(),
            None => true,
        }
    }

    /// Installs the next chunk pulled from the stream.
    pub fn supply(&mut self, chunk: Vec<u8>)
        requires
            old(self).wf(),
            old(self).remaining().len() == 0,
        ensures
            final(self).wf(),
            final(self).remaining() == chunk@,
    {
        self.position = 0;
        let ghost c = chunk@;
        self.chunk = Some(chunk);
        proof {
            assert(self.remaining() =~= c);
        }
    }

    /// Serves a read of at most `max` bytes from the buffered chunk,
    /// advancing the position: returns exactly the first
    /// `min(max, remaining)` buffered bytes.
    pub fn take(&mut self, max: usize) -> (out: Vec<u8>)
        requires
            old(self).wf(),
        ensures
            final(self).wf(),
            out@ == old(self).remaining().take(
                if max <= old(self).remaining().len() {
                    max as int
                } else {
                    old(self).remaining().len() as int
                },
            ),
            final(self).remaining() == old(self).remaining().skip(out@.len() as int),
    {
        let pos = self.position;
        match &self.chunk {
            Some(c) => {
                let clen = c.len();
                let avail = clen - pos;
                let count = if max < avail {
                    max
                } else {
                    avail
                };
                let mut out: Vec<u8> = Vec::new();
                let mut k: usize = 0;
                while k < count
                    invariant
                        k <= count,
                        clen == c@.len(),
                        pos + count <= clen,
                        out@ =~= c@.subrange(pos as int, pos + k),
                    decreases count - k,
                {
                    let b = c[pos + k];
                    out.push(b);
                    proof {
                        assert(out@ =~= c@.subrange(pos as int, pos + k + 1));
                    }
                    k = k + 1;
                }
                self.position = pos + count;
                proof {
                    let rem0 = old(self).remaining();
                    let take_n: int = if max <= rem0.len() {
                        max as int
                    } else {
                        rem0.len() as int
                    };
                    assert(out@ =~= rem0.take(take_n));
                    assert(self.remaining() =~= rem0.skip(out@.len() as int));
                }
                out
            },
            None => {
                let out: Vec<u8> = Vec::new();
                proof {
                    assert(out@ =~= old(self).remaining().take(0));
                    assert(self.remaining() =~= old(self).remaining().skip(0));
                }
                out
            },
        }
    }
}

} // verus!
