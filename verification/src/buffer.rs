//! The readiness buffer: a fixed-capacity byte buffer that is either
//! accumulating (append-only writes) or draining (read-only view over the
//! bytes written so far, with a consume cursor). The only mode transitions
//! are `flip` (accumulating to draining, freezing the written bytes) and
//! `reset` (draining to accumulating, discarding everything).

use vstd::prelude::*;

verus! {

#[derive(PartialEq, Eq, Structural, Clone, Copy, Debug)]
pub enum BufferMode {
    Accumulating,
    Draining,
}

/// One direction's buffer of a connection. `data` holds exactly the bytes
/// written since the last reset, `pos` is the drain cursor.
pub struct Buffer {
    data: Vec<u8>,
    cap: usize,
    mode: BufferMode,
    pos: usize,
}

/// What a single `write` appends: as much of `src` as still fits under the
/// capacity `cap` when `w` bytes are already accumulated.
pub open spec fn write_step(cap: int, w: Seq<u8>, src: Seq<u8>) -> Seq<u8> {
    if w.len() + src.len() <= cap {
        w + src
    } else if w.len() <= cap {
        w + src.take(cap - w.len())
    } else {
        w
    }
}

/// The accumulated contents after a whole sequence of `write` calls,
/// starting from an empty buffer of capacity `cap`.
pub open spec fn written_of(cap: int, srcs: Seq<Seq<u8>>) -> Seq<u8>
    decreases srcs.len(),
{
    if srcs.len() == 0 {
        Seq::empty()
    } else {
        write_step(cap, written_of(cap, srcs.drop_last()), srcs.last())
    }
}

/// The concatenation of a sequence of byte sequences, in order.
pub open spec fn concat_of(srcs: Seq<Seq<u8>>) -> Seq<u8>
    decreases srcs.len(),
{
    if srcs.len() == 0 {
        Seq::empty()
    } else {
        concat_of(srcs.drop_last()) + srcs.last()
    }
}

/// Any sequence of writes into an empty buffer accumulates exactly the
/// concatenation of the written bytes, in order, truncated to the capacity.
/// Together with `flip`'s postcondition this pins down the drained view.
pub proof fn lemma_writes_accumulate_truncated_concat(cap: int, srcs: Seq<Seq<u8>>)
    requires
        cap >= 0,
    ensures
        written_of(cap, srcs) == if concat_of(srcs).len() <= cap {
            concat_of(srcs)
        } else {
            concat_of(srcs).take(cap)
        },
    decreases srcs.len(),
{
    if srcs.len() == 0 {
    } else {
        lemma_writes_accumulate_truncated_concat(cap, srcs.drop_last());
        let w = written_of(cap, srcs.drop_last());
        let c = concat_of(srcs.drop_last());
        let s = srcs.last();
        if c.len() <= cap {
            if c.len() + s.len() <= cap {
                assert(written_of(cap, srcs) =~= concat_of(srcs));
            } else {
                assert(write_step(cap, w, s) =~= (c + s).take(cap));
            }
        } else {
            assert(c.take(cap).len() == cap);
            assert(write_step(cap, c.take(cap), s) == c.take(cap));
            assert(c.take(cap) =~= (c + s).take(cap));
        }
    }
}

impl Buffer {
    /// The fixed capacity chosen at construction.
    pub closed spec fn capacity(&self) -> int {
        self.cap as int
    }

    /// The bytes written since the last reset, in order.
    pub closed spec fn contents(&self) -> Seq<u8> {
        self.data@
    }

    pub closed spec fn mode(&self) -> BufferMode {
        self.mode
    }

    /// How many drained bytes have been consumed so far.
    pub closed spec fn consumed(&self) -> int {
        self.pos as int
    }

    /// Internal consistency: never more bytes than the capacity, never a
    /// cursor past the written bytes, and no cursor at all while accumulating.
    pub closed spec fn wf(&self) -> bool {
        &&& self.data@.len() <= self.cap
        &&& self.pos <= self.data@.len()
        &&& self.mode == BufferMode::Accumulating ==> self.pos == 0
    }

    pub fn new(cap: usize) -> (r: Buffer)
        ensures
            r.wf(),
            r.capacity() == cap,
            r.mode() == BufferMode::Accumulating,
            r.contents() == Seq::<u8>::empty(),
    {
        let r = Buffer { data: Vec::new(), cap, mode: BufferMode::Accumulating, pos: 0 };
        proof {
            assert(r.contents() =~= Seq::<u8>::empty());
        }
        r
    }

    pub fn mode_of(&self) -> (r: BufferMode)
        ensures
            r == self.mode(),
    {
        self.mode
    }

    /// Free space left for writing.
    pub fn remaining_space(&self) -> (n: usize)
        requires
            self.wf(),
        ensures
            n == self.capacity() - self.contents().len(),
    {
        self.cap - self.data.len()
    }

    /// Append as much of `src` as fits; a full buffer accepts nothing and
    /// returns 0, which the caller must answer with backpressure, not a retry.
    pub fn write(&mut self, src: &[u8]) -> (n: usize)
        requires
            old(self).wf(),
            old(self).mode() == BufferMode::Accumulating,
        ensures
            final(self).wf(),
            final(self).mode() == BufferMode::Accumulating,
            final(self).capacity() == old(self).capacity(),
            n == if old(self).contents().len() + src@.len() <= old(self).capacity() {
                src@.len() as int
            } else {
                old(self).capacity() - old(self).contents().len()
            },
            final(self).contents() == write_step(old(self).capacity(), old(self).contents(), src@),
    {
        let space: usize = self.cap - self.data.len();
        let n: usize = if src.len() <= space {
            src.len()
        } else {
            space
        };
        let mut i: usize = 0;
        while i < n
            invariant
                i <= n,
                n <= src@.len(),
                self.data@.len() == old(self).data@.len() + i,
                self.data@ == old(self).data@ + src@.take(i as int),
                self.cap == old(self).cap,
                self.pos == old(self).pos,
                self.mode == old(self).mode,
                old(self).data@.len() + n <= self.cap,
            decreases n - i,
        {
            let b: u8 = src[i];
            self.data.push(b);
            proof {
                assert(self.data@ =~= old(self).data@ + src@.take(i + 1));
            }
            i = i + 1;
        }
        proof {
            if old(self).contents().len() + src@.len() <= old(self).capacity() {
                assert(src@.take(n as int) =~= src@);
            }
            assert(self.data@ =~= write_step(
                old(self).capacity(),
                old(self).contents(),
                src@,
            ));
        }
        n
    }

    /// Accumulating to draining: freeze the written bytes and expose them,
    /// with the consume cursor at the front.
    pub fn flip(&mut self)
        requires
            old(self).wf(),
            old(self).mode() == BufferMode::Accumulating,
        ensures
            final(self).wf(),
            final(self).mode() == BufferMode::Draining,
            final(self).capacity() == old(self).capacity(),
            final(self).contents() == old(self).contents(),
            final(self).consumed() == 0,
    {
        self.mode = BufferMode::Draining;
        self.pos = 0;
    }

    /// Drained bytes not yet consumed.
    pub fn remaining(&self) -> (n: usize)
        requires
            self.wf(),
        ensures
            n == self.contents().len() - self.consumed(),
    {
        self.data.len() - self.pos
    }

    /// Advance the drain cursor over `n` consumed bytes.
    pub fn consume(&mut self, n: usize)
        requires
            old(self).wf(),
            old(self).mode() == BufferMode::Draining,
            n <= old(self).contents().len() - old(self).consumed(),
        ensures
            final(self).wf(),
            final(self).mode() == BufferMode::Draining,
            final(self).capacity() == old(self).capacity(),
            final(self).contents() == old(self).contents(),
            final(self).consumed() == old(self).consumed() + n,
    {
        self.pos = self.pos + n;
    }

    /// Draining to accumulating: discard everything and reopen for writing.
    /// After a full consume (and on any other drained buffer alike) this
    /// yields an empty accumulating buffer.
    pub fn reset(&mut self)
        requires
            old(self).wf(),
            old(self).mode() == BufferMode::Draining,
        ensures
            final(self).wf(),
            final(self).mode() == BufferMode::Accumulating,
            final(self).capacity() == old(self).capacity(),
            final(self).contents() == Seq::<u8>::empty(),
            final(self).consumed() == 0,
    {
        self.data.clear();
        self.mode = BufferMode::Accumulating;
        self.pos = 0;
        proof {
            assert(self.contents() =~= Seq::<u8>::empty());
        }
    }

    /// Borrow the accumulated bytes (for the parser, which always re-reads
    /// the whole head from the front).
    pub fn bytes(&self) -> (r: &Vec<u8>)
        ensures
            r@ == self.contents(),
    {
        &self.data
    }

    /// Copy out the unconsumed part of the drained view, in order.
    pub fn drained_bytes(&self) -> (r: Vec<u8>)
        requires
            self.wf(),
            self.mode() == BufferMode::Draining,
        ensures
            r@ == self.contents().skip(self.consumed()),
    {
        let mut out: Vec<u8> = Vec::new();
        let mut i: usize = self.pos;
        while i < self.data.len()
            invariant
                self.pos <= i <= self.data@.len(),
                out@ == self.data@.subrange(self.pos as int, i as int),
            decreases self.data@.len() - i,
        {
            let b: u8 = self.data[i];
            out.push(b);
            proof {
                assert(out@ =~= self.data@.subrange(self.pos as int, i + 1));
            }
            i = i + 1;
        }
        proof {
            assert(out@ =~= self.contents().skip(self.consumed()));
        }
        out
    }
}

} // verus!
