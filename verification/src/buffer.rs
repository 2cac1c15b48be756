//! Bounded per-pane output buffers. A pane keeps no scrollback: its buffer
//! is append-only up to a fixed capacity, and once the capacity is
//! exceeded the oldest bytes are dropped first, so the buffer always holds
//! the most recent `cap` bytes that arrived.

use vstd::prelude::*;

verus! {

/// What appending `bytes` to `data` retains under capacity `cap`: the
/// whole concatenation if it fits, otherwise its most recent `cap` bytes.
pub open spec fn spec_append(data: Seq<u8>, bytes: Seq<u8>, cap: int) -> Seq<u8> {
    let all = data + bytes;
    if all.len() <= cap {
        all
    } else {
        all.subrange(all.len() - cap, all.len() as int)
    }
}

/// A bounded byte buffer holding the most recent output of one pane.
pub struct PaneBuffer {
    cap: usize,
    data: Vec<u8>,
}

impl PaneBuffer {
    /// The bytes currently held, oldest first.
    pub closed spec fn contents(self) -> Seq<u8> {
        self.data@
    }

    /// The configured capacity.
    pub closed spec fn capacity(self) -> int {
        self.cap as int
    }

    /// The buffer never holds more than its capacity.
    pub closed spec fn wf(self) -> bool {
        self.data@.len() <= self.cap
    }

    /// An empty buffer with capacity `cap`.
    pub fn new(cap: usize) -> (b: PaneBuffer)
        ensures
            b.wf(),
            b.capacity() == cap,
            b.contents() == Seq::<u8>::empty(),
    {
        PaneBuffer { cap, data: Vec::new() }
    }

    /// The held bytes, for rendering.
    pub fn bytes(&self) -> (r: &Vec<u8>)
        ensures
            r@ == self.contents(),
    {
        &self.data
    }

    /// How many bytes are held.
    pub fn len(&self) -> (n: usize)
        ensures
            n == self.contents().len(),
    {
        self.data.len()
    }

    /// Append `bytes`, dropping the oldest bytes first once the capacity
    /// is exceeded: afterwards the buffer holds exactly the most recent
    /// `capacity` bytes of the old contents followed by `bytes`.
    pub fn append(&mut self, bytes: &[u8])
        requires
            old(self).wf(),
        ensures
            final(self).wf(),
            final(self).capacity() == old(self).capacity(),
            final(self).contents() == spec_append(
                old(self).contents(),
                bytes@,
                old(self).capacity(),
            ),
    {
        let ghost all = old(self).contents() + bytes@;
        if bytes.len() >= self.cap {
            let start = bytes.len() - self.cap;
            let mut fresh: Vec<u8> = Vec::new();
            let mut j: usize = start;
            while j < bytes.len()
                invariant
                    start <= j <= bytes@.len(),
                    fresh@ == bytes@.subrange(start as int, j as int),
                decreases bytes@.len() - j,
            {
                fresh.push(bytes[j]);
                proof {
                    assert(fresh@ =~= bytes@.subrange(start as int, j + 1));
                }
                j += 1;
            }
            self.data = fresh;
            proof {
                if all.len() <= self.cap {
                    assert(self.data@ =~= all);
                } else {
                    assert(self.data@ =~= all.subrange(all.len() - self.cap, all.len() as int));
                }
            }
        } else if self.data.len() <= self.cap - bytes.len() {
            let mut j: usize = 0;
            let ghost before = self.data@;
            while j < bytes.len()
                invariant
                    j <= bytes@.len(),
                    self.data@ == before + bytes@.subrange(0, j as int),
                    self.cap == old(self).cap,
                decreases bytes@.len() - j,
            {
                let b = bytes[j];
                self.data.push(b);
                proof {
                    assert(self.data@ =~= before + bytes@.subrange(0, j + 1));
                }
                j += 1;
            }
            proof {
                assert(self.data@ =~= all);
            }
        } else {
            let keep_old = self.cap - bytes.len();
            let start = self.data.len() - keep_old;
            let mut fresh: Vec<u8> = Vec::new();
            let mut j: usize = start;
            while j < self.data.len()
                invariant
                    start <= j <= self.data@.len(),
                    fresh@ == self.data@.subrange(start as int, j as int),
                decreases self.data@.len() - j,
            {
                fresh.push(self.data[j]);
                proof {
                    assert(fresh@ =~= self.data@.subrange(start as int, j + 1));
                }
                j += 1;
            }
            let mut j2: usize = 0;
            let ghost mid = fresh@;
            while j2 < bytes.len()
                invariant
                    j2 <= bytes@.len(),
                    fresh@ == mid + bytes@.subrange(0, j2 as int),
                decreases bytes@.len() - j2,
            {
                fresh.push(bytes[j2]);
                proof {
                    assert(fresh@ =~= mid + bytes@.subrange(0, j2 + 1));
                }
                j2 += 1;
            }
            self.data = fresh;
            proof {
                assert(self.data@ =~= all.subrange(all.len() - self.cap, all.len() as int));
            }
        }
    }
}

} // verus!
