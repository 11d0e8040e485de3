use vstd::prelude::*;

verus! {

/// Where a seek is measured from: the buffer start, the current position,
/// the buffer end, or the size query the codec library's seek callback also
/// answers.
#[derive(Clone, Copy, Debug, PartialEq, Eq, Structural)]
pub enum Whence {
    Start,
    Current,
    End,
    Size,
}

/// An in-memory byte cursor: the adapter a codec session reads from and
/// writes into through its custom I/O callbacks, in place of any file.  It
/// owns the buffer and a position; the position may point past the end.
#[derive(Debug)]
pub struct MemCursor {
    pub data: Vec<u8>,
    pub pos: usize,
}

/// Where a seek starts from, as a byte offset.
pub open spec fn seek_base(c: MemCursor, whence: Whence) -> int {
    match whence {
        Whence::Start => 0,
        Whence::Current => c.pos as int,
        Whence::End => c.data@.len() as int,
        Whence::Size => 0,
    }
}

/// Whether a seek target is representable: non-negative, within the
/// position type, and within the return type.
pub open spec fn seek_ok(target: int) -> bool {
    0 <= target <= usize::MAX && target <= i64::MAX
}

/// The byte at index `k` after `buf` is written into `data` at `pos`: the
/// written bytes, the old bytes around them, and zeros in the gap between
/// the old end and the write position.
pub open spec fn written_byte(data: Seq<u8>, pos: int, buf: Seq<u8>, k: int) -> u8 {
    if pos <= k < pos + buf.len() {
        buf[k - pos]
    } else if k < data.len() {
        data[k]
    } else {
        0
    }
}

impl MemCursor {
    /// Wraps a buffer, with the position at its start.
    pub fn new(data: Vec<u8>) -> (r: MemCursor)
        ensures
            r.data@ == data@,
            r.pos == 0,
    {
        MemCursor { data, pos: 0 }
    }

    /// Surrenders the buffer.
    pub fn into_inner(self) -> (r: Vec<u8>)
        ensures
            r@ == self.data@,
    {
        self.data
    }

    /// The buffer length.
    pub fn len(&self) -> (r: usize)
        ensures
            r == self.data@.len(),
    {
        self.data.len()
    }

    /// The current position.
    pub fn position(&self) -> (r: usize)
        ensures
            r == self.pos,
    {
        self.pos
    }

    /// Moves the position relative to the start, the current position or
    /// the end, or answers the size query.  Returns the new position (or
    /// the size), and -1 for a target outside the representable range; the
    /// buffer never changes, and a failed seek leaves the position alone.
    pub fn seek(&mut self, whence: Whence, offset: i64) -> (r: i64)
        ensures
            final(self).data@ == old(self).data@,
            whence == Whence::Size ==> final(self).pos == old(self).pos && (if old(
                self,
            ).data@.len() <= i64::MAX {
                r == old(self).data@.len()
            } else {
                r == -1
            }),
            whence != Whence::Size ==> {
                let target = seek_base(*old(self), whence) + offset;
                if seek_ok(target) {
                    final(self).pos == target && r == target
                } else {
                    final(self).pos == old(self).pos && r == -1
                }
            },
    {
        if matches!(whence, Whence::Size) {
            return if (self.data.len() as u64) <= 0x7fffffffffffffffu64 {
                self.data.len() as i64
            } else {
                -1
            };
        }
        let base: u64 = match whence {
            Whence::Start => 0,
            Whence::Current => self.pos as u64,
            Whence::End => self.data.len() as u64,
            Whence::Size => 0,
        };
        let target: i128 = base as i128 + offset as i128;
        if 0 <= target && target <= usize::MAX as i128 && target <= i64::MAX as i128 {
            self.pos = target as usize;
            target as i64
        } else {
            -1
        }
    }

    /// Reads up to `want` bytes at the position and advances past them: the
    /// bytes between the position and the end, capped at `want`.  A
    /// position at or past the end reads nothing, which the read callback
    /// reports as end of stream.
    pub fn read(&mut self, want: usize) -> (r: Vec<u8>)
        ensures
            final(self).data@ == old(self).data@,
            old(self).pos >= old(self).data@.len() ==> r@ == Seq::<u8>::empty() && final(self).pos
                == old(self).pos,
            old(self).pos < old(self).data@.len() ==> {
                &&& r@.len() == (if old(self).data@.len() - old(self).pos < want {
                    old(self).data@.len() - old(self).pos
                } else {
                    want as int
                })
                &&& r@ == old(self).data@.subrange(old(self).pos as int, old(self).pos + r@.len())
                &&& final(self).pos == old(self).pos + r@.len()
            },
    {
        if self.pos >= self.data.len() {
            let r: Vec<u8> = Vec::new();
            proof {
                assert(r@ =~= Seq::<u8>::empty());
            }
            return r;
        }
        let avail = self.data.len() - self.pos;
        let n = if avail < want {
            avail
        } else {
            want
        };
        let mut r: Vec<u8> = Vec::new();
        let mut i: usize = 0;
        while i < n
            invariant
                0 <= i <= n,
                self.pos + n <= self.data@.len(),
                self.data@.len() <= usize::MAX,
                r@.len() == i,
                forall|k: int| 0 <= k < i ==> r@[k] == self.data@[self.pos + k],
            decreases n - i,
        {
            r.push(self.data[self.pos + i]);
            i += 1;
        }
        proof {
            assert(r@ =~= self.data@.subrange(self.pos as int, self.pos + n));
        }
        self.pos = self.pos + n;
        r
    }

    /// Writes the buffer at the position and advances past it: bytes over
    /// the old content replace it, bytes past the end extend the buffer,
    /// and a position beyond the end first fills the gap with zeros.
    pub fn write(&mut self, buf: &[u8])
        requires
            old(self).pos + buf@.len() <= usize::MAX,
        ensures
            final(self).pos == old(self).pos + buf@.len(),
            final(self).data@.len() == (if old(self).data@.len() >= old(self).pos + buf@.len() {
                old(self).data@.len() as int
            } else {
                old(self).pos + buf@.len()
            }),
            forall|k: int|
                0 <= k < final(self).data@.len() ==> final(self).data@[k] == written_byte(
                    old(self).data@,
                    old(self).pos as int,
                    buf@,
                    k,
                ),
    {
        let ghost oldd = self.data@;
        let ghost p = self.pos as int;
        while self.data.len() < self.pos
            invariant
                self.pos == p,
                self.pos + buf@.len() <= usize::MAX,
                oldd.len() <= self.data@.len() <= p || self.data@.len() == oldd.len(),
                self.data@.len() >= oldd.len(),
                self.data@.len() <= (if oldd.len() >= p {
                    oldd.len() as int
                } else {
                    p
                }),
                forall|k: int| 0 <= k < oldd.len() ==> self.data@[k] == oldd[k],
                forall|k: int| oldd.len() <= k < self.data@.len() ==> self.data@[k] == 0,
            decreases p - self.data@.len(),
        {
            self.data.push(0);
        }
        let mut i: usize = 0;
        while i < buf.len()
            invariant
                0 <= i <= buf@.len(),
                self.pos == p,
                self.pos + buf@.len() <= usize::MAX,
                self.data@.len() >= (if oldd.len() >= p {
                    oldd.len() as int
                } else {
                    p
                }),
                self.data@.len() == (if oldd.len() >= p + i {
                    oldd.len() as int
                } else {
                    p + i
                }),
                forall|k: int| 0 <= k < oldd.len() && !(p <= k < p + i) ==> self.data@[k] == oldd[k],
                forall|k: int| oldd.len() <= k < self.data@.len() && !(p <= k < p + i) ==> self.data@[k] == 0,
                forall|k: int| p <= k < p + i ==> self.data@[k] == buf@[k - p],
            decreases buf@.len() - i,
        {
            if self.pos + i < self.data.len() {
                let idx = self.pos + i;
                self.data[idx] = buf[i];
            } else {
                self.data.push(buf[i]);
            }
            i += 1;
        }
        self.pos = self.pos + buf.len();
    }
}

} // verus!
