use vstd::prelude::*;

verus! {

/// Error of the fixed-size stack buffer.
#[derive(Debug, Clone, Copy, PartialEq, Eq)]
pub enum BufferError {
    /// The given operation exceeds the buffer's capacity
    OutOfBounds,
}

/// A buffer of `N` bytes with a read position and a write position.
pub struct StackBuffer<const N: usize> {
    data: Vec<u8>,
    read_position: usize,
    write_position: usize,
}

impl<const N: usize> StackBuffer<N> {
    pub open spec fn wf(&self) -> bool {
        &&& self.bytes().len() == N
        &&& self.read_pos() <= self.write_pos() <= N
    }

    /// All `N` bytes
    pub closed spec fn bytes(&self) -> Seq<u8> {
        self.data@
    }

    pub closed spec fn read_pos(&self) -> nat {
        self.read_position as nat
    }

    pub closed spec fn write_pos(&self) -> nat {
        self.write_position as nat
    }

    /// The readable bytes
    pub open spec fn readable(&self) -> Seq<u8> {
        self.bytes().subrange(self.read_pos() as int, self.write_pos() as int)
    }

    pub fn new() -> (b: Self)
        ensures
            b.wf(),
            b.bytes() == Seq::new(N as nat, |i: int| 0u8),
            b.read_pos() == 0,
            b.write_pos() == 0,
    {
        let data: Vec<u8> = vec![0u8; N];
        proof {
            assert(data@ =~= Seq::new(N as nat, |i: int| 0u8));
        }
        StackBuffer { data, read_position: 0, write_position: 0 }
    }

    /// Returns the readable bytes
    pub fn reaable_data(&self) -> (r: &[u8])
        requires
            self.wf(),
        ensures
            r@ == self.readable(),
    {
        let s = self.data.as_slice();
        &s[self.read_position..self.write_position]
    }

    /// Returns the bytes behind the write position; where the write
    /// position is at the end, the buffer is flipped first.
    pub fn writeable_data(&mut self) -> (r: &mut [u8])
        requires
            old(self).wf(),
        ensures
            ({
                let (b, rp, wp) = old(self).write_view();
                &&& r@ == b.subrange(wp as int, N as int)
                &&& final(self).read_pos() == rp
                &&& final(self).write_pos() == wp
                &&& final(self).bytes() == b.subrange(0, wp as int) + final(r)@
            }),
    {
        if self.write_position == self.data.len() {
            self.flip();
        }
        let w = self.write_position;
        let (_, tail) = self.data.as_mut_slice().split_at_mut(w);
        tail
    }

    /// Number of bytes behind the write position (after the flip that
    /// `writeable_data` makes where the write position is at the end).
    pub fn writeable_len(&mut self) -> (n: usize)
        requires
            old(self).wf(),
        ensures
            final(self).wf(),
            ({
                let (b, rp, wp) = old(self).write_view();
                &&& final(self).bytes() == b
                &&& final(self).read_pos() == rp
                &&& final(self).write_pos() == wp
                &&& n == N - wp
            }),
    {
        if self.write_position == self.data.len() {
            self.flip();
        }
        self.data.len() - self.write_position
    }

    /// Marks `bytes_read` readable bytes as read.
    pub fn add_bytes_read(&mut self, bytes_read: usize) -> (r: Result<(), BufferError>)
        requires
            old(self).wf(),
        ensures
            final(self).wf(),
            final(self).bytes() == old(self).bytes(),
            final(self).write_pos() == old(self).write_pos(),
            old(self).read_pos() + bytes_read > old(self).write_pos() ==> r == Err::<(), BufferError>(BufferError::OutOfBounds)
                && final(self).read_pos() == old(self).read_pos(),
            old(self).read_pos() + bytes_read <= old(self).write_pos() ==> r == Ok::<(), BufferError>(())
                && final(self).read_pos() == old(self).read_pos() + bytes_read,
    {
        if bytes_read > self.write_position - self.read_position {
            Err(BufferError::OutOfBounds)
        } else {
            self.read_position = self.read_position + bytes_read;
            Ok(())
        }
    }

    /// Marks `bytes_written` bytes behind the write position as readable.
    pub fn commit_bytes_written(&mut self, bytes_written: usize) -> (r: Result<(), BufferError>)
        requires
            old(self).wf(),
        ensures
            final(self).wf(),
            final(self).bytes() == old(self).bytes(),
            final(self).read_pos() == old(self).read_pos(),
            old(self).write_pos() + bytes_written > N ==> r == Err::<(), BufferError>(BufferError::OutOfBounds)
                && final(self).write_pos() == old(self).write_pos(),
            old(self).write_pos() + bytes_written <= N ==> r == Ok::<(), BufferError>(())
                && final(self).write_pos() == old(self).write_pos() + bytes_written,
    {
        if bytes_written > self.data.len() - self.write_position {
            Err(BufferError::OutOfBounds)
        } else {
            self.write_position = self.write_position + bytes_written;
            Ok(())
        }
    }

    /// The bytes after a flip: rotated left by the read position.
    pub open spec fn flip_bytes(&self) -> Seq<u8> {
        self.bytes().subrange(self.read_pos() as int, N as int) + self.bytes().subrange(0, self.read_pos() as int)
    }

    /// Whether a write access flips first: the write position is at the end.
    pub open spec fn flips_on_write(&self) -> bool {
        self.write_pos() == N
    }

    /// The bytes, read position and write position seen by a write access.
    pub open spec fn write_view(&self) -> (Seq<u8>, nat, nat) {
        if self.flips_on_write() {
            (self.flip_bytes(), 0, (self.write_pos() - self.read_pos()) as nat)
        } else {
            (self.bytes(), self.read_pos(), self.write_pos())
        }
    }

    /// Rotates the bytes so that the readable bytes start at the beginning.
    pub fn flip(&mut self)
        requires
            old(self).wf(),
        ensures
            final(self).wf(),
            old(self).read_pos() == 0 ==> *final(self) == *old(self),
            old(self).read_pos() > 0 ==> {
                &&& final(self).read_pos() == 0
                &&& final(self).write_pos() == old(self).write_pos() - old(self).read_pos()
                &&& final(self).bytes() == old(self).flip_bytes()
            },
            final(self).readable() == old(self).readable(),
    {
        if self.read_position > 0 {
            let r = self.read_position;
            let len = self.data.len();
            let mut rotated: Vec<u8> = Vec::new();
            let mut i = r;
            while i < len
                invariant
                    r <= i <= len,
                    len == self.data@.len(),
                    rotated@ == self.data@.subrange(r as int, i as int),
                decreases len - i,
            {
                rotated.push(self.data[i]);
                i = i + 1;
            }
            let mut j: usize = 0;
            while j < r
                invariant
                    j <= r <= len,
                    len == self.data@.len(),
                    rotated@ == self.data@.subrange(r as int, len as int) + self.data@.subrange(0, j as int),
                decreases r - j,
            {
                rotated.push(self.data[j]);
                j = j + 1;
                proof {
                    assert(self.data@.subrange(0, j as int) =~= self.data@.subrange(0, j - 1) + seq![self.data@[j - 1]]);
                }
            }
            let ghost old_data = self.data@;
            self.data = rotated;
            self.write_position = self.write_position - r;
            self.read_position = 0;
            proof {
                assert(self.readable() =~= old_data.subrange(r as int, old(self).write_position as int));
            }
        }
    }

    /// Appends all of `data` after a flip, or nothing where it does not fit.
    pub fn push(&mut self, data: &[u8]) -> (r: Result<(), BufferError>)
        requires
            old(self).wf(),
        ensures
            final(self).wf(),
            final(self).read_pos() == 0,
            r is Ok <==> data@.len() <= N - old(self).readable().len(),
            r is Ok ==> final(self).readable() == old(self).readable() + data@,
            r is Err ==> r == Err::<(), BufferError>(BufferError::OutOfBounds) && final(self).readable() == old(self).readable(),
    {
        self.flip();
        let w = self.write_position;
        let len = self.data.len();
        if len - w >= data.len() {
            let n = data.len();
            let ghost before = self.data@;
            let mut i: usize = 0;
            while i < n
                invariant
                    i <= n == data@.len(),
                    w + n <= len == self.data@.len() == before.len(),
                    self.read_position == 0,
                    self.write_position == w,
                    forall|j: int| 0 <= j < w ==> #[trigger] self.data@[j] == before[j],
                    forall|j: int| w <= j < w + i ==> #[trigger] self.data@[j] == data@[j - w],
                decreases n - i,
            {
                self.data.set(w + i, data[i]);
                i = i + 1;
            }
            self.write_position = w + n;
            proof {
                assert(self.readable() =~= before.subrange(0, w as int) + data@);
            }
            Ok(())
        } else {
            Err(BufferError::OutOfBounds)
        }
    }

    pub fn capacity(&self) -> (r: usize)
        requires
            self.wf(),
        ensures
            r == N,
    {
        self.data.len()
    }

    /// Whether the whole capacity can be written to
    pub fn is_max_capacity(&self) -> (r: bool)
        ensures
            r == (self.write_pos() == 0),
    {
        self.write_position == 0
    }

    /// Whether the whole capacity can be read
    pub fn is_max_len(&self) -> (r: bool)
        requires
            self.wf(),
        ensures
            r == (self.read_pos() == 0 && self.write_pos() == N),
    {
        self.read_position == 0 && self.write_position == self.data.len()
    }

    /// Whether there is data to read
    pub fn has_remaining_len(&self) -> (r: bool)
        ensures
            r == (self.read_pos() < self.write_pos()),
    {
        self.read_position < self.write_position
    }

    /// The read and write positions
    pub fn positions(&self) -> (r: (usize, usize))
        ensures
            r.0 == self.read_pos(),
            r.1 == self.write_pos(),
    {
        (self.read_position, self.write_position)
    }

    pub fn reset(&mut self)
        requires
            old(self).wf(),
        ensures
            final(self).wf(),
            final(self).bytes() == old(self).bytes(),
            final(self).read_pos() == 0,
            final(self).write_pos() == 0,
    {
        self.write_position = 0;
        self.read_position = 0;
    }
}

/// Owner of a stack buffer that lends it out for the duration of a borrow.
pub struct StackBufferCell<const N: usize> {
    buffer: StackBuffer<N>,
}

impl<const N: usize> StackBufferCell<N> {
    pub closed spec fn buffer(&self) -> StackBuffer<N> {
        self.buffer
    }

    pub fn new() -> (c: Self)
        ensures
            c.buffer().wf(),
            c.buffer().read_pos() == 0,
            c.buffer().write_pos() == 0,
    {
        StackBufferCell { buffer: StackBuffer::new() }
    }

    /// Lends out the buffer.
    pub fn borrow(&mut self) -> (b: &mut StackBuffer<N>)
        ensures
            *b == old(self).buffer(),
            final(self).buffer() == *final(b),
    {
        &mut self.buffer
    }
}

} // verus!
