use vstd::prelude::*;
use vstd::math::min;

verus! {

/// Errors of the byte buffer.
#[derive(Debug, Clone, Copy, PartialEq, Eq)]
pub enum BufferError {
    /// Writing to the buffer failed: no remaining capacity
    NoCapacity,
    /// The slice to read from or write to is empty
    ProvidedSliceEmpty,
    /// Reading from the buffer failed: no remaining data
    NoData,
}

/// A byte buffer with a read position and a write position.
///
/// The bytes between the read position and the write position are the
/// readable data; the bytes behind the write position are free capacity;
/// the bytes before the read position are dead capacity that a shift reclaims.
#[derive(Debug, Clone)]
pub struct Buffer {
    source: Vec<u8>,
    write_position: usize,
    read_position: usize,
}

/// The bytes of a buffer with its read and write positions.
pub struct BufState {
    pub source: Seq<u8>,
    pub read: nat,
    pub write: nat,
}

/// The readable bytes: from the read position to the write position.
pub open spec fn readable_of(s: BufState) -> Seq<u8> {
    s.source.subrange(s.read as int, s.write as int)
}

/// Writing `data`: as many bytes as fit behind the write position, after a
/// shift where the buffer is full but has dead capacity. The new state and
/// the number of bytes written; an empty `data` and a full buffer without
/// dead capacity are refused (`ProvidedSliceEmpty`, `NoCapacity`).
pub open spec fn write_spec(s: BufState, data: Seq<u8>) -> (BufState, Result<usize, BufferError>) {
    let cap = s.source.len();
    if data.len() == 0 {
        (s, Err(BufferError::ProvidedSliceEmpty))
    } else if s.write == cap && s.read == 0 {
        (s, Err(BufferError::NoCapacity))
    } else {
        let shifted = s.write == cap;
        let start = if shifted { s.write - s.read } else { s.write as int };
        let n = min(data.len() as int, cap - start);
        let source = if shifted {
            readable_of(s) + data.subrange(0, n) + s.source.subrange(start + n, cap as int)
        } else {
            s.source.subrange(0, start) + data.subrange(0, n) + s.source.subrange(start + n, cap as int)
        };
        (BufState { source, read: if shifted { 0 } else { s.read }, write: (start + n) as nat }, Ok(n as usize))
    }
}

/// Reading into `len` bytes: as many readable bytes as fit. The new state,
/// the bytes read and their number; an empty target and an empty buffer are
/// refused (`ProvidedSliceEmpty`, `NoData`).
pub open spec fn read_spec(s: BufState, len: nat) -> (BufState, Seq<u8>, Result<usize, BufferError>) {
    if len == 0 {
        (s, Seq::empty(), Err(BufferError::ProvidedSliceEmpty))
    } else if readable_of(s).len() == 0 {
        (s, Seq::empty(), Err(BufferError::NoData))
    } else {
        let n = min(len as int, readable_of(s).len() as int);
        (BufState { read: (s.read + n) as nat, ..s }, readable_of(s).subrange(0, n), Ok(n as usize))
    }
}

/// What a read gives back of a write: the bytes come out in the order they
/// went in. Where nothing is readable, a write of `data` and then a read
/// into `len` bytes give back the first bytes of `data`, as many as both
/// took; what is left readable is the rest of what was written.
pub proof fn lemma_read_after_write(s: BufState, data: Seq<u8>, len: nat)
    requires
        s.read == s.write <= s.source.len() <= usize::MAX,
        len > 0,
    ensures
        ({
            let (s1, w) = write_spec(s, data);
            w matches Ok(n) ==> {
                let (s2, bytes, r) = read_spec(s1, len);
                let k = min(n as int, len as int);
                &&& r == Ok::<usize, BufferError>(k as usize)
                &&& bytes == data.subrange(0, k)
                &&& readable_of(s2) == data.subrange(k, n as int)
            }
        }),
{
    let (s1, w) = write_spec(s, data);
    if w is Ok {
        let n = w->Ok_0 as int;
        assert(readable_of(s1) =~= data.subrange(0, n));
        let k = min(n as int, len as int);
        assert(readable_of(s1).subrange(0, k) =~= data.subrange(0, k));
        let (s2, bytes, r) = read_spec(s1, len);
        assert(readable_of(s2) =~= data.subrange(k, n));
    }
}

/// A write appends to what is readable: a non-empty `data` is refused only
/// where the readable bytes fill the whole buffer; otherwise at least one
/// byte and at most all of `data` is written, and the readable bytes become
/// the old ones followed by the bytes written, from the front of `data`.
pub proof fn lemma_write_appends(s: BufState, data: Seq<u8>)
    requires
        s.read <= s.write <= s.source.len() <= usize::MAX,
    ensures
        ({
            let (s1, w) = write_spec(s, data);
            &&& data.len() == 0 ==> w == Err::<usize, BufferError>(BufferError::ProvidedSliceEmpty) && s1 == s
            &&& data.len() > 0 && readable_of(s).len() == s.source.len() ==> w == Err::<usize, BufferError>(BufferError::NoCapacity) && s1 == s
            &&& data.len() > 0 && readable_of(s).len() < s.source.len() ==> (w matches Ok(n) && 1 <= n <= data.len()
                && readable_of(s1) == readable_of(s) + data.subrange(0, n as int)
                && s1.source.len() == s.source.len() && s1.read <= s1.write <= s1.source.len())
        }),
{
    let (s1, w) = write_spec(s, data);
    if data.len() > 0 && readable_of(s).len() < s.source.len() {
        let n = w->Ok_0 as int;
        assert(readable_of(s1) =~= readable_of(s) + data.subrange(0, n));
    }
}

/// A read takes from the front of what is readable: a non-empty target is
/// refused only where nothing is readable (`NoData`); otherwise the bytes
/// read are the first readable ones, as many as fit, and the rest stays
/// readable.
pub proof fn lemma_read_takes_front(s: BufState, len: nat)
    requires
        s.read <= s.write <= s.source.len() <= usize::MAX,
    ensures
        ({
            let (s1, bytes, r) = read_spec(s, len);
            &&& len == 0 ==> r == Err::<usize, BufferError>(BufferError::ProvidedSliceEmpty) && s1 == s
            &&& len > 0 && readable_of(s).len() == 0 ==> r == Err::<usize, BufferError>(BufferError::NoData) && s1 == s
            &&& len > 0 && readable_of(s).len() > 0 ==> (r matches Ok(n) && 1 <= n <= len && n <= readable_of(s).len()
                && (n == len || n == readable_of(s).len())
                && bytes == readable_of(s).subrange(0, n as int)
                && readable_of(s) == bytes + readable_of(s1))
        }),
{
    let (s1, bytes, r) = read_spec(s, len);
    if len > 0 && readable_of(s).len() > 0 {
        assert(readable_of(s) =~= bytes + readable_of(s1));
    }
}

/// Creates a buffer backed by `n` zero bytes.
pub fn new_stack_buffer(n: usize) -> (b: Buffer)
    ensures
        b.wf(),
        b.source_seq() == Seq::new(n as nat, |i: int| 0u8),
        b.read_pos() == 0,
        b.write_pos() == 0,
{
    let source: Vec<u8> = vec![0u8; n];
    proof {
        assert(source@ =~= Seq::new(n as nat, |i: int| 0u8));
    }
    Buffer { source, read_position: 0, write_position: 0 }
}

impl Buffer {
    /// Well-formedness: the read position lies before the write position,
    /// which lies inside the underlying bytes.
    pub open spec fn wf(&self) -> bool {
        self.read_pos() <= self.write_pos() <= self.cap() <= usize::MAX
    }

    pub closed spec fn source_seq(&self) -> Seq<u8> {
        self.source@
    }

    pub closed spec fn read_pos(&self) -> nat {
        self.read_position as nat
    }

    pub closed spec fn write_pos(&self) -> nat {
        self.write_position as nat
    }

    /// The readable bytes
    pub open spec fn readable(&self) -> Seq<u8> {
        self.source_seq().subrange(self.read_pos() as int, self.write_pos() as int)
    }

    /// The bytes with the read and write positions
    pub open spec fn state(&self) -> BufState {
        BufState { source: self.source_seq(), read: self.read_pos(), write: self.write_pos() }
    }

    pub open spec fn cap(&self) -> nat {
        self.source_seq().len()
    }

    /// Creates a buffer over the given bytes, with nothing to read.
    pub fn new(source: Vec<u8>) -> (b: Self)
        ensures
            b.wf(),
            b.source_seq() == source@,
            b.read_pos() == 0,
            b.write_pos() == 0,
    {
        let _len = source.len();
        Buffer { source, read_position: 0, write_position: 0 }
    }

    /// Creates a buffer over the given bytes with the given positions.
    pub fn with_positions(source: Vec<u8>, read_position: usize, write_position: usize) -> (b: Self)
        requires
            read_position <= write_position <= source@.len(),
        ensures
            b.wf(),
            b.source_seq() == source@,
            b.read_pos() == read_position,
            b.write_pos() == write_position,
    {
        let _len = source.len();
        Buffer { source, read_position, write_position }
    }

    /// Hands back the underlying bytes.
    pub fn into_inner(self) -> (v: Vec<u8>)
        ensures
            v@ == self.source_seq(),
    {
        self.source
    }

    pub fn read_position(&self) -> (r: usize)
        ensures
            r == self.read_pos(),
    {
        self.read_position
    }

    pub fn write_position(&self) -> (r: usize)
        ensures
            r == self.write_pos(),
    {
        self.write_position
    }

    /// Drops all data: both positions go back to the start.
    pub fn reset(&mut self)
        requires
            old(self).wf(),
        ensures
            final(self).wf(),
            final(self).source_seq() == old(self).source_seq(),
            final(self).read_pos() == 0,
            final(self).write_pos() == 0,
    {
        self.read_position = 0;
        self.write_position = 0;
    }

    /// Returns the length of the underlying bytes
    pub fn capacity(&self) -> (r: usize)
        ensures
            r == self.cap(),
    {
        self.source.len()
    }

    pub fn remaining_capacity(&self) -> (r: usize)
        requires
            self.wf(),
        ensures
            r == self.cap() - self.write_pos(),
    {
        self.source.len() - self.write_position
    }

    pub fn has_remaining_capacity(&self) -> (r: bool)
        ensures
            r == (self.cap() > self.write_pos()),
    {
        self.source.len() > self.write_position
    }

    pub fn remaining_len(&self) -> (r: usize)
        requires
            self.wf(),
        ensures
            r == self.write_pos() - self.read_pos(),
            r == self.readable().len(),
    {
        self.write_position - self.read_position
    }

    pub fn has_remaining_len(&self) -> (r: bool)
        ensures
            r == (self.write_pos() > self.read_pos()),
    {
        self.write_position > self.read_position
    }

    pub fn has_dead_capacity(&self) -> (r: bool)
        ensures
            r == (self.read_pos() > 0),
    {
        self.read_position > 0
    }

    /// Moves the readable bytes to the start of the underlying bytes.
    pub fn shift(&mut self)
        requires
            old(self).wf(),
        ensures
            final(self).wf(),
            final(self).read_pos() == 0,
            final(self).write_pos() == old(self).write_pos() - old(self).read_pos(),
            final(self).source_seq() == old(self).readable() + old(self).source_seq().subrange(
                old(self).write_pos() - old(self).read_pos(),
                old(self).cap() as int,
            ),
            final(self).readable() == old(self).readable(),
    {
        let div = self.read_position;
        let end = self.write_position;
        let ghost old_src = self.source@;
        let mut i = div;
        while i < end
            invariant
                div <= i <= end <= old_src.len(),
                self.source@.len() == old_src.len(),
                forall|j: int| 0 <= j < i - div ==> #[trigger] self.source@[j] == old_src[j + div],
                forall|j: int| i - div <= j < old_src.len() ==> #[trigger] self.source@[j] == old_src[j],
            decreases end - i,
        {
            let value = self.source[i];
            self.source.set(i - div, value);
            i = i + 1;
        }
        self.write_position = end - div;
        self.read_position = 0;
        proof {
            assert(self.source@ =~= old_src.subrange(div as int, end as int) + old_src.subrange(
                end - div,
                old_src.len() as int,
            ));
            assert(self.readable() =~= old_src.subrange(div as int, end as int));
        }
    }
    /// Shifts the readable bytes to the start when there is no capacity left
    /// behind the write position; returns whether capacity is left then.
    pub fn ensure_remaining_capacity(&mut self) -> (r: bool)
        requires
            old(self).wf(),
        ensures
            final(self).wf(),
            final(self).readable() == old(self).readable(),
            final(self).cap() == old(self).cap(),
            old(self).cap() > old(self).write_pos() ==> *final(self) == *old(self),
            old(self).cap() <= old(self).write_pos() ==> final(self).read_pos() == 0,
            r == (final(self).cap() > final(self).write_pos()),
            r == (old(self).cap() > old(self).write_pos() || old(self).read_pos() > 0),
    {
        if !self.has_remaining_capacity() {
            self.shift();
        }
        self.has_remaining_capacity()
    }

    /// Copies `data` to the underlying bytes at `at`.
    fn copy_in(&mut self, at: usize, data: &[u8], n: usize)
        requires
            old(self).wf(),
            n <= data@.len(),
            at + n <= old(self).cap(),
        ensures
            final(self).read_position == old(self).read_position,
            final(self).write_position == old(self).write_position,
            final(self).source@ == old(self).source@.subrange(0, at as int) + data@.subrange(0, n as int)
                + old(self).source@.subrange(at + n, old(self).cap() as int),
    {
        let ghost old_src = self.source@;
        let mut i: usize = 0;
        while i < n
            invariant
                i <= n <= data@.len(),
                at + n <= old_src.len() <= usize::MAX,
                self.source@.len() == old_src.len(),
                self.read_position == old(self).read_position,
                self.write_position == old(self).write_position,
                old_src == old(self).source@,
                forall|j: int| 0 <= j < at ==> #[trigger] self.source@[j] == old_src[j],
                forall|j: int| at <= j < at + i ==> #[trigger] self.source@[j] == data@[j - at],
                forall|j: int| at + i <= j < old_src.len() ==> #[trigger] self.source@[j] == old_src[j],
            decreases n - i,
        {
            self.source.set(at + i, data[i]);
            i = i + 1;
        }
        proof {
            assert(self.source@ =~= old_src.subrange(0, at as int) + data@.subrange(0, n as int)
                + old_src.subrange(at + n, old_src.len() as int));
        }
    }

    /// Writes as many bytes of `buf` as fit behind the write position,
    /// shifting first where the buffer is full but has dead capacity.
    /// Returns the number of bytes written.
    pub fn write_base(&mut self, buf: &[u8]) -> (r: Result<usize, BufferError>)
        requires
            old(self).wf(),
        ensures
            final(self).wf(),
            ({
                let (st, res) = write_spec(old(self).state(), buf@);
                &&& final(self).source_seq() == st.source
                &&& final(self).read_pos() == st.read
                &&& final(self).write_pos() == st.write
                &&& r == res
            }),
            final(self).cap() == old(self).cap(),
            buf@.len() == 0 ==> r == Err::<usize, BufferError>(BufferError::ProvidedSliceEmpty) && *final(self) == *old(self),
            buf@.len() > 0 && old(self).write_pos() == old(self).cap() && old(self).read_pos() == 0
                ==> r == Err::<usize, BufferError>(BufferError::NoCapacity) && *final(self) == *old(self),
            buf@.len() > 0 && (old(self).write_pos() < old(self).cap() || old(self).read_pos() > 0) ==> {
                let shifted = old(self).write_pos() == old(self).cap();
                let start = if shifted { old(self).write_pos() - old(self).read_pos() } else { old(self).write_pos() as int };
                let n = min(buf@.len() as int, old(self).cap() - start);
                &&& r == Ok::<usize, BufferError>(n as usize)
                &&& n > 0
                &&& final(self).read_pos() == (if shifted { 0 } else { old(self).read_pos() })
                &&& final(self).write_pos() == start + n
                &&& final(self).readable() == old(self).readable() + buf@.subrange(0, n)
                &&& !shifted ==> final(self).source_seq() == old(self).source_seq().subrange(0, start)
                    + buf@.subrange(0, n) + old(self).source_seq().subrange(start + n, old(self).cap() as int)
                &&& shifted ==> final(self).source_seq() == old(self).readable() + buf@.subrange(0, n)
                    + old(self).source_seq().subrange(start + n, old(self).cap() as int)
            },
    {
        if buf.len() == 0 {
            return Err(BufferError::ProvidedSliceEmpty);
        }
        if !self.has_remaining_capacity() && self.has_dead_capacity() {
            self.shift();
        }
        let cap = self.remaining_capacity();
        if cap == 0 {
            return Err(BufferError::NoCapacity);
        }
        let n = if cap < buf.len() { cap } else { buf.len() };
        let at = self.write_position;
        let ghost mid = self.source@;
        self.copy_in(at, buf, n);
        self.write_position = at + n;
        proof {
            assert(self.readable() =~= mid.subrange(self.read_position as int, at as int) + buf@.subrange(0, n as int));
        }
        Ok(n)
    }

    /// Reads as many readable bytes as fit into `buf`; returns their number.
    pub fn read_base(&mut self, buf: &mut [u8]) -> (r: Result<usize, BufferError>)
        requires
            old(self).wf(),
        ensures
            final(self).wf(),
            ({
                let (st, bytes, res) = read_spec(old(self).state(), old(buf)@.len());
                &&& final(self).source_seq() == st.source
                &&& final(self).read_pos() == st.read
                &&& final(self).write_pos() == st.write
                &&& r == res
                &&& final(buf)@.subrange(0, bytes.len() as int) == bytes
            }),
            final(self).source_seq() == old(self).source_seq(),
            final(self).write_pos() == old(self).write_pos(),
            final(buf)@.len() == old(buf)@.len(),
            old(buf)@.len() == 0 ==> r == Err::<usize, BufferError>(BufferError::ProvidedSliceEmpty)
                && *final(self) == *old(self) && final(buf)@ == old(buf)@,
            old(buf)@.len() > 0 && old(self).readable().len() == 0 ==> r == Err::<usize, BufferError>(BufferError::NoData)
                && *final(self) == *old(self) && final(buf)@ == old(buf)@,
            old(buf)@.len() > 0 && old(self).readable().len() > 0 ==> {
                let n = min(old(buf)@.len() as int, old(self).readable().len() as int);
                &&& r == Ok::<usize, BufferError>(n as usize)
                &&& final(self).read_pos() == old(self).read_pos() + n
                &&& final(buf)@ == old(self).readable().subrange(0, n) + old(buf)@.subrange(n, old(buf)@.len() as int)
            },
    {
        if buf.len() == 0 {
            return Err(BufferError::ProvidedSliceEmpty);
        }
        let len = self.write_position - self.read_position;
        if len == 0 {
            return Err(BufferError::NoData);
        }
        let n = if len > buf.len() { buf.len() } else { len };
        let start = self.read_position;
        let ghost old_buf = buf@;
        let mut i: usize = 0;
        while i < n
            invariant
                i <= n <= buf@.len(),
                buf@.len() == old_buf.len(),
                start + n <= self.source@.len() <= usize::MAX,
                forall|j: int| 0 <= j < i ==> #[trigger] buf@[j] == self.source@[start + j],
                forall|j: int| i <= j < old_buf.len() ==> #[trigger] buf@[j] == old_buf[j],
            decreases n - i,
        {
            buf[i] = self.source[start + i];
            i = i + 1;
        }
        self.read_position = start + n;
        proof {
            assert(buf@ =~= self.source@.subrange(start as int, self.write_position as int).subrange(0, n as int)
                + old_buf.subrange(n as int, old_buf.len() as int));
        }
        Ok(n)
    }

    /// Returns the readable bytes
    pub fn data(&self) -> (r: &[u8])
        requires
            self.wf(),
        ensures
            r@ == self.readable(),
    {
        let src = self.source.as_slice();
        &src[self.read_position..self.write_position]
    }

    /// Skips `n` readable bytes; fails with `NoData` when fewer are readable.
    pub fn skip(&mut self, n: usize) -> (r: Result<(), BufferError>)
        requires
            old(self).wf(),
        ensures
            final(self).wf(),
            final(self).source_seq() == old(self).source_seq(),
            final(self).write_pos() == old(self).write_pos(),
            n <= old(self).readable().len() ==> r == Ok::<(), BufferError>(()) && final(self).read_pos() == old(self).read_pos() + n,
            n > old(self).readable().len() ==> r == Err::<(), BufferError>(BufferError::NoData) && *final(self) == *old(self),
            final(self).readable() == old(self).readable().subrange(
                if n <= old(self).readable().len() { n as int } else { 0 }, old(self).readable().len() as int),
    {
        if self.write_position - self.read_position >= n {
            self.read_position = self.read_position + n;
            proof {
                assert(self.readable() =~= old(self).readable().subrange(n as int, old(self).readable().len() as int));
            }
            Ok(())
        } else {
            proof {
                assert(self.readable() =~= old(self).readable().subrange(0, old(self).readable().len() as int));
            }
            Err(BufferError::NoData)
        }
    }

    /// Appends all of `buf` or nothing; shifts first where the free capacity
    /// is too small and there is dead capacity.
    pub fn push(&mut self, buf: &[u8]) -> (r: Result<(), BufferError>)
        requires
            old(self).wf(),
        ensures
            final(self).wf(),
            final(self).cap() == old(self).cap(),
            r is Ok <==> buf@.len() <= old(self).cap() - (if old(self).cap() - old(self).write_pos() < buf@.len()
                { old(self).write_pos() - old(self).read_pos() } else { old(self).write_pos() as int }),
            r is Ok ==> final(self).readable() == old(self).readable() + buf@,
            r is Err ==> r == Err::<(), BufferError>(BufferError::NoCapacity) && final(self).readable() == old(self).readable(),
    {
        if self.remaining_capacity() < buf.len() && self.has_dead_capacity() {
            self.shift();
        }
        if self.remaining_capacity() >= buf.len() {
            let at = self.write_position;
            let ghost mid = self.source@;
            self.copy_in(at, buf, buf.len());
            self.write_position = at + buf.len();
            proof {
                assert(buf@.subrange(0, buf@.len() as int) =~= buf@);
                assert(self.readable() =~= mid.subrange(self.read_position as int, at as int) + buf@);
            }
            Ok(())
        } else {
            Err(BufferError::NoCapacity)
        }
    }

}

} // verus!
