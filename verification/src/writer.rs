//! A fixed-capacity byte buffer that text is written into and that is then
//! sent out one byte at a time.
use vstd::prelude::*;
use vstd::string::StringSliceAdditionalSpecFns;

verus! {

/// The abstract value of a `Buffer`: the bytes written since it was last
/// emptied, and how many of them have been read out.
#[verifier::ext_equal]
pub struct BufferView {
    pub written: Seq<u8>,
    pub read: int,
}

impl BufferView {
    /// Nothing written, nothing read.
    pub open spec fn empty() -> BufferView {
        BufferView { written: Seq::empty(), read: 0 }
    }

    /// The bytes written and not yet read, in the order they were written.
    pub open spec fn pending(self) -> Seq<u8> {
        self.written.skip(self.read)
    }

    /// What holds of every buffer of capacity `capacity`: no more is read
    /// than written, no more written than fits, and a buffer that has been
    /// read to the end is empty again.
    pub open spec fn is_valid(self, capacity: int) -> bool {
        &&& 0 <= self.read <= self.written.len() <= capacity
        &&& self.read == self.written.len() ==> self.written.len() == 0
    }

    /// `storage` is the whole storage of a buffer of capacity `capacity` in
    /// this state: the written bytes are its first bytes.
    pub open spec fn is_stored_in(self, storage: Seq<u8>, capacity: int) -> bool {
        storage.len() == capacity && self.written == storage.take(self.written.len() as int)
    }

    /// The buffer once `bytes` have been written into it.
    pub open spec fn after_write(self, bytes: Seq<u8>) -> BufferView {
        BufferView { written: self.written + bytes, read: self.read }
    }

    /// The buffer once one more byte is marked as read: the read position
    /// moves on, and where it reaches the end of what was written the buffer
    /// is emptied.
    pub open spec fn after_mark(self) -> BufferView {
        if self.read + 1 < self.written.len() {
            BufferView { written: self.written, read: self.read + 1 }
        } else {
            BufferView::empty()
        }
    }
}

/// The bytes obtained by taking the next byte and marking it as read until
/// none is left.
pub open spec fn drain(v: BufferView) -> Seq<u8>
    decreases v.written.len() - v.read,
{
    if 0 <= v.read < v.written.len() {
        seq![v.written[v.read]] + drain(v.after_mark())
    } else {
        Seq::empty()
    }
}

/// Writing into the buffer failed: the text does not fit into the room left.
#[derive(Clone, Copy, Debug, PartialEq, Eq)]
pub struct BufferFull;

/// Holds up to `SIZE` bytes of written text until they have been read out.
pub struct Buffer<const SIZE: usize> {
    buf: [u8; SIZE],
    len: usize,
    read_index: usize,
}

impl<const SIZE: usize> View for Buffer<SIZE> {
    type V = BufferView;

    closed spec fn view(&self) -> BufferView {
        BufferView { written: self.buf@.take(self.len as int), read: self.read_index as int }
    }
}

impl<const SIZE: usize> Buffer<SIZE> {
    /// The whole storage of the buffer: the written bytes, then whatever the
    /// rest of the storage holds.
    pub closed spec fn storage(&self) -> Seq<u8> {
        self.buf@
    }

    #[verifier::type_invariant]
    spec fn well_formed(self) -> bool {
        &&& self.len <= SIZE
        &&& self.read_index <= self.len
        &&& self.read_index == self.len ==> self.len == 0
    }

    proof fn lemma_view_valid(&self)
        requires
            self.well_formed(),
        ensures
            self@.is_valid(SIZE as int),
            self@.is_stored_in(self.storage(), SIZE as int),
    {
    }

    /// An empty buffer.
    pub fn new() -> (r: Buffer<SIZE>)
        ensures
            r@ == BufferView::empty(),
            r@.is_valid(SIZE as int),
            r.storage() == Seq::new(SIZE as nat, |i: int| 0u8),
    {
        let r = Buffer { buf: [0u8; SIZE], len: 0, read_index: 0 };
        assert(r@.written =~= Seq::<u8>::empty());
        assert(r.storage() =~= Seq::new(SIZE as nat, |i: int| 0u8));
        r
    }

    /// The next byte to send, or `None` where everything written has been
    /// read.
    pub fn read_next(&self) -> (r: Option<u8>)
        ensures
            self@.is_valid(SIZE as int),
            self@.is_stored_in(self.storage(), SIZE as int),
            self@.pending().len() == 0 ==> r is None,
            self@.pending().len() > 0 ==> r == Some(self@.pending()[0]),
    {
        proof {
            use_type_invariant(self);
            self.lemma_view_valid();
        }
        if !self.is_read_finished() {
            Some(self.buf[self.read_index])
        } else {
            None
        }
    }

    /// Marks the next byte as sent; once all written bytes are sent the
    /// buffer is emptied, so that its whole capacity can be written again.
    pub fn mark_byte_as_read(&mut self)
        ensures
            final(self)@ == old(self)@.after_mark(),
            final(self)@.is_valid(SIZE as int),
            final(self).storage() == old(self).storage(),
            final(self)@.is_stored_in(final(self).storage(), SIZE as int),
    {
        proof {
            use_type_invariant(&*self);
        }
        let next = if self.read_index < self.len {
            self.read_index + 1
        } else {
            self.read_index
        };
        if next == self.len {
            self.read_index = 0;
            self.len = 0;
            assert(self@.written =~= Seq::<u8>::empty());
        } else {
            self.read_index = next;
        }
        proof {
            use_type_invariant(&*self);
            self.lemma_view_valid();
        }
        assert(self@ =~= old(self)@.after_mark());
    }

    /// Whether everything written has been read (the buffer is then empty).
    pub fn is_read_finished(&self) -> (r: bool)
        ensures
            self@.is_valid(SIZE as int),
            self@.is_stored_in(self.storage(), SIZE as int),
            r == (self@.pending().len() == 0),
            r == (self@ == BufferView::empty()),
    {
        proof {
            use_type_invariant(self);
            self.lemma_view_valid();
            if self.read_index == self.len {
                assert(self@.written =~= Seq::<u8>::empty());
            }
        }
        self.read_index == self.len
    }

    /// Appends the bytes of `s` where they fit into the room left; otherwise
    /// fails and leaves the buffer as it was.
    pub fn write_str(&mut self, s: &str) -> (r: Result<(), BufferFull>)
        ensures
            final(self)@.is_valid(SIZE as int),
            final(self)@.is_stored_in(final(self).storage(), SIZE as int),
            old(self)@.written.len() + s.spec_bytes().len() <= SIZE ==> r is Ok && final(self)@
                == old(self)@.after_write(s.spec_bytes()) && final(self).storage() == old(
                self,
            ).storage().take(old(self)@.written.len() as int) + s.spec_bytes() + old(
                self,
            ).storage().skip((old(self)@.written.len() + s.spec_bytes().len()) as int),
            old(self)@.written.len() + s.spec_bytes().len() > SIZE ==> r is Err && final(self)@
                == old(self)@ && final(self).storage() == old(self).storage(),
    {
        proof {
            use_type_invariant(&*self);
            self.lemma_view_valid();
        }
        let bytes = s.as_bytes();
        if bytes.len() > SIZE - self.len {
            return Err(BufferFull);
        }
        let start = self.len;
        let mut i: usize = 0;
        while i < bytes.len()
            invariant
                0 <= i <= bytes.len(),
                start + bytes.len() <= SIZE,
                self.len == start,
                self.buf@.len() == SIZE,
                self.buf@.take(start as int) == old(self)@.written,
                self.read_index == old(self)@.read,
                forall|k: int| 0 <= k < i ==> self.buf@[start + k] == bytes@[k],
                forall|k: int|
                    start + i <= k < SIZE ==> self.buf@[k] == old(self).storage()[k],
            decreases bytes.len() - i,
        {
            proof {
                use_type_invariant(&*self);
            }
            self.buf[start + i] = bytes[i];
            assert(self.buf@.take(start as int) =~= old(self)@.written);
            i = i + 1;
        }
        proof {
            use_type_invariant(&*self);
        }
        if bytes.len() > 0 {
            self.len = start + bytes.len();
        }
        proof {
            use_type_invariant(&*self);
            self.lemma_view_valid();
        }
        assert(self@.written =~= old(self)@.written + bytes@);
        assert(self.storage() =~= old(self).storage().take(start as int) + bytes@ + old(
            self,
        ).storage().skip(start + bytes.len()));
        Ok(())
    }
}

/// Draining a buffer (taking the next byte and marking it as read until
/// none is left) yields exactly the bytes written and not yet read, in order.
pub proof fn lemma_drain_yields_pending(v: BufferView)
    requires
        0 <= v.read <= v.written.len(),
    ensures
        drain(v) == v.pending(),
    decreases v.written.len() - v.read,
{
    if v.read < v.written.len() {
        let w = v.after_mark();
        lemma_drain_yields_pending(w);
        if v.read + 1 < v.written.len() {
            assert(v.pending() =~= seq![v.written[v.read]] + w.pending());
        } else {
            assert(w.pending() =~= Seq::<u8>::empty());
            assert(v.pending() =~= seq![v.written[v.read]]);
        }
    } else {
        assert(v.pending() =~= Seq::<u8>::empty());
    }
}

/// Bytes written into a buffer where they fit come back out, after the
/// bytes that were waiting before them, when the buffer is drained; in
/// particular a drained buffer gives back exactly what is written next.
pub proof fn lemma_written_bytes_come_back(v: BufferView, bytes: Seq<u8>, capacity: int)
    requires
        v.is_valid(capacity),
        v.written.len() + bytes.len() <= capacity,
    ensures
        v.after_write(bytes).is_valid(capacity),
        drain(v.after_write(bytes)) == v.pending() + bytes,
        v.pending().len() == 0 ==> drain(v.after_write(bytes)) == bytes,
{
    let w = v.after_write(bytes);
    lemma_drain_yields_pending(w);
    assert(w.pending() =~= v.pending() + bytes);
    if v.pending().len() == 0 {
        assert(v.pending() + bytes =~= bytes);
    }
}

/// Marking a byte as read removes exactly the first waiting byte, and keeps
/// the buffer valid; on a buffer with nothing waiting it changes nothing.
pub proof fn lemma_mark_consumes_first(v: BufferView, capacity: int)
    requires
        v.is_valid(capacity),
    ensures
        v.after_mark().is_valid(capacity),
        v.pending().len() > 0 ==> v.after_mark().pending() == v.pending().drop_first(),
        v.pending().len() == 0 ==> v.after_mark() == v,
{
    let w = v.after_mark();
    if v.pending().len() > 0 {
        if v.read + 1 < v.written.len() {
            assert(w.pending() =~= v.pending().drop_first());
        } else {
            assert(w.pending() =~= v.pending().drop_first());
        }
    } else {
        assert(v.written =~= Seq::<u8>::empty());
    }
}

} // verus!
