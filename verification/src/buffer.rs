//! Reusable byte buffers.
//!
//! A connection checks a buffer out of the pool before it starts to read and
//! gives it back when its request has been answered or has failed. A buffer
//! that comes out of the pool is always empty, so nothing that an earlier
//! connection received can show up in a later one.

use vstd::prelude::*;

verus! {

/// What a fresh buffer can hold before it has to grow.
pub const INITIAL_CAPACITY: usize = 1024;

/// A growable run of bytes that one connection at a time owns.
#[derive(Debug)]
pub struct PooledBuffer {
    bytes: Vec<u8>,
}

impl View for PooledBuffer {
    type V = Seq<u8>;

    closed spec fn view(&self) -> Seq<u8> {
        self.bytes@
    }
}

/// `Vec::capacity`: the number of elements that the vector can hold without
/// reallocating. The vector holds its elements, so the number is at least its
/// length. How far it lies above the length is the allocator's affair, and
/// nothing is claimed of that.
#[verifier::external_body]
fn allocated(bytes: &Vec<u8>) -> (n: usize)
    ensures
        n >= bytes@.len(),
{
    bytes.capacity()
}

impl PooledBuffer {
    /// A new, empty buffer.
    pub fn new() -> (buf: PooledBuffer)
        ensures
            buf@ == Seq::<u8>::empty(),
    {
        PooledBuffer { bytes: Vec::with_capacity(INITIAL_CAPACITY) }
    }

    /// A buffer that holds a copy of `bytes`.
    pub fn from_slice(bytes: &[u8]) -> (buf: PooledBuffer)
        ensures
            buf@ == bytes@,
    {
        let mut v: Vec<u8> = Vec::new();
        v.extend_from_slice(bytes);
        PooledBuffer { bytes: v }
    }

    pub fn len(&self) -> (n: usize)
        ensures
            n == self@.len(),
    {
        self.bytes.len()
    }

    pub fn is_empty(&self) -> (b: bool)
        ensures
            b == (self@.len() == 0),
    {
        self.bytes.len() == 0
    }

    /// How many bytes the buffer can hold without growing: at least as many
    /// as it holds. The rest is room that the allocator gave.
    pub fn capacity(&self) -> (n: usize)
        ensures
            n >= self@.len(),
    {
        allocated(&self.bytes)
    }

    pub fn as_slice(&self) -> (s: &[u8])
        ensures
            s@ == self@,
    {
        self.bytes.as_slice()
    }

    /// Appends `chunk`; what the buffer held stays in front of it.
    pub fn extend(&mut self, chunk: &[u8])
        ensures
            final(self)@ == old(self)@ + chunk@,
    {
        self.bytes.extend_from_slice(chunk);
    }

    /// Drops everything after the first `len` bytes.
    pub fn truncate(&mut self, len: usize)
        ensures
            final(self)@ == if len <= old(self)@.len() {
                old(self)@.take(len as int)
            } else {
                old(self)@
            },
    {
        self.bytes.truncate(len);
        assert(len > old(self)@.len() ==> self.bytes@ =~= old(self)@);
        assert(len <= old(self)@.len() ==> self.bytes@ =~= old(self)@.take(len as int));
    }

    /// Sets the length to zero and keeps the allocation.
    pub fn clear(&mut self)
        ensures
            final(self)@ == Seq::<u8>::empty(),
    {
        self.bytes.clear();
    }
}

/// Whether `after` is the list `before` with one more buffer at its end, an
/// empty one: what a release makes of the list of waiting buffers.
pub open spec fn released_into(before: Seq<PooledBuffer>, after: Seq<PooledBuffer>) -> bool {
    &&& after.len() == before.len() + 1
    &&& after.drop_last() == before
    &&& after.last()@ == Seq::<u8>::empty()
}

/// Whether `buf` and `after` are what a checkout makes of the list `before`
/// of waiting buffers: the buffer that was put in last is handed out and
/// leaves the list; where none waits, the list stays empty.
pub open spec fn checked_out_of(before: Seq<PooledBuffer>, after: Seq<PooledBuffer>, buf: PooledBuffer) -> bool {
    if before.len() > 0 {
        buf == before.last() && after == before.drop_last()
    } else {
        after == before
    }
}

/// A buffer that is released is the one that the next checkout hands out,
/// and the pool is then as it was before the release.
pub proof fn lemma_released_buffer_is_reused(
    start: Seq<PooledBuffer>,
    between: Seq<PooledBuffer>,
    end: Seq<PooledBuffer>,
    buf: PooledBuffer,
)
    requires
        released_into(start, between),
        checked_out_of(between, end, buf),
    ensures
        buf == between.last(),
        buf@ == Seq::<u8>::empty(),
        end == start,
{
}

/// A free list of buffers.
///
/// Every buffer in the list is empty. A method that changes the list takes it
/// out of the pool, changes it and puts it back, so that the pool is whole
/// whenever it can be seen.
#[derive(Debug)]
pub struct BufferPool {
    free: Vec<PooledBuffer>,
}

impl BufferPool {
    #[verifier::type_invariant]
    spec fn all_clear(self) -> bool {
        forall|i: int| 0 <= i < self.free@.len() ==> (#[trigger] self.free@[i])@.len() == 0
    }

    /// The buffers that wait in the pool, the one that was released last at
    /// the end.
    pub closed spec fn waiting(&self) -> Seq<PooledBuffer> {
        self.free@
    }

    /// How many buffers wait in the pool.
    pub open spec fn idle(&self) -> nat {
        self.waiting().len()
    }

    /// A pool with no buffer in it.
    pub fn new() -> (pool: BufferPool)
        ensures
            pool.waiting() == Seq::<PooledBuffer>::empty(),
    {
        BufferPool { free: Vec::new() }
    }

    pub fn available(&self) -> (n: usize)
        ensures
            n == self.idle(),
    {
        self.free.len()
    }

    /// Hands out a buffer: the one that was released last if any waits in the
    /// pool, a new one otherwise. Either way the buffer is empty.
    pub fn checkout(&mut self) -> (buf: PooledBuffer)
        ensures
            buf@ == Seq::<u8>::empty(),
            checked_out_of(old(self).waiting(), final(self).waiting(), buf),
    {
        proof {
            use_type_invariant(&*self);
        }
        let mut free: Vec<PooledBuffer> = Vec::new();
        core::mem::swap(&mut self.free, &mut free);
        let buf = match free.pop() {
            Some(buf) => buf,
            None => PooledBuffer::new(),
        };
        core::mem::swap(&mut self.free, &mut free);
        assert(buf@ =~= Seq::<u8>::empty());
        buf
    }

    /// Takes a buffer back and puts it behind those that wait. Its bytes are
    /// dropped, its allocation is kept.
    pub fn release(&mut self, buf: PooledBuffer)
        ensures
            released_into(old(self).waiting(), final(self).waiting()),
    {
        proof {
            use_type_invariant(&*self);
        }
        let mut buf = buf;
        buf.clear();
        let mut free: Vec<PooledBuffer> = Vec::new();
        core::mem::swap(&mut self.free, &mut free);
        free.push(buf);
        core::mem::swap(&mut self.free, &mut free);
        assert(self.free@.drop_last() =~= old(self).free@);
    }
}

} // verus!
