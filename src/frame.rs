//! The buffer behind a frame reader: bytes arrive in chunks of any size and
//! leave in frames of the size asked for.
use vstd::prelude::*;
use bytes::BytesMut;

verus! {

#[verifier::external_type_specification]
#[verifier::external_body]
pub struct ExBytesMut(bytes::BytesMut);

/// The bytes that a `BytesMut` holds.
pub uninterp spec fn bytes_mut_contents(b: BytesMut) -> Seq<u8>;

/// Relies on bytes::BytesMut::with_capacity: an empty buffer.
#[verifier::external_body]
fn bytes_mut_with_capacity(capacity: usize) -> (r: BytesMut)
    ensures
        bytes_mut_contents(r) == Seq::<u8>::empty(),
{
    BytesMut::with_capacity(capacity)
}

/// Relies on bytes::BytesMut::len: the number of bytes held.
#[verifier::external_body]
fn bytes_mut_len(b: &BytesMut) -> (r: usize)
    ensures
        r == bytes_mut_contents(*b).len(),
{
    b.len()
}

/// Relies on bytes::BytesMut::extend_from_slice: appends the slice. It
/// reserves room first, which panics where the length would pass
/// `isize::MAX`.
#[verifier::external_body]
fn bytes_mut_extend(b: &mut BytesMut, s: &[u8])
    requires
        bytes_mut_contents(*old(b)).len() + s@.len() <= isize::MAX,
    ensures
        bytes_mut_contents(*final(b)) == bytes_mut_contents(*old(b)) + s@,
{
    b.extend_from_slice(s)
}

/// Relies on bytes::BytesMut::split_to: hands out the first `at` bytes and
/// keeps the rest; it panics where `at` passes the length.
#[verifier::external_body]
fn bytes_mut_split_to(b: &mut BytesMut, at: usize) -> (r: BytesMut)
    requires
        at <= bytes_mut_contents(*old(b)).len(),
    ensures
        bytes_mut_contents(r) == bytes_mut_contents(*old(b)).take(at as int),
        bytes_mut_contents(*final(b)) == bytes_mut_contents(*old(b)).skip(at as int),
{
    b.split_to(at)
}

/// Relies on bytes::BytesMut's view as a byte slice, copied into a vector.
#[verifier::external_body]
fn bytes_mut_to_vec(b: &BytesMut) -> (r: Vec<u8>)
    ensures
        r@ == bytes_mut_contents(*b),
{
    b.to_vec()
}

pub struct FrameBuffer {
    buffer: BytesMut,
}

impl View for FrameBuffer {
    type V = Seq<u8>;

    closed spec fn view(&self) -> Seq<u8> {
        bytes_mut_contents(self.buffer)
    }
}

impl FrameBuffer {
    pub fn new() -> (r: Self)
        ensures
            r@ == Seq::<u8>::empty(),
    {
        FrameBuffer { buffer: bytes_mut_with_capacity(8 * 1024) }
    }

    pub fn len(&self) -> (r: usize)
        ensures
            r == self@.len(),
    {
        bytes_mut_len(&self.buffer)
    }

    /// Appends a chunk that the source delivered.
    pub fn put_slice(&mut self, chunk: &[u8])
        requires
            old(self)@.len() + chunk@.len() <= isize::MAX,
        ensures
            final(self)@ == old(self)@ + chunk@,
    {
        bytes_mut_extend(&mut self.buffer, chunk);
    }

    /// The first `n` buffered bytes, removed from the buffer, where that
    /// many are there; otherwise nothing, and the buffer stays.
    pub fn take_frame(&mut self, n: usize) -> (r: Option<Vec<u8>>)
        ensures
            n <= old(self)@.len() ==> {
                &&& r is Some
                &&& r->0@ == old(self)@.take(n as int)
                &&& final(self)@ == old(self)@.skip(n as int)
            },
            n > old(self)@.len() ==> r is None && final(self)@ == old(self)@,
    {
        if n > bytes_mut_len(&self.buffer) {
            return None;
        }
        let frame = bytes_mut_split_to(&mut self.buffer, n);
        Some(bytes_mut_to_vec(&frame))
    }

    /// Everything buffered, which leaves the buffer empty: what a source
    /// that has ended still owes.
    pub fn take_rest(&mut self) -> (r: Vec<u8>)
        ensures
            r@ == old(self)@,
            final(self)@ == Seq::<u8>::empty(),
    {
        let n = bytes_mut_len(&self.buffer);
        let rest = bytes_mut_split_to(&mut self.buffer, n);
        assert(old(self)@.skip(n as int) =~= Seq::<u8>::empty());
        assert(old(self)@.take(n as int) =~= old(self)@);
        bytes_mut_to_vec(&rest)
    }
}

} // verus!
