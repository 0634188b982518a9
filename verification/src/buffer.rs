//! The buffer that keeps the bytes which were appended and not yet consumed.

use vstd::prelude::*;

verus! {

/// A byte accumulator: bytes are appended at the end and consumed from the
/// front.
pub trait Buffer: Sized {
    /// The bytes that were appended and not yet advanced past, in arrival
    /// order.
    spec fn contents(&self) -> Seq<u8>;

    /// Append the data to the end of the buffer.
    fn append(&mut self, chunk: &[u8])
        ensures
            final(self).contents() == old(self).contents() + chunk@,
    ;

    /// View the current contents of the buffer.
    fn view(&self) -> (window: &[u8])
        ensures
            window@ == self.contents(),
    ;

    /// Drop the given amount of bytes from the start of the buffer.
    fn advance(&mut self, bytes: usize)
        requires
            bytes <= old(self).contents().len(),
        ensures
            final(self).contents() == old(self).contents().skip(bytes as int),
    ;
}

impl Buffer for Vec<u8> {
    open spec fn contents(&self) -> Seq<u8> {
        vstd::view::View::view(self)
    }

    fn append(&mut self, chunk: &[u8]) {
        self.extend_from_slice(chunk);
        assert(vstd::view::View::view(self) =~= vstd::view::View::view(old(self)) + chunk@);
    }

    fn view(&self) -> (window: &[u8]) {
        self.as_slice()
    }

    fn advance(&mut self, bytes: usize) {
        let len = self.len();
        let mut i: usize = 0;
        while i < len - bytes
            invariant
                bytes <= len,
                self.len() == len,
                len == old(self).len(),
                i <= len - bytes,
                forall|j: int| 0 <= j < i ==> self[j] == old(self)[j + bytes],
                forall|j: int| i <= j < len ==> self[j] == old(self)[j],
            decreases len - bytes - i,
        {
            let b = self[i + bytes];
            self.set(i, b);
            i += 1;
        }
        self.truncate(len - bytes);
        assert(vstd::view::View::view(self) =~= vstd::view::View::view(old(self)).skip(bytes as int));
    }
}

/// `bytes::BytesMut`, a buffer with a read cursor.
#[verifier::external_type_specification]
#[verifier::external_body]
pub struct ExBytesMut(bytes::BytesMut);

/// The bytes that a `bytes::BytesMut` holds, from its cursor to its end.
pub uninterp spec fn bytes_held(buffer: bytes::BytesMut) -> Seq<u8>;

/// `bytes::BufMut::put_slice` on a `BytesMut`.
///
/// Trusted: the buffer grows as it needs to, and the bytes of `chunk` come
/// after those that it held.
#[verifier::external_body]
fn put_slice(buffer: &mut bytes::BytesMut, chunk: &[u8])
    ensures
        bytes_held(*final(buffer)) == bytes_held(*old(buffer)) + chunk@,
{
    bytes::BufMut::put_slice(buffer, chunk)
}

/// `bytes::Buf::chunk` on a `BytesMut`.
///
/// Trusted: the slice is all that the buffer holds, which lies in one piece.
#[verifier::external_body]
fn chunk(buffer: &bytes::BytesMut) -> (window: &[u8])
    ensures
        window@ == bytes_held(*buffer),
{
    bytes::Buf::chunk(buffer)
}

/// `bytes::Buf::advance` on a `BytesMut`, which panics past the end of the
/// buffer.
///
/// Trusted: the cursor moves by `count`, so that the first `count` bytes are
/// gone and the others stay.
#[verifier::external_body]
fn advance_cursor(buffer: &mut bytes::BytesMut, count: usize)
    requires
        count <= bytes_held(*old(buffer)).len(),
    ensures
        bytes_held(*final(buffer)) == bytes_held(*old(buffer)).skip(count as int),
{
    bytes::Buf::advance(buffer, count)
}

impl Buffer for bytes::BytesMut {
    open spec fn contents(&self) -> Seq<u8> {
        bytes_held(*self)
    }

    fn append(&mut self, chunk: &[u8]) {
        put_slice(self, chunk)
    }

    fn view(&self) -> (window: &[u8]) {
        chunk(self)
    }

    fn advance(&mut self, bytes: usize) {
        advance_cursor(self, bytes)
    }
}

} // verus!
