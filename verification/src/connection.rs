//! A connection to a client: its stream, its read buffer and its id, and what a read gives.
use vstd::prelude::*;
use vstd::utf8::{decode_utf8, valid_utf8};

use crate::{NetworkError, ZappyError};

verus! {

/// The size of the buffer a connection reads into.
pub const BUF_SIZE: usize = 1024;

/// A name for the text of the error `String::from_utf8` gives on bytes that are not UTF-8.
pub uninterp spec fn utf8_error_text(bytes: Seq<u8>) -> Seq<char>;

/// Decodes bytes with `String::from_utf8`, which succeeds exactly on valid UTF-8 and then
/// holds the characters those bytes encode; on failure the error is turned into its text
/// (by `to_string`), which is named, not stated.
#[verifier::external_body]
fn decode_utf8_text(bytes: Vec<u8>) -> (r: Result<String, String>)
    ensures
        r is Ok <==> valid_utf8(bytes@),
        r matches Ok(s) ==> s@ == decode_utf8(bytes@),
        r matches Err(m) ==> m@ == utf8_error_text(bytes@),
{
    match String::from_utf8(bytes) {
        Ok(s) => Ok(s),
        Err(e) => Err(e.to_string()),
    }
}

/// A connection: a stream, a buffer of `BUF_SIZE` bytes to read into, and the client's id.
pub struct Connection<S> {
    stream: S,
    buf: Vec<u8>,
    id: u16,
}

impl<S> Connection<S> {
    pub closed spec fn spec_id(&self) -> u16 {
        self.id
    }

    pub closed spec fn buffer(&self) -> Seq<u8> {
        self.buf@
    }

    pub closed spec fn stream_of(&self) -> S {
        self.stream
    }

    /// A connection over a stream, for the client `id`, with a zeroed buffer.
    pub fn new(stream: S, id: u16) -> (c: Self)
        ensures
            c.spec_id() == id,
            c.stream_of() == stream,
            c.buffer() == Seq::new(BUF_SIZE as nat, |i: int| 0u8),
    {
        let mut buf: Vec<u8> = Vec::new();
        let mut i: usize = 0;
        while i < BUF_SIZE
            invariant
                i <= BUF_SIZE,
                buf@ == Seq::new(i as nat, |k: int| 0u8),
            decreases BUF_SIZE - i,
        {
            buf.push(0u8);
            i = i + 1;
            proof {
                assert(buf@ =~= Seq::new(i as nat, |k: int| 0u8));
            }
        }
        Connection { stream, buf, id }
    }

    pub fn id(&self) -> (i: u16)
        ensures
            i == self.spec_id(),
    {
        self.id
    }

    /// The stream and the buffer, to read or write through.
    pub fn io(&mut self) -> (r: (&mut S, &mut [u8]))
        ensures
            *r.0 == old(self).stream_of(),
            r.1@ == old(self).buffer(),
            final(self).stream_of() == *final(r.0),
            final(self).buffer() == final(r.1)@,
            final(self).spec_id() == old(self).spec_id(),
    {
        (&mut self.stream, self.buf.as_mut_slice())
    }

    /// What a read of `n` bytes into the buffer gives: nothing read means the client closed
    /// the connection; more than `BUF_SIZE` is too big; otherwise the bytes read, as text
    /// when they are UTF-8.
    pub fn received(&self, n: usize) -> (r: Result<String, ZappyError>)
        requires
            n <= BUF_SIZE ==> n <= self.buffer().len(),
        ensures
            n == 0 ==> (r matches Err(ZappyError::Network(NetworkError::ConnectionClosedByClient(i))) && i == self.spec_id()),
            n > BUF_SIZE ==> (r matches Err(ZappyError::Network(NetworkError::MessageIsTooBig(i))) && i == self.spec_id()),
            0 < n <= BUF_SIZE && valid_utf8(self.buffer().take(n as int)) ==> (r matches Ok(s)
                && s@ == decode_utf8(self.buffer().take(n as int))),
            0 < n <= BUF_SIZE && !valid_utf8(self.buffer().take(n as int)) ==> (r matches Err(
                ZappyError::Network(NetworkError::MessageCantBeMappedToFromUtf8(i, m)),
            ) && i == self.spec_id() && m@ == utf8_error_text(self.buffer().take(n as int))),
    {
        if n == 0 {
            return Err(ZappyError::Network(NetworkError::ConnectionClosedByClient(self.id)));
        }
        if n > BUF_SIZE {
            return Err(ZappyError::Network(NetworkError::MessageIsTooBig(self.id)));
        }
        let mut bytes: Vec<u8> = Vec::new();
        let mut i: usize = 0;
        while i < n
            invariant
                i <= n,
                n <= self.buf@.len(),
                bytes@ == self.buf@.take(i as int),
            decreases n - i,
        {
            bytes.push(self.buf[i]);
            i = i + 1;
            proof {
                assert(bytes@ =~= self.buf@.take(i as int));
            }
        }
        match decode_utf8_text(bytes) {
            Ok(s) => Ok(s),
            Err(m) => Err(ZappyError::Network(NetworkError::MessageCantBeMappedToFromUtf8(self.id, m))),
        }
    }
}

} // verus!
