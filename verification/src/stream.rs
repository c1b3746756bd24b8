//! The transport abstraction: any ordered, reliable duplex byte stream, and
//! an in-memory stream for exercising the protocol without a network.

use vstd::prelude::*;
use vstd::slice::{slice_subrange, slice_to_vec};
use crate::Error;

verus! {

/// An ordered, reliable duplex byte stream: the capability set a connection
/// needs from its transport. The model is two byte sequences: `inbuf`, the
/// bytes available but not yet read, and `outbuf`, the bytes written so far.
pub trait ByteStream {
    /// The bytes that are available to read but have not been read yet.
    spec fn inbuf(&self) -> Seq<u8>;

    /// The bytes written to the stream so far.
    spec fn outbuf(&self) -> Seq<u8>;

    /// Reads exactly `n` bytes; on success they are the next `n` unread
    /// bytes. Reading never writes. After a failure the unread bytes are
    /// unspecified: a transport may consume some before failing.
    fn read_exact(&mut self, n: usize) -> (r: Result<Vec<u8>, Error>)
        ensures
            final(self).outbuf() == old(self).outbuf(),
            match r {
                Ok(v) => v@.len() == n && old(self).inbuf() == v@ + final(self).inbuf(),
                Err(e) => e == Error::Io,
            },
    ;

    /// Writes all of `data`; on success it is appended to the written
    /// bytes. Writing never reads. After a failure the written bytes are
    /// unspecified: a transport may write a part before failing.
    fn write_all(&mut self, data: &[u8]) -> (r: Result<(), Error>)
        ensures
            final(self).inbuf() == old(self).inbuf(),
            match r {
                Ok(()) => final(self).outbuf() == old(self).outbuf() + data@,
                Err(e) => e == Error::Io,
            },
    ;

    /// Flushes buffered writes down the transport; the model is unchanged.
    fn flush(&mut self) -> (r: Result<(), Error>)
        ensures
            final(self).inbuf() == old(self).inbuf(),
            final(self).outbuf() == old(self).outbuf(),
            (r matches Err(e) ==> e == Error::Io),
    ;
}

/// An in-memory byte stream: reads come from a fixed input script, writes
/// are recorded. It stands in for a server in tests.
pub struct MockStream {
    input: Vec<u8>,
    cursor: usize,
    written: Vec<u8>,
}

impl MockStream {
    /// A stream that will yield exactly the bytes of `input`.
    pub fn new(input: Vec<u8>) -> (s: Self)
        ensures
            s.inbuf() == input@,
            s.outbuf() == Seq::<u8>::empty(),
    {
        let s = MockStream { input, cursor: 0, written: Vec::new() };
        proof {
            assert(s.inbuf() =~= s.input@);
        }
        s
    }

    /// How many scripted input bytes have not been read yet.
    pub fn remaining(&self) -> (n: usize)
        ensures
            n == self.inbuf().len(),
    {
        if self.cursor <= self.input.len() {
            self.input.len() - self.cursor
        } else {
            0
        }
    }

    /// Every byte written to this stream so far, in order.
    pub fn written(&self) -> (w: &Vec<u8>)
        ensures
            w@ == self.outbuf(),
    {
        &self.written
    }
}

impl ByteStream for MockStream {
    closed spec fn inbuf(&self) -> Seq<u8> {
        if self.cursor <= self.input@.len() {
            self.input@.subrange(self.cursor as int, self.input@.len() as int)
        } else {
            Seq::empty()
        }
    }

    closed spec fn outbuf(&self) -> Seq<u8> {
        self.written@
    }

    fn read_exact(&mut self, n: usize) -> (r: Result<Vec<u8>, Error>) {
        if self.cursor <= self.input.len() && n <= self.input.len() - self.cursor {
            let v = slice_to_vec(
                slice_subrange(self.input.as_slice(), self.cursor, self.cursor + n),
            );
            self.cursor = self.cursor + n;
            proof {
                assert(old(self).inbuf() =~= v@ + self.inbuf());
            }
            Ok(v)
        } else {
            Err(Error::Io)
        }
    }

    fn write_all(&mut self, data: &[u8]) -> (r: Result<(), Error>) {
        let mut i: usize = 0;
        while i < data.len()
            invariant
                i <= data@.len(),
                self.written@ == old(self).written@ + data@.subrange(0, i as int),
                self.input == old(self).input,
                self.cursor == old(self).cursor,
            decreases data@.len() - i,
        {
            self.written.push(data[i]);
            proof {
                assert(self.written@ =~= old(self).written@ + data@.subrange(0, i + 1));
            }
            i = i + 1;
        }
        proof {
            assert(data@.subrange(0, data@.len() as int) =~= data@);
        }
        Ok(())
    }

    fn flush(&mut self) -> (r: Result<(), Error>) {
        Ok(())
    }
}

} // verus!
