//! A port held in memory.

use vstd::prelude::*;
use crate::err::unexpected_eof;
use crate::port::SerialPort;

verus! {

/// A port held in memory: replies are scripted up front and every byte
/// written is kept. It stands in for the board where there is none.
pub struct MockPort {
    reader: Vec<u8>,
    writer: Vec<u8>,
}

impl MockPort {
    /// The scripted reply bytes that are still to be read.
    pub closed spec fn pending(&self) -> Seq<u8> {
        self.reader@
    }

    /// The bytes written so far.
    pub closed spec fn output(&self) -> Seq<u8> {
        self.writer@
    }

    /// A port that will hand out `data` and has taken nothing yet.
    pub fn new(data: Vec<u8>) -> (port: Self)
        ensures
            port.pending() == data@,
            port.output() == Seq::<u8>::empty(),
    {
        MockPort { reader: data, writer: Vec::new() }
    }

    /// Gives up the port for the bytes that were written to it.
    pub fn written(self) -> (bytes: Vec<u8>)
        ensures
            bytes@ == self.output(),
    {
        self.writer
    }

    /// How many scripted bytes have not been read.
    pub fn remaining(&self) -> (n: usize)
        ensures
            n == self.pending().len(),
    {
        self.reader.len()
    }
}

impl SerialPort for MockPort {
    /// Never fails: the bytes are appended to what was written before.
    fn write_all(&mut self, bytes: &[u8]) -> (r: Result<(), std::io::Error>)
        ensures
            r is Ok,
            final(self).output() == old(self).output() + bytes@,
            final(self).pending() == old(self).pending(),
    {
        let mut i: usize = 0;
        while i < bytes.len()
            invariant
                i <= bytes.len(),
                self.reader == old(self).reader,
                self.writer@ == old(self).writer@ + bytes@.take(i as int),
            decreases bytes.len() - i,
        {
            self.writer.push(bytes[i]);
            proof {
                assert(bytes@.take(i + 1) == bytes@.take(i as int).push(bytes@[i as int]));
            }
            i += 1;
        }
        proof {
            assert(bytes@.take(bytes@.len() as int) == bytes@);
        }
        Ok(())
    }

    /// Succeeds exactly when the script still holds `len` bytes, and then
    /// hands out the next `len` of them. A failed read takes nothing.
    fn read_exact(&mut self, len: usize) -> (r: Result<Vec<u8>, std::io::Error>)
        ensures
            final(self).output() == old(self).output(),
            r is Ok <==> len <= old(self).pending().len(),
            r is Ok ==> r->Ok_0@ == old(self).pending().take(len as int) && final(self).pending()
                == old(self).pending().skip(len as int),
            r is Err ==> final(self).pending() == old(self).pending(),
    {
        if len > self.reader.len() {
            return Err(unexpected_eof());
        }
        let mut out = self.reader.split_off(len);
        std::mem::swap(&mut self.reader, &mut out);
        Ok(out)
    }
}

} // verus!
