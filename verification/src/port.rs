//! The byte stream to the board, and the trace of what went over it.

use vstd::prelude::*;
use crate::err::unexpected_eof;

verus! {

/// A duplex byte stream to the board, seen through the two transfers the
/// protocol needs. Nothing is assumed of an implementation: whether a
/// transfer succeeds is the port's business.
pub trait SerialPort {
    /// Writes all of `bytes`, or fails.
    fn write_all(&mut self, bytes: &[u8]) -> Result<(), std::io::Error>;

    /// Reads exactly `len` bytes, or fails.
    fn read_exact(&mut self, len: usize) -> Result<Vec<u8>, std::io::Error>;
}

/// A port together with the trace of its traffic: every byte of every
/// transfer that the port reported as done, in both directions, and the
/// error of every transfer that failed. The bytes of a transfer that failed
/// are not in the trace.
pub struct TracePort<Port: SerialPort> {
    port: Port,
    sent: Ghost<Seq<u8>>,
    received: Ghost<Seq<u8>>,
    faults: Ghost<Seq<std::io::Error>>,
}

impl<Port: SerialPort> TracePort<Port> {
    /// The port underneath.
    pub closed spec fn inner(&self) -> Port {
        self.port
    }

    /// The bytes of every write that the port took, oldest first.
    pub closed spec fn sent(&self) -> Seq<u8> {
        self.sent@
    }

    /// The bytes of every read that the port served, oldest first.
    pub closed spec fn received(&self) -> Seq<u8> {
        self.received@
    }

    /// The error of every transfer that failed, oldest first.
    pub closed spec fn faults(&self) -> Seq<std::io::Error> {
        self.faults@
    }

    /// Wraps `port`, with an empty trace.
    pub fn new(port: Port) -> (traced: Self)
        ensures
            traced.inner() == port,
            traced.sent() == Seq::<u8>::empty(),
            traced.received() == Seq::<u8>::empty(),
            traced.faults() == Seq::<std::io::Error>::empty(),
    {
        TracePort {
            port,
            sent: Ghost(Seq::empty()),
            received: Ghost(Seq::empty()),
            faults: Ghost(Seq::empty()),
        }
    }

    /// Gives up the trace for the port underneath.
    pub fn into_inner(self) -> (port: Port)
        ensures
            port == self.inner(),
    {
        self.port
    }

    /// The port underneath, to look at.
    pub fn get_ref(&self) -> (port: &Port)
        ensures
            *port == self.inner(),
    {
        &self.port
    }

    /// Writes all of `bytes` to the port. The trace gains them if the port
    /// took them, and the port's error if it failed.
    pub fn write_all(&mut self, bytes: &[u8]) -> (r: Result<(), std::io::Error>)
        ensures
            final(self).received() == old(self).received(),
            match r {
                Ok(()) => {
                    &&& final(self).sent() == old(self).sent() + bytes@
                    &&& final(self).faults() == old(self).faults()
                },
                Err(e) => {
                    &&& final(self).sent() == old(self).sent()
                    &&& final(self).faults() == old(self).faults().push(e)
                },
            },
    {
        let r = self.port.write_all(bytes);
        proof {
            if r is Ok {
                self.sent@ = self.sent@ + bytes@;
            } else {
                self.faults@ = self.faults@.push(r->Err_0);
            }
        }
        r
    }

    /// Reads exactly `len` bytes from the port. The trace gains them if the
    /// port served them, and the port's error if it failed. A port that
    /// hands back another number of bytes than it was asked for counts as
    /// failed, with the error of a stream that ended early.
    pub fn read_exact(&mut self, len: usize) -> (r: Result<Vec<u8>, std::io::Error>)
        ensures
            final(self).sent() == old(self).sent(),
            match r {
                Ok(bytes) => {
                    &&& bytes@.len() == len
                    &&& final(self).received() == old(self).received() + bytes@
                    &&& final(self).faults() == old(self).faults()
                },
                Err(e) => {
                    &&& final(self).received() == old(self).received()
                    &&& final(self).faults() == old(self).faults().push(e)
                },
            },
    {
        match self.port.read_exact(len) {
            Ok(bytes) => {
                if bytes.len() != len {
                    let e = unexpected_eof();
                    proof {
                        self.faults@ = self.faults@.push(e);
                    }
                    return Err(e);
                }
                proof {
                    self.received@ = self.received@ + bytes@;
                }
                Ok(bytes)
            },
            Err(e) => {
                proof {
                    self.faults@ = self.faults@.push(e);
                }
                Err(e)
            },
        }
    }
}

/// The bytes that `after` has read beyond those that `before` had read.
pub open spec fn reply_of<P: SerialPort>(before: &TracePort<P>, after: &TracePort<P>) -> Seq<u8> {
    after.received().skip(before.received().len() as int)
}

/// One whole exchange took `before` to `after`: all of `request` went out,
/// exactly `reply` came in, and no transfer failed.
pub open spec fn exchanged<P: SerialPort>(
    before: &TracePort<P>,
    after: &TracePort<P>,
    request: Seq<u8>,
    reply: Seq<u8>,
) -> bool {
    &&& after.sent() == before.sent() + request
    &&& after.received() == before.received() + reply
    &&& after.faults() == before.faults()
}

/// An exchange that the stream broke off with `fault` took `before` to
/// `after`: one transfer failed, with that error; of `request` nothing went
/// out, or its first byte, or all of it, and no byte was read unless all of
/// it had gone out.
pub open spec fn broke_off<P: SerialPort>(
    before: &TracePort<P>,
    after: &TracePort<P>,
    request: Seq<u8>,
    fault: std::io::Error,
) -> bool {
    &&& after.faults() == before.faults().push(fault)
    &&& {
        ||| after.sent() == before.sent()
        ||| after.sent() == before.sent() + request.take(1)
        ||| after.sent() == before.sent() + request
    }
    &&& before.received().is_prefix_of(after.received())
    &&& after.sent() != before.sent() + request ==> after.received() == before.received()
}

/// Nothing went over the wire between `before` and `after`.
pub open spec fn untouched<P: SerialPort>(before: &TracePort<P>, after: &TracePort<P>) -> bool {
    &&& after.sent() == before.sent()
    &&& after.received() == before.received()
    &&& after.faults() == before.faults()
}

} // verus!
