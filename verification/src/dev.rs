//! The device in its two states, idle and held in reset, and the commands
//! that each state allows.

use vstd::prelude::*;
use crate::cmds::{
    addr_wire, cmd_erase_64k, cmd_get_ver, cmd_program_page, cmd_read_page, cmd_release_fpga,
    cmd_reset, cmd_verify_page, page_wire, CmdArgs, CmdReply, GetVerReply, ProgData, ReadData,
    OP_ERASE_64K, OP_GET_VER, OP_PROGRAM_PAGE, OP_READ_PAGE, OP_RELEASE_FPGA, OP_RESET,
    OP_VERIFY_PAGE, PAGE_SIZE, VERSION_HEADER,
};
use crate::err::{Error, RangeError};
use crate::port::{broke_off, exchanged, reply_of, untouched, SerialPort, TracePort};

verus! {

/// Bytes of flash on the board: reads must end at or before this address.
pub const FLASH_SIZE: usize = 0x10_0000;

/// Something asked of the flash.
pub enum FlashOp {
    /// To erase one 64 KiB sector.
    Erase { sector: u8 },
    /// To program `data` at `addr`.
    Program { addr: usize, data: Seq<u8> },
    /// To compare `data` with the flash at `addr`.
    Verify { addr: usize, data: Seq<u8> },
}

/// Something asked of the flash, and how it ended.
pub struct Attempt {
    pub op: FlashOp,
    pub result: Result<(), Error>,
}

/// One read asked of the flash, and how it ended: with the bytes that were
/// handed on, or with an error.
pub struct PageRead {
    pub addr: usize,
    pub len: usize,
    pub result: Result<Seq<u8>, Error>,
}

/// A flash that can be erased, programmed and verified, page by page.
pub trait Programmable {
    /// Everything that was asked of the flash so far, and how each ended,
    /// oldest first.
    spec fn ops(&self) -> Seq<Attempt>;

    /// Erases the 64 KiB sector with index `page`.
    fn erase64k(&mut self, page: u8) -> (r: Result<(), Error>)
        ensures
            final(self).ops() == old(self).ops().push(
                Attempt { op: FlashOp::Erase { sector: page }, result: r },
            ),
    ;

    /// Programs `data` at `addr`.
    fn program_page(&mut self, addr: usize, data: &[u8]) -> (r: Result<(), Error>)
        ensures
            final(self).ops() == old(self).ops().push(
                Attempt { op: FlashOp::Program { addr, data: data@ }, result: r },
            ),
    ;

    /// Compares `data` with the flash at `addr`.
    fn verify_page(&mut self, addr: usize, data: &[u8]) -> (r: Result<(), Error>)
        ensures
            final(self).ops() == old(self).ops().push(
                Attempt { op: FlashOp::Verify { addr, data: data@ }, result: r },
            ),
    ;
}

/// Why a read of `len` bytes at `addr` is refused, if it is: more than a
/// page is asked for, or the read would end beyond the flash.
pub open spec fn read_refusal(addr: usize, len: usize) -> Option<RangeError> {
    if len > PAGE_SIZE {
        Some(RangeError::PageBound { len })
    } else if addr + len > FLASH_SIZE {
        Some(RangeError::FlashBound)
    } else {
        None
    }
}

/// How a read ended that gave `r` and appended `chunk` to its output.
pub open spec fn read_outcome(r: Result<(), Error>, chunk: Seq<u8>) -> Result<Seq<u8>, Error> {
    match r {
        Ok(()) => Ok(chunk),
        Err(e) => Err(e),
    }
}

/// A flash that can be read back, at most a page at a time.
pub trait Dumpable {
    /// Every read that was asked of the flash so far, and how each ended,
    /// oldest first.
    spec fn reads(&self) -> Seq<PageRead>;

    /// Reads `len` bytes at `addr` and appends them to `output`.
    ///
    /// A read that `read_refusal` refuses fails with that reason, and no
    /// other failure is a refusal. A read that succeeds appends exactly `len`
    /// bytes, and one that fails appends none.
    fn read_page(&mut self, addr: usize, len: usize, output: &mut Vec<u8>) -> (r: Result<
        (),
        Error,
    >)
        ensures
            match read_refusal(addr, len) {
                Some(refusal) => r == Err::<(), Error>(Error::Range(refusal)),
                None => !(r is Err && r->Err_0 is Range),
            },
            old(output)@.is_prefix_of(final(output)@),
            r is Ok ==> final(output)@.len() == old(output)@.len() + len,
            r is Err ==> final(output)@ == old(output)@,
            final(self).reads() == old(self).reads().push(
                PageRead {
                    addr,
                    len,
                    result: read_outcome(r, final(output)@.skip(old(output)@.len() as int)),
                },
            ),
    ;
}

/// The board as it is when nothing holds it: the stream is open and only the
/// version query and the reset may be sent.
pub struct Device<Port: SerialPort> {
    /// The stream to the board, with the trace of its traffic.
    pub port: TracePort<Port>,
}

impl<Port: SerialPort> Device<Port> {
    /// The idle device on `port`, with nothing sent or received yet.
    pub fn new(port: Port) -> (dev: Self)
        ensures
            dev.port.inner() == port,
            dev.port.sent() == Seq::<u8>::empty(),
            dev.port.received() == Seq::<u8>::empty(),
            dev.port.faults() == Seq::<std::io::Error>::empty(),
    {
        Device { port: TracePort::new(port) }
    }

    /// Asks the board for its firmware version.
    ///
    /// The result is the stream's error exactly when a transfer failed.
    /// Otherwise the one opcode byte has gone out and two bytes have come in;
    /// the result is the second of them if the first is the version header,
    /// and a protocol error that carries the first if it is not.
    pub fn getver(&mut self) -> (r: Result<GetVerReply, Error>)
        ensures
            match r {
                Err(Error::Io(e)) => broke_off(
                    &old(self).port,
                    &final(self).port,
                    seq![OP_GET_VER],
                    e,
                ),
                _ => {
                    let reply = reply_of(&old(self).port, &final(self).port);
                    &&& exchanged(&old(self).port, &final(self).port, seq![OP_GET_VER], reply)
                    &&& reply.len() == 2
                    &&& r == if reply[0] == VERSION_HEADER {
                        Ok::<GetVerReply, Error>(GetVerReply(reply[1]))
                    } else {
                        Err::<GetVerReply, Error>(Error::Protocol { header: reply[0] })
                    }
                },
            },
    {
        let command = cmd_get_ver();
        proof {
            assert(command.request(&()) =~= seq![OP_GET_VER]);
        }
        command.send(&mut self.port, &())
    }

    /// Holds the FPGA in reset, so that the flash can be reached. The device
    /// is given up: on success it comes back inside the new state, together
    /// with the flash chip's identifier; on failure the stream is closed.
    ///
    /// The only failure is one of the stream. On success the one opcode byte
    /// has gone out, the identifier's three bytes have come in, and nothing
    /// has been done to the flash yet.
    pub fn reset_fpga(self) -> (r: Result<([u8; 3], DeviceInReset<Port>), Error>)
        ensures
            r is Err ==> r->Err_0 is Io,
            r is Ok ==> {
                let (id, held) = r->Ok_0;
                &&& exchanged(&self.port, &held.dev.port, seq![OP_RESET], id@)
                &&& held.ops() == Seq::<Attempt>::empty()
                &&& held.reads() == Seq::<PageRead>::empty()
            },
    {
        let mut dev = self;
        let command = cmd_reset();
        proof {
            assert(command.request(&()) =~= seq![OP_RESET]);
        }
        match command.send(&mut dev.port, &()) {
            Ok(id) => Ok(
                (id, DeviceInReset { dev, done: Ghost(Seq::empty()), served: Ghost(Seq::empty()) }),
            ),
            Err(e) => Err(e),
        }
    }

    /// Checks the firmware's version reply and then holds the FPGA in reset,
    /// and hands back what the board said of itself on the way: the firmware
    /// version and the flash chip's identifier.
    ///
    /// The failures are those of the stream and a version reply with a wrong
    /// header. On success the two opcode bytes have gone out, one after the
    /// other, and the version reply followed by the flash identifier have
    /// come in.
    pub fn identify(self) -> (r: Result<(GetVerReply, [u8; 3], DeviceInReset<Port>), Error>)
        ensures
            r is Err ==> r->Err_0 is Io || r->Err_0 is Protocol,
            r is Err && r->Err_0 is Protocol ==> r->Err_0->header != VERSION_HEADER,
            r is Ok ==> {
                let (version, id, held) = r->Ok_0;
                &&& exchanged(
                    &self.port,
                    &held.dev.port,
                    seq![OP_GET_VER, OP_RESET],
                    seq![VERSION_HEADER, version.0] + id@,
                )
                &&& held.ops() == Seq::<Attempt>::empty()
                &&& held.reads() == Seq::<PageRead>::empty()
            },
    {
        let mut dev = self;
        let version = dev.getver()?;
        let ghost mid = dev.port;
        let (id, held) = dev.reset_fpga()?;
        proof {
            let first = reply_of(&self.port, &mid);
            assert(first =~= seq![VERSION_HEADER, version.0]);
            assert(held.dev.port.sent() =~= self.port.sent() + seq![OP_GET_VER, OP_RESET]);
            assert(held.dev.port.received() =~= self.port.received() + (first + id@));
        }
        Ok((version, id, held))
    }

    /// Checks the firmware's version reply and then holds the FPGA in reset:
    /// the one way into the state in which the flash can be reached.
    ///
    /// The failures are those of the stream and a version reply with a wrong
    /// header. On success the two opcode bytes have gone out, one after the
    /// other, and a well-formed version reply followed by the flash
    /// identifier has come in.
    pub fn prepare(self) -> (r: Result<DeviceInReset<Port>, Error>)
        ensures
            r is Err ==> r->Err_0 is Io || r->Err_0 is Protocol,
            r is Err && r->Err_0 is Protocol ==> r->Err_0->header != VERSION_HEADER,
            r is Ok ==> {
                let held = r->Ok_0;
                let reply = reply_of(&self.port, &held.dev.port);
                &&& exchanged(&self.port, &held.dev.port, seq![OP_GET_VER, OP_RESET], reply)
                &&& reply.len() == 5
                &&& reply[0] == VERSION_HEADER
                &&& held.ops() == Seq::<Attempt>::empty()
                &&& held.reads() == Seq::<PageRead>::empty()
            },
    {
        let (version, id, held) = self.identify()?;
        proof {
            let reply = seq![VERSION_HEADER, version.0] + id@;
            assert(reply_of(&self.port, &held.dev.port) =~= reply);
        }
        Ok(held)
    }
}

/// The board while the FPGA is held in reset: the flash can be erased,
/// programmed, verified and read. It is made by a reset only, and ends with
/// `release`.
pub struct DeviceInReset<Port: SerialPort> {
    /// The device that was reset.
    pub dev: Device<Port>,
    /// What was asked of the flash since the reset, but for reads.
    pub done: Ghost<Seq<Attempt>>,
    /// The reads that were asked of the flash since the reset.
    pub served: Ghost<Seq<PageRead>>,
}

/// The request that erases sector `sector`.
pub open spec fn erase_request(sector: u8) -> Seq<u8> {
    seq![OP_ERASE_64K, sector]
}

/// The request that opcode `op` makes of one page: the opcode, the address
/// and the payload, cut or zero-filled to one page.
pub open spec fn page_request(op: u8, addr: usize, data: Seq<u8>) -> Seq<u8> {
    seq![op] + (addr_wire(addr) + page_wire(data))
}

/// The request that reads the page at `addr`.
pub open spec fn read_request(addr: usize) -> Seq<u8> {
    seq![OP_READ_PAGE] + addr_wire(addr)
}

/// What a command with a bare status reply has done to the wire, given its
/// result: the result is the stream's error exactly when a transfer failed,
/// and otherwise the request went out and one status byte came in, whatever
/// it holds.
pub open spec fn status_exchange<Port: SerialPort>(
    before: &TracePort<Port>,
    after: &TracePort<Port>,
    request: Seq<u8>,
    r: Result<(), Error>,
) -> bool {
    let reply = reply_of(before, after);
    match r {
        Ok(()) => exchanged(before, after, request, reply) && reply.len() == 1,
        Err(Error::Io(e)) => broke_off(before, after, request, e),
        Err(_) => false,
    }
}

/// What a page command has done to the wire, given its result: the result is
/// the stream's error exactly when a transfer failed; otherwise the request
/// went out and the reply is a lone zero for success, or a non-zero status
/// and the three bytes of the mismatch that the error carries.
pub open spec fn page_exchange<Port: SerialPort>(
    before: &TracePort<Port>,
    after: &TracePort<Port>,
    request: Seq<u8>,
    r: Result<(), Error>,
) -> bool {
    let reply = reply_of(before, after);
    match r {
        Ok(()) => exchanged(before, after, request, reply) && reply == seq![0u8],
        Err(Error::Io(e)) => broke_off(before, after, request, e),
        Err(e) => exchanged(before, after, request, reply) && reply.len() == 4 && reply[0] != 0
            && e == (Error::Device {
            status: reply[0],
            offset: reply[1],
            expected: reply[2],
            actual: reply[3],
        }),
    }
}

impl<Port: SerialPort> DeviceInReset<Port> {
    /// Lets the FPGA run again and gives the device back in its idle state.
    /// The release is sent once, whatever happened before; its own failure is
    /// handed back beside the device and ends nothing.
    ///
    /// The result is the stream's error exactly when a transfer failed.
    /// Otherwise the one opcode byte has gone out and one status byte has
    /// come in, which is ignored.
    pub fn release(self) -> (r: (Device<Port>, Result<(), Error>))
        ensures
            status_exchange(&self.dev.port, &r.0.port, seq![OP_RELEASE_FPGA], r.1),
    {
        let mut dev = self.dev;
        let command = cmd_release_fpga();
        proof {
            assert(command.request(&()) =~= seq![OP_RELEASE_FPGA]);
        }
        let result = command.send(&mut dev.port, &());
        (dev, result)
    }
}

impl<Port: SerialPort> Programmable for DeviceInReset<Port> {
    open spec fn ops(&self) -> Seq<Attempt> {
        self.done@
    }

    /// The result is the stream's error exactly when a transfer failed.
    /// Otherwise the opcode and the sector index have gone out and one status
    /// byte has come in, which is ignored.
    fn erase64k(&mut self, page: u8) -> (r: Result<(), Error>)
        ensures
            final(self).served@ == old(self).served@,
            status_exchange(
                &old(self).dev.port,
                &final(self).dev.port,
                erase_request(page),
                r,
            ),
    {
        let command = cmd_erase_64k();
        let args: [u8; 1] = [page];
        proof {
            assert(command.request(&args) =~= erase_request(page));
        }
        let r = command.send(&mut self.dev.port, &args);
        proof {
            self.done@ = self.done@.push(
                Attempt { op: FlashOp::Erase { sector: page }, result: r },
            );
        }
        r
    }

    /// The page goes out behind the opcode and the address, cut or
    /// zero-filled to one page; the reply is read as `page_exchange` says.
    fn program_page(&mut self, addr: usize, data: &[u8]) -> (r: Result<(), Error>)
        ensures
            final(self).served@ == old(self).served@,
            page_exchange(
                &old(self).dev.port,
                &final(self).dev.port,
                page_request(OP_PROGRAM_PAGE, addr, data@),
                r,
            ),
    {
        let command = cmd_program_page();
        let args = ProgData { addr, data };
        proof {
            assert(command.request(&args) =~= page_request(OP_PROGRAM_PAGE, addr, data@));
        }
        let r = match command.send(&mut self.dev.port, &args) {
            Ok(_) => {
                proof {
                    let reply = reply_of(&old(self).dev.port, &self.dev.port);
                    assert(reply =~= seq![0u8]);
                }
                Ok(())
            },
            Err(e) => Err(e),
        };
        proof {
            self.done@ = self.done@.push(
                Attempt { op: FlashOp::Program { addr, data: data@ }, result: r },
            );
        }
        r
    }

    /// The page goes out behind the opcode and the address, cut or
    /// zero-filled to one page; the reply is read as `page_exchange` says.
    fn verify_page(&mut self, addr: usize, data: &[u8]) -> (r: Result<(), Error>)
        ensures
            final(self).served@ == old(self).served@,
            page_exchange(
                &old(self).dev.port,
                &final(self).dev.port,
                page_request(OP_VERIFY_PAGE, addr, data@),
                r,
            ),
    {
        let command = cmd_verify_page();
        let args = ProgData { addr, data };
        proof {
            assert(command.request(&args) =~= page_request(OP_VERIFY_PAGE, addr, data@));
        }
        let r = match command.send(&mut self.dev.port, &args) {
            Ok(_) => {
                proof {
                    let reply = reply_of(&old(self).dev.port, &self.dev.port);
                    assert(reply =~= seq![0u8]);
                }
                Ok(())
            },
            Err(e) => Err(e),
        };
        proof {
            self.done@ = self.done@.push(
                Attempt { op: FlashOp::Verify { addr, data: data@ }, result: r },
            );
        }
        r
    }
}

impl<Port: SerialPort> Dumpable for DeviceInReset<Port> {
    open spec fn reads(&self) -> Seq<PageRead> {
        self.served@
    }

    /// A refused read sends nothing. Any other read fails exactly when a
    /// transfer fails, with the stream's error; otherwise the opcode and the
    /// address have gone out, one whole page has come in, and the first `len`
    /// bytes of that page are appended to `output`.
    fn read_page(&mut self, addr: usize, len: usize, output: &mut Vec<u8>) -> (r: Result<
        (),
        Error,
    >)
        ensures
            final(self).done@ == old(self).done@,
            read_refusal(addr, len) is Some ==> untouched(
                &old(self).dev.port,
                &final(self).dev.port,
            ),
            read_refusal(addr, len) is None ==> match r {
                Ok(()) => {
                    let reply = reply_of(&old(self).dev.port, &final(self).dev.port);
                    &&& exchanged(
                        &old(self).dev.port,
                        &final(self).dev.port,
                        read_request(addr),
                        reply,
                    )
                    &&& reply.len() == PAGE_SIZE
                    &&& final(output)@ == old(output)@ + reply.take(len as int)
                },
                Err(Error::Io(e)) => broke_off(
                    &old(self).dev.port,
                    &final(self).dev.port,
                    read_request(addr),
                    e,
                ),
                Err(_) => false,
            },
    {
        if len > PAGE_SIZE {
            return self.refuse(addr, len, output, RangeError::PageBound { len });
        }
        if addr > FLASH_SIZE - len {
            return self.refuse(addr, len, output, RangeError::FlashBound);
        }
        let command = cmd_read_page();
        let args = ReadData { addr };
        proof {
            assert(command.request(&args) =~= read_request(addr));
        }
        let page = match command.send(&mut self.dev.port, &args) {
            Ok(page) => page,
            Err(e) => {
                proof {
                    assert(output@.skip(output@.len() as int) =~= Seq::<u8>::empty());
                    self.served@ = self.served@.push(PageRead { addr, len, result: Err(e) });
                }
                return Err(e);
            },
        };
        let ghost reply = reply_of(&old(self).dev.port, &self.dev.port);
        let mut i: usize = 0;
        while i < len
            invariant
                i <= len <= PAGE_SIZE,
                page.0@ == reply,
                reply.len() == PAGE_SIZE,
                output@ == old(output)@ + reply.take(i as int),
            decreases len - i,
        {
            output.push(page.0[i]);
            proof {
                assert(reply.take(i + 1) == reply.take(i as int).push(reply[i as int]));
                assert(output@ =~= old(output)@ + reply.take(i + 1));
            }
            i += 1;
        }
        proof {
            assert(output@.skip(old(output)@.len() as int) =~= reply.take(len as int));
            self.served@ = self.served@.push(
                PageRead { addr, len, result: Ok(reply.take(len as int)) },
            );
        }
        Ok(())
    }
}

impl<Port: SerialPort> DeviceInReset<Port> {
    /// Refuses a read: notes it and hands back the refusal, with the wire and
    /// the output left alone.
    fn refuse(&mut self, addr: usize, len: usize, output: &Vec<u8>, refusal: RangeError) -> (r:
        Result<(), Error>)
        ensures
            r == Err::<(), Error>(Error::Range(refusal)),
            final(self).dev == old(self).dev,
            final(self).done@ == old(self).done@,
            final(self).served@ == old(self).served@.push(
                PageRead { addr, len, result: Err(Error::Range(refusal)) },
            ),
    {
        proof {
            self.served@ = self.served@.push(
                PageRead { addr, len, result: Err(Error::Range(refusal)) },
            );
        }
        Err(Error::Range(refusal))
    }
}

} // verus!
