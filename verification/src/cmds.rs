//! The wire codec and the command channel: how the arguments of each command
//! are encoded, how each reply is decoded, and the one exchange of a request
//! for a reply that everything else is built on.

use vstd::prelude::*;
use crate::err::Error;
use crate::port::{broke_off, exchanged, reply_of, SerialPort, TracePort};
use core::marker::PhantomData;

verus! {

/// Bytes in one flash page, and in the data part of every page transfer.
pub const PAGE_SIZE: usize = 256;

/// First byte of every well-formed version reply.
pub const VERSION_HEADER: u8 = 38;

/// The three address bytes of a page transfer: the low 24 bits of `addr`,
/// most significant byte first. Higher bits never reach the wire.
pub open spec fn addr_wire(addr: usize) -> Seq<u8> {
    seq![
        ((addr as int / 0x1_0000) % 0x100) as u8,
        ((addr as int / 0x100) % 0x100) as u8,
        (addr as int % 0x100) as u8,
    ]
}

/// The address bytes are the three low bytes of the address, the highest of
/// them first.
pub proof fn lemma_addr_wire_is_low_bits(addr: usize)
    ensures
        addr_wire(addr).len() == 3,
        addr_wire(addr)[0] == (addr >> 16) & 0xff,
        addr_wire(addr)[1] == (addr >> 8) & 0xff,
        addr_wire(addr)[2] == addr & 0xff,
{
    assert((addr >> 16) & 0xff == (addr / 0x1_0000) % 0x100) by (bit_vector);
    assert((addr >> 8) & 0xff == (addr / 0x100) % 0x100) by (bit_vector);
    assert(addr & 0xff == addr % 0x100) by (bit_vector);
}

/// `data` cut or zero-filled to exactly one page.
pub open spec fn page_wire(data: Seq<u8>) -> Seq<u8> {
    Seq::new(
        PAGE_SIZE as nat,
        |i: int|
            if i < data.len() {
                data[i]
            } else {
                0u8
            },
    )
}

/// Arguments of a command: something with a fixed form on the wire.
pub trait CmdArgs {
    /// The bytes that follow the opcode.
    spec fn wire(&self) -> Seq<u8>;

    /// Encodes the arguments.
    fn encode(&self) -> (bytes: Vec<u8>)
        ensures
            bytes@ == self.wire(),
    ;

    /// Writes the encoded arguments to `port`.
    fn send_args<P: SerialPort>(&self, port: &mut TracePort<P>) -> (r: Result<(), Error>)
        ensures
            final(port).received() == old(port).received(),
            match r {
                Ok(()) => {
                    &&& final(port).sent() == old(port).sent() + self.wire()
                    &&& final(port).faults() == old(port).faults()
                },
                Err(Error::Io(e)) => {
                    &&& final(port).sent() == old(port).sent()
                    &&& final(port).faults() == old(port).faults().push(e)
                },
                Err(_) => false,
            },
    {
        let bytes = self.encode();
        match port.write_all(bytes.as_slice()) {
            Ok(()) => Ok(()),
            Err(e) => Err(Error::Io(e)),
        }
    }
}

/// A command without arguments sends nothing after its opcode.
impl CmdArgs for () {
    open spec fn wire(&self) -> Seq<u8> {
        Seq::empty()
    }

    fn encode(&self) -> (bytes: Vec<u8>) {
        Vec::new()
    }
}

/// Raw bytes of a fixed length go out as they are.
impl<const LEN: usize> CmdArgs for [u8; LEN] {
    open spec fn wire(&self) -> Seq<u8> {
        self@
    }

    fn encode(&self) -> (bytes: Vec<u8>) {
        let mut bytes: Vec<u8> = Vec::new();
        let mut i: usize = 0;
        while i < LEN
            invariant
                i <= LEN,
                bytes@ == self@.take(i as int),
            decreases LEN - i,
        {
            bytes.push(self[i]);
            proof {
                assert(self@.take(i + 1) == self@.take(i as int).push(self@[i as int]));
            }
            i += 1;
        }
        proof {
            assert(self@.take(LEN as int) == self@);
        }
        bytes
    }
}

/// Encodes the low 24 bits of `addr`, most significant byte first.
pub fn addr_bytes(addr: usize) -> (bytes: [u8; 3])
    ensures
        bytes@ == addr_wire(addr),
{
    let bytes: [u8; 3] = [
        ((addr / 0x1_0000) % 0x100) as u8,
        ((addr / 0x100) % 0x100) as u8,
        (addr % 0x100) as u8,
    ];
    proof {
        assert(bytes@ =~= addr_wire(addr));
    }
    bytes
}

/// One page to program or to verify: where it goes and what it holds.
#[derive(Debug)]
pub struct ProgData<'a> {
    /// Byte offset into the flash.
    pub addr: usize,
    /// The payload: at most one page is sent, a shorter one is zero-filled.
    pub data: &'a [u8],
}

impl CmdArgs for ProgData<'_> {
    open spec fn wire(&self) -> Seq<u8> {
        addr_wire(self.addr) + page_wire(self.data@)
    }

    fn encode(&self) -> (bytes: Vec<u8>) {
        let head = addr_bytes(self.addr);
        let mut bytes: Vec<u8> = Vec::new();
        bytes.push(head[0]);
        bytes.push(head[1]);
        bytes.push(head[2]);
        let mut i: usize = 0;
        while i < PAGE_SIZE
            invariant
                i <= PAGE_SIZE,
                bytes@ == addr_wire(self.addr) + page_wire(self.data@).take(i as int),
            decreases PAGE_SIZE - i,
        {
            let b: u8 = if i < self.data.len() {
                self.data[i]
            } else {
                0
            };
            bytes.push(b);
            proof {
                let page = page_wire(self.data@);
                assert(page.take(i + 1) == page.take(i as int).push(page[i as int]));
                assert(bytes@ =~= addr_wire(self.addr) + page.take(i + 1));
            }
            i += 1;
        }
        proof {
            let page = page_wire(self.data@);
            assert(page.take(PAGE_SIZE as int) == page);
        }
        bytes
    }
}

/// The page to read back.
#[derive(Debug)]
pub struct ReadData {
    /// Byte offset into the flash.
    pub addr: usize,
}

impl CmdArgs for ReadData {
    open spec fn wire(&self) -> Seq<u8> {
        addr_wire(self.addr)
    }

    fn encode(&self) -> (bytes: Vec<u8>) {
        let head = addr_bytes(self.addr);
        let mut bytes: Vec<u8> = Vec::new();
        bytes.push(head[0]);
        bytes.push(head[1]);
        bytes.push(head[2]);
        proof {
            assert(bytes@ =~= addr_wire(self.addr));
        }
        bytes
    }
}

/// Every encoded page transfer is three address bytes and one whole page,
/// whatever the payload's length.
pub proof fn lemma_prog_data_wire_len(addr: usize, data: &[u8])
    ensures
        (ProgData { addr, data }).wire().len() == 3 + PAGE_SIZE,
{
}

/// A payload of at most one page is sent whole, right after the address, and
/// every byte behind it up to the page's end is zero.
pub proof fn lemma_prog_data_wire_padded(addr: usize, data: &[u8])
    requires
        data@.len() <= PAGE_SIZE,
    ensures
        (ProgData { addr, data }).wire().len() == 3 + PAGE_SIZE,
        (ProgData { addr, data }).wire().subrange(0, 3) == addr_wire(addr),
        (ProgData { addr, data }).wire().subrange(3, 3 + data@.len() as int) == data@,
        forall|i: int|
            3 + data@.len() <= i < 3 + PAGE_SIZE ==> (ProgData { addr, data }).wire()[i] == 0,
{
    let wire = (ProgData { addr, data }).wire();
    assert(wire.subrange(0, 3) =~= addr_wire(addr));
    assert(wire.subrange(3, 3 + data@.len() as int) =~= data@);
}

/// A payload longer than one page is cut: the first page of it is sent.
pub proof fn lemma_prog_data_wire_truncated(addr: usize, data: &[u8])
    requires
        data@.len() >= PAGE_SIZE,
    ensures
        (ProgData { addr, data }).wire() == addr_wire(addr) + data@.take(PAGE_SIZE as int),
{
    assert(page_wire(data@) =~= data@.take(PAGE_SIZE as int));
}

/// Reply of a command: something that is read from the wire in a fixed form.
pub trait CmdReply: Sized {
    /// Whether `reply` is one whole reply of this kind, no byte missing and
    /// none left over.
    spec fn framed(reply: Seq<u8>) -> bool;

    /// Whether the whole reply `reply` decodes to `outcome`.
    spec fn decodes(reply: Seq<u8>, outcome: Result<Self, Error>) -> bool;

    /// A whole reply decodes to one outcome and no other.
    proof fn lemma_decodes_one(reply: Seq<u8>, a: Result<Self, Error>, b: Result<Self, Error>)
        requires
            Self::framed(reply),
            Self::decodes(reply, a),
            Self::decodes(reply, b),
        ensures
            a == b,
            !(a is Err && a->Err_0 is Io),
    ;

    /// Decodes one whole reply.
    fn decode(reply: &[u8]) -> (r: Result<Self, Error>)
        requires
            Self::framed(reply@),
        ensures
            Self::decodes(reply@, r),
    ;

    /// Reads one reply from `port` and decodes it. The result is the
    /// stream's error exactly when a read failed; otherwise exactly one whole
    /// reply is taken from the stream, and the result is what it decodes to.
    fn receive_reply<P: SerialPort>(port: &mut TracePort<P>) -> (r: Result<Self, Error>)
        ensures
            final(port).sent() == old(port).sent(),
            old(port).received().is_prefix_of(final(port).received()),
            match r {
                Err(Error::Io(e)) => final(port).faults() == old(port).faults().push(e),
                _ => {
                    &&& final(port).faults() == old(port).faults()
                    &&& Self::framed(reply_of(old(port), final(port)))
                    &&& Self::decodes(reply_of(old(port), final(port)), r)
                },
            },
    ;
}

/// Reads `len` bytes for a reply that has a fixed length.
fn read_fixed<P: SerialPort>(port: &mut TracePort<P>, len: usize) -> (r: Result<Vec<u8>, Error>)
    ensures
        final(port).sent() == old(port).sent(),
        old(port).received().is_prefix_of(final(port).received()),
        match r {
            Ok(bytes) => {
                &&& bytes@.len() == len
                &&& bytes@ == reply_of(old(port), final(port))
                &&& final(port).faults() == old(port).faults()
            },
            Err(Error::Io(e)) => {
                &&& final(port).received() == old(port).received()
                &&& final(port).faults() == old(port).faults().push(e)
            },
            Err(_) => false,
        },
{
    match port.read_exact(len) {
        Ok(bytes) => {
            proof {
                let before = old(port).received();
                assert((before + bytes@).skip(before.len() as int) =~= bytes@);
            }
            Ok(bytes)
        },
        Err(e) => Err(Error::Io(e)),
    }
}

/// A reply without content is still one status byte on the wire, which is
/// read and ignored.
impl CmdReply for () {
    open spec fn framed(reply: Seq<u8>) -> bool {
        reply.len() == 1
    }

    open spec fn decodes(reply: Seq<u8>, outcome: Result<Self, Error>) -> bool {
        outcome == Ok::<(), Error>(())
    }

    proof fn lemma_decodes_one(reply: Seq<u8>, a: Result<Self, Error>, b: Result<Self, Error>) {
    }

    fn decode(reply: &[u8]) -> (r: Result<Self, Error>) {
        Ok(())
    }

    fn receive_reply<P: SerialPort>(port: &mut TracePort<P>) -> (r: Result<Self, Error>) {
        let buf = read_fixed(port, 1)?;
        Self::decode(buf.as_slice())
    }
}

/// Raw bytes of a fixed length come in as they are.
impl<const LEN: usize> CmdReply for [u8; LEN] {
    open spec fn framed(reply: Seq<u8>) -> bool {
        reply.len() == LEN
    }

    open spec fn decodes(reply: Seq<u8>, outcome: Result<Self, Error>) -> bool {
        outcome is Ok && outcome->Ok_0@ == reply
    }

    proof fn lemma_decodes_one(reply: Seq<u8>, a: Result<Self, Error>, b: Result<Self, Error>) {
        assert(a->Ok_0 == b->Ok_0) by {
            vstd::array::axiom_array_ext_equal(a->Ok_0, b->Ok_0);
            assert(a->Ok_0@ =~= b->Ok_0@);
        }
    }

    fn decode(reply: &[u8]) -> (r: Result<Self, Error>) {
        let mut buf = [0u8; LEN];
        let mut i: usize = 0;
        while i < LEN
            invariant
                i <= LEN,
                reply@.len() == LEN,
                buf@.len() == LEN,
                forall|j: int| 0 <= j < i ==> buf@[j] == reply@[j],
            decreases LEN - i,
        {
            buf[i] = reply[i];
            i += 1;
        }
        proof {
            assert(buf@ =~= reply@);
        }
        Ok(buf)
    }

    fn receive_reply<P: SerialPort>(port: &mut TracePort<P>) -> (r: Result<Self, Error>) {
        let buf = read_fixed(port, LEN)?;
        Self::decode(buf.as_slice())
    }
}

/// The firmware version the board reports.
#[derive(Debug)]
pub struct GetVerReply(pub u8);

impl CmdReply for GetVerReply {
    open spec fn framed(reply: Seq<u8>) -> bool {
        reply.len() == 2
    }

    /// The first byte must be the header; the second is the version.
    open spec fn decodes(reply: Seq<u8>, outcome: Result<Self, Error>) -> bool {
        outcome == if reply[0] == VERSION_HEADER {
            Ok::<GetVerReply, Error>(GetVerReply(reply[1]))
        } else {
            Err::<GetVerReply, Error>(Error::Protocol { header: reply[0] })
        }
    }

    proof fn lemma_decodes_one(reply: Seq<u8>, a: Result<Self, Error>, b: Result<Self, Error>) {
    }

    fn decode(reply: &[u8]) -> (r: Result<Self, Error>) {
        if reply[0] == VERSION_HEADER {
            Ok(GetVerReply(reply[1]))
        } else {
            Err(Error::Protocol { header: reply[0] })
        }
    }

    fn receive_reply<P: SerialPort>(port: &mut TracePort<P>) -> (r: Result<Self, Error>) {
        let buf = read_fixed(port, 2)?;
        Self::decode(buf.as_slice())
    }
}

/// The board's word that a page was programmed, or that it verifies.
#[derive(Debug)]
pub struct ProgResult;

impl CmdReply for ProgResult {
    /// A zero status stands alone; any other is followed by three bytes that
    /// describe the mismatch.
    open spec fn framed(reply: Seq<u8>) -> bool {
        ||| reply.len() == 1 && reply[0] == 0
        ||| reply.len() == 4 && reply[0] != 0
    }

    open spec fn decodes(reply: Seq<u8>, outcome: Result<Self, Error>) -> bool {
        outcome == if reply[0] == 0 {
            Ok::<ProgResult, Error>(ProgResult)
        } else {
            Err::<ProgResult, Error>(
                Error::Device {
                    status: reply[0],
                    offset: reply[1],
                    expected: reply[2],
                    actual: reply[3],
                },
            )
        }
    }

    proof fn lemma_decodes_one(reply: Seq<u8>, a: Result<Self, Error>, b: Result<Self, Error>) {
    }

    fn decode(reply: &[u8]) -> (r: Result<Self, Error>) {
        if reply[0] == 0 {
            Ok(ProgResult)
        } else {
            Err(
                Error::Device {
                    status: reply[0],
                    offset: reply[1],
                    expected: reply[2],
                    actual: reply[3],
                },
            )
        }
    }

    fn receive_reply<P: SerialPort>(port: &mut TracePort<P>) -> (r: Result<Self, Error>) {
        let mut reply = read_fixed(port, 1)?;
        if reply[0] != 0 {
            let mut detail = read_fixed(port, 3)?;
            reply.append(&mut detail);
            proof {
                assert(reply_of(old(port), port) =~= reply@);
            }
        }
        Self::decode(reply.as_slice())
    }
}

/// One page as read back from the flash.
#[derive(Debug)]
pub struct ReadResult(pub [u8; PAGE_SIZE]);

impl CmdReply for ReadResult {
    open spec fn framed(reply: Seq<u8>) -> bool {
        reply.len() == PAGE_SIZE
    }

    open spec fn decodes(reply: Seq<u8>, outcome: Result<Self, Error>) -> bool {
        outcome is Ok && outcome->Ok_0.0@ == reply
    }

    proof fn lemma_decodes_one(reply: Seq<u8>, a: Result<Self, Error>, b: Result<Self, Error>) {
        assert(a->Ok_0.0 == b->Ok_0.0) by {
            vstd::array::axiom_array_ext_equal(a->Ok_0.0, b->Ok_0.0);
            assert(a->Ok_0.0@ =~= b->Ok_0.0@);
        }
    }

    fn decode(reply: &[u8]) -> (r: Result<Self, Error>) {
        match <[u8; PAGE_SIZE]>::decode(reply) {
            Ok(page) => Ok(ReadResult(page)),
            Err(e) => Err(e),
        }
    }

    fn receive_reply<P: SerialPort>(port: &mut TracePort<P>) -> (r: Result<Self, Error>) {
        let buf = read_fixed(port, PAGE_SIZE)?;
        Self::decode(buf.as_slice())
    }
}

/// Opcode of the command that asks for the firmware version.
pub const OP_GET_VER: u8 = 0xb1;

/// Opcode of the command that holds the FPGA in reset and identifies the flash.
pub const OP_RESET: u8 = 0xb2;

/// Opcode of the command that erases one 64 KiB sector.
pub const OP_ERASE_64K: u8 = 0xb4;

/// Opcode of the command that programs one page.
pub const OP_PROGRAM_PAGE: u8 = 0xb5;

/// Opcode of the command that reads one page back.
pub const OP_READ_PAGE: u8 = 0xb6;

/// Opcode of the command that compares one page with the flash.
pub const OP_VERIFY_PAGE: u8 = 0xb7;

/// Opcode of the command that lets the FPGA run again.
pub const OP_RELEASE_FPGA: u8 = 0xb9;

/// An opcode together with the form of its arguments and of its reply. It
/// holds nothing of any one call and can be used again and again.
pub struct Command<Args: CmdArgs, Reply: CmdReply> {
    /// The opcode: the first byte of every request.
    pub cmd: u8,
    /// Marks the form of the arguments.
    pub args: PhantomData<Args>,
    /// Marks the form of the reply.
    pub reply: PhantomData<Reply>,
}

impl<Args: CmdArgs, Reply: CmdReply> Command<Args, Reply> {
    /// The command with opcode `cmd`.
    pub fn new(cmd: u8) -> (command: Self)
        ensures
            command.cmd == cmd,
    {
        Command { cmd, args: PhantomData, reply: PhantomData }
    }

    /// The whole request: the opcode and then the encoded arguments.
    pub open spec fn request(&self, args: &Args) -> Seq<u8> {
        seq![self.cmd] + args.wire()
    }

    /// Sends the request and reads the reply: one request, one reply, nothing
    /// in between.
    ///
    /// The result is the stream's error exactly when a transfer failed: then
    /// the opcode, the whole request or nothing has gone out, and no byte was
    /// read unless the whole request has. Otherwise the whole request has
    /// gone out, exactly one whole reply has come in, and the result is what
    /// that reply decodes to.
    pub fn send<P: SerialPort>(&self, port: &mut TracePort<P>, args: &Args) -> (r: Result<
        Reply,
        Error,
    >)
        ensures
            match r {
                Err(Error::Io(e)) => broke_off(old(port), final(port), self.request(args), e),
                _ => {
                    &&& exchanged(
                        old(port),
                        final(port),
                        self.request(args),
                        reply_of(old(port), final(port)),
                    )
                    &&& Reply::framed(reply_of(old(port), final(port)))
                    &&& Reply::decodes(reply_of(old(port), final(port)), r)
                },
            },
    {
        let ghost before = port.sent();
        let ghost request = self.request(args);
        let head: [u8; 1] = [self.cmd];
        proof {
            assert(head@ =~= request.take(1));
        }
        match port.write_all(head.as_slice()) {
            Ok(()) => {},
            Err(e) => {
                return Err(Error::Io(e));
            },
        }
        match args.send_args(port) {
            Ok(()) => {},
            Err(e) => {
                return Err(e);
            },
        }
        let ghost sent = port.received();
        proof {
            assert(port.sent() =~= before + request);
        }
        let r = Reply::receive_reply(port);
        proof {
            let got = port.received().skip(sent.len() as int);
            assert(port.received() =~= sent + got);
        }
        r
    }
}

/// Asks for the firmware version.
pub fn cmd_get_ver() -> (command: Command<(), GetVerReply>)
    ensures
        command.cmd == OP_GET_VER,
{
    Command::new(OP_GET_VER)
}

/// Holds the FPGA in reset; the reply is the flash chip's three-byte identifier.
pub fn cmd_reset() -> (command: Command<(), [u8; 3]>)
    ensures
        command.cmd == OP_RESET,
{
    Command::new(OP_RESET)
}

/// Erases the 64 KiB sector whose index is the one argument byte.
pub fn cmd_erase_64k() -> (command: Command<[u8; 1], ()>)
    ensures
        command.cmd == OP_ERASE_64K,
{
    Command::new(OP_ERASE_64K)
}

/// Programs one page.
pub fn cmd_program_page<'a>() -> (command: Command<ProgData<'a>, ProgResult>)
    ensures
        command.cmd == OP_PROGRAM_PAGE,
{
    Command::new(OP_PROGRAM_PAGE)
}

/// Reads one page back.
pub fn cmd_read_page() -> (command: Command<ReadData, ReadResult>)
    ensures
        command.cmd == OP_READ_PAGE,
{
    Command::new(OP_READ_PAGE)
}

/// Compares one page with what the flash holds.
pub fn cmd_verify_page<'a>() -> (command: Command<ProgData<'a>, ProgResult>)
    ensures
        command.cmd == OP_VERIFY_PAGE,
{
    Command::new(OP_VERIFY_PAGE)
}

/// Lets the FPGA run again and gives up the flash.
pub fn cmd_release_fpga() -> (command: Command<(), ()>)
    ensures
        command.cmd == OP_RELEASE_FPGA,
{
    Command::new(OP_RELEASE_FPGA)
}

} // verus!
