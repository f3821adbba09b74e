use icefun::cmds::{
    cmd_erase_64k, CmdArgs, CmdReply, GetVerReply, ProgData, ProgResult, ReadData, ReadResult,
    OP_ERASE_64K, OP_GET_VER, OP_PROGRAM_PAGE, OP_READ_PAGE, OP_RELEASE_FPGA, OP_RESET,
    OP_VERIFY_PAGE,
};
use icefun::dev::{Device, DeviceInReset, Dumpable, Programmable, FLASH_SIZE};
use icefun::err::{Error, RangeError};
use icefun::mock::MockPort;
use icefun::port::{SerialPort, TracePort};

/// A port whose writes succeed `writes_left` times and whose reads always
/// fail.
struct BrokenPort {
    writes_left: usize,
    written: Vec<u8>,
}

impl SerialPort for BrokenPort {
    fn write_all(&mut self, bytes: &[u8]) -> Result<(), std::io::Error> {
        if self.writes_left == 0 {
            return Err(std::io::Error::from(std::io::ErrorKind::BrokenPipe));
        }
        self.writes_left -= 1;
        self.written.extend_from_slice(bytes);
        Ok(())
    }

    fn read_exact(&mut self, _len: usize) -> Result<Vec<u8>, std::io::Error> {
        Err(std::io::Error::from(std::io::ErrorKind::TimedOut))
    }
}

fn held(replies: Vec<u8>) -> DeviceInReset<MockPort> {
    let mut script = vec![1, 2, 3];
    script.extend(replies);
    let (id, held) = Device { port: TracePort::new(MockPort::new(script)) }.reset_fpga().unwrap();
    assert_eq!(id, [1, 2, 3]);
    held
}

fn written(held: DeviceInReset<MockPort>) -> Vec<u8> {
    held.dev.port.into_inner().written()
}

#[test]
fn opcodes_have_their_wire_values() {
    assert_eq!(
        [
            OP_GET_VER,
            OP_RESET,
            OP_ERASE_64K,
            OP_PROGRAM_PAGE,
            OP_READ_PAGE,
            OP_VERIFY_PAGE,
            OP_RELEASE_FPGA
        ],
        [0xB1, 0xB2, 0xB4, 0xB5, 0xB6, 0xB7, 0xB9]
    );
}

#[test]
fn short_payload_is_zero_padded_to_259_bytes() {
    let payload = [7u8, 8, 9];
    let wire = ProgData { addr: 0x012345, data: &payload }.encode();
    assert_eq!(wire.len(), 259);
    assert_eq!(wire[..3], [0x01, 0x23, 0x45]);
    assert_eq!(wire[3..6], [7, 8, 9]);
    assert!(wire[6..].iter().all(|b| *b == 0));
}

#[test]
fn empty_and_full_payloads_encode_to_259_bytes() {
    assert_eq!(ProgData { addr: 0, data: &[] }.encode(), vec![0u8; 259]);
    let full = [0xEEu8; 256];
    let wire = ProgData { addr: 0xFF, data: &full }.encode();
    assert_eq!(wire.len(), 259);
    assert_eq!(wire[..3], [0, 0, 0xFF]);
    assert_eq!(wire[3..], full);
}

#[test]
fn address_bits_above_24_never_reach_the_wire() {
    let wire = ReadData { addr: 0x0100_0001 }.encode();
    assert_eq!(wire, vec![0, 0, 1]);
    assert_eq!(ReadData { addr: 0xABCDEF }.encode(), vec![0xAB, 0xCD, 0xEF]);
}

#[test]
fn unit_and_array_arguments_encode_raw() {
    assert_eq!(().encode(), Vec::<u8>::new());
    assert_eq!([1u8, 2, 3, 4].encode(), vec![1, 2, 3, 4]);
}

#[test]
fn version_reply_decodes_to_its_second_byte() {
    let reply = GetVerReply::decode(&[0x26, 5]).unwrap();
    assert_eq!(reply.0, 5);
}

#[test]
fn version_reply_with_wrong_header_is_a_protocol_error() {
    match GetVerReply::decode(&[0x00, 0x00]) {
        Err(Error::Protocol { header }) => assert_eq!(header, 0),
        other => panic!("unexpected {:?}", other),
    }
}

#[test]
fn zero_status_decodes_to_success() {
    assert!(ProgResult::decode(&[0x00]).is_ok());
}

#[test]
fn nonzero_status_decodes_to_the_mismatch() {
    match ProgResult::decode(&[0x01, 0x10, 0xAA, 0xBB]) {
        Err(Error::Device { status, offset, expected, actual }) => {
            assert_eq!((status, offset, expected, actual), (0x01, 0x10, 0xAA, 0xBB));
        },
        other => panic!("unexpected {:?}", other),
    }
}

#[test]
fn read_reply_decodes_to_the_page() {
    let mut page = [0u8; 256];
    for (i, b) in page.iter_mut().enumerate() {
        *b = i as u8;
    }
    let reply = ReadResult::decode(&page).unwrap();
    assert_eq!(reply.0, page);
    assert_eq!(<[u8; 3]>::decode(&[9, 8, 7]).unwrap(), [9, 8, 7]);
    assert_eq!(<()>::decode(&[0x55]).unwrap(), ());
}

#[test]
fn getver_reads_two_bytes() {
    let mut dev = Device { port: TracePort::new(MockPort::new(vec![0x26, 5, 99])) };
    assert_eq!(dev.getver().unwrap().0, 5);
    assert_eq!(dev.port.get_ref().remaining(), 1);
    assert_eq!(dev.port.into_inner().written(), vec![0xB1]);
}

#[test]
fn prepare_sends_version_query_then_reset() {
    let device = Device { port: TracePort::new(MockPort::new(vec![0x26, 7, 0xEF, 0x40, 0x14])) };
    let held = device.prepare().unwrap();
    assert_eq!(held.dev.port.get_ref().remaining(), 0);
    assert_eq!(written(held), vec![0xB1, 0xB2]);
}

#[test]
fn prepare_fails_on_wrong_version_header() {
    let device = Device { port: TracePort::new(MockPort::new(vec![0x27, 7, 0xEF, 0x40, 0x14])) };
    let r = device.prepare();
    assert!(matches!(r, Err(Error::Protocol { header: 0x27 })));
}

#[test]
fn prepare_fails_on_short_reset_reply() {
    let r = Device { port: TracePort::new(MockPort::new(vec![0x26, 7, 0xEF])) }.prepare();
    match r {
        Err(Error::Io(e)) => assert_eq!(e.kind(), std::io::ErrorKind::UnexpectedEof),
        _ => panic!("unexpected result"),
    }
}

#[test]
fn erase_writes_two_bytes_and_reads_one() {
    let mut fpga = held(vec![0x77, 0x88]);
    fpga.erase64k(42).unwrap();
    assert_eq!(fpga.dev.port.get_ref().remaining(), 1);
    assert_eq!(written(fpga), vec![0xB2, 0xB4, 42]);
}

#[test]
fn program_page_success_reads_one_byte() {
    let mut fpga = held(vec![0x00, 0x01]);
    fpga.program_page(0x010203, &[0xAB; 256]).unwrap();
    assert_eq!(fpga.dev.port.get_ref().remaining(), 1);
    let out = written(fpga);
    assert_eq!(out.len(), 1 + 260);
    assert_eq!(out[1..5], [0xB5, 0x01, 0x02, 0x03]);
    assert_eq!(out[5..], [0xAB; 256]);
}

#[test]
fn program_page_mismatch_reads_four_bytes() {
    let mut fpga = held(vec![0x01, 0x10, 0xAA, 0xBB, 0xCC]);
    let r = fpga.program_page(0, &[1, 2, 3]);
    assert!(matches!(
        r,
        Err(Error::Device { status: 0x01, offset: 0x10, expected: 0xAA, actual: 0xBB })
    ));
    assert_eq!(fpga.dev.port.get_ref().remaining(), 1);
}

#[test]
fn verify_page_uses_its_own_opcode() {
    let mut fpga = held(vec![0x00]);
    fpga.verify_page(0x000100, &[5, 6]).unwrap();
    let out = written(fpga);
    assert_eq!(out.len(), 1 + 260);
    assert_eq!(out[1..7], [0xB7, 0x00, 0x01, 0x00, 5, 6]);
    assert!(out[7..].iter().all(|b| *b == 0));
}

#[test]
fn verify_page_mismatch_is_reported() {
    let mut fpga = held(vec![0x02, 0xFF, 0x00, 0x01]);
    let r = fpga.verify_page(0, &[0]);
    assert!(matches!(
        r,
        Err(Error::Device { status: 0x02, offset: 0xFF, expected: 0x00, actual: 0x01 })
    ));
}

#[test]
fn read_page_hands_on_the_first_len_bytes() {
    let mut page: Vec<u8> = (0..=255u8).collect();
    page.push(0xEE);
    let mut fpga = held(page);
    let mut out = vec![0xF0];
    fpga.read_page(0x0F_FF00, 5, &mut out).unwrap();
    assert_eq!(out, vec![0xF0, 0, 1, 2, 3, 4]);
    assert_eq!(fpga.dev.port.get_ref().remaining(), 1);
    assert_eq!(written(fpga), vec![0xB2, 0xB6, 0x0F, 0xFF, 0x00]);
}

#[test]
fn read_page_of_a_whole_page_at_the_end_of_flash() {
    let mut fpga = held(vec![3u8; 256]);
    let mut out = Vec::new();
    fpga.read_page(FLASH_SIZE - 256, 256, &mut out).unwrap();
    assert_eq!(out, vec![3u8; 256]);
}

#[test]
fn read_page_of_more_than_a_page_is_refused_without_wire_traffic() {
    let mut fpga = held(vec![0u8; 256]);
    let mut out = Vec::new();
    let r = fpga.read_page(0, 300, &mut out);
    assert!(matches!(r, Err(Error::Range(RangeError::PageBound { len: 300 }))));
    assert!(out.is_empty());
    assert_eq!(fpga.dev.port.get_ref().remaining(), 256);
    assert_eq!(written(fpga), vec![0xB2]);
}

#[test]
fn read_page_beyond_the_flash_is_refused_without_wire_traffic() {
    let mut fpga = held(vec![0u8; 256]);
    let mut out = Vec::new();
    let r = fpga.read_page(0x100000, 1, &mut out);
    assert!(matches!(r, Err(Error::Range(RangeError::FlashBound))));
    assert!(out.is_empty());
    assert_eq!(fpga.dev.port.get_ref().remaining(), 256);
    assert_eq!(written(fpga), vec![0xB2]);
}

#[test]
fn read_page_checks_the_page_bound_first() {
    let mut fpga = held(vec![]);
    let mut out = Vec::new();
    let r = fpga.read_page(usize::MAX, 257, &mut out);
    assert!(matches!(r, Err(Error::Range(RangeError::PageBound { len: 257 }))));
    let r = fpga.read_page(usize::MAX, 256, &mut out);
    assert!(matches!(r, Err(Error::Range(RangeError::FlashBound))));
    let r = fpga.read_page(FLASH_SIZE - 255, 256, &mut out);
    assert!(matches!(r, Err(Error::Range(RangeError::FlashBound))));
}

#[test]
fn read_page_on_a_short_stream_is_an_io_error() {
    let mut fpga = held(vec![0u8; 255]);
    let mut out = Vec::new();
    match fpga.read_page(0, 1, &mut out) {
        Err(Error::Io(e)) => assert_eq!(e.kind(), std::io::ErrorKind::UnexpectedEof),
        _ => panic!("unexpected result"),
    }
    assert!(out.is_empty());
}

#[test]
fn release_after_failed_program_page_writes_one_release_byte() {
    let mut fpga = held(vec![0x01, 0x10, 0xAA, 0xBB, 0x00]);
    assert!(fpga.program_page(0, &[0x11; 256]).is_err());
    let (dev, released) = fpga.release();
    assert!(released.is_ok());
    assert_eq!(dev.port.get_ref().remaining(), 0);
    let out = dev.port.into_inner().written();
    assert_eq!(out.len(), 1 + 260 + 1);
    assert_eq!(out[261], 0xB9);
    assert_eq!(out.iter().filter(|b| **b == 0xB9).count(), 1);
}

#[test]
fn release_hands_back_its_own_failure() {
    let fpga = held(vec![]);
    let (dev, released) = fpga.release();
    assert!(matches!(released, Err(Error::Io(_))));
    assert_eq!(dev.port.into_inner().written(), vec![0xB2, 0xB9]);
}

#[test]
fn failed_write_of_the_opcode_is_an_io_error() {
    let mut dev = Device { port: TracePort::new(BrokenPort { writes_left: 0, written: vec![] }) };
    match dev.getver() {
        Err(Error::Io(e)) => assert_eq!(e.kind(), std::io::ErrorKind::BrokenPipe),
        _ => panic!("unexpected result"),
    }
    assert!(dev.port.get_ref().written.is_empty());
}

#[test]
fn failed_write_of_the_arguments_leaves_the_opcode_written() {
    let mut port = TracePort::new(BrokenPort { writes_left: 1, written: vec![] });
    match cmd_erase_64k().send(&mut port, &[3]) {
        Err(Error::Io(e)) => assert_eq!(e.kind(), std::io::ErrorKind::BrokenPipe),
        _ => panic!("unexpected result"),
    }
    assert_eq!(port.get_ref().written, vec![0xB4]);
}

#[test]
fn failed_read_of_the_reply_is_an_io_error() {
    let mut dev = Device { port: TracePort::new(BrokenPort { writes_left: 9, written: vec![] }) };
    match dev.getver() {
        Err(Error::Io(e)) => assert_eq!(e.kind(), std::io::ErrorKind::TimedOut),
        _ => panic!("unexpected result"),
    }
    assert_eq!(dev.port.get_ref().written, vec![0xB1]);
}

#[test]
fn io_error_converts_into_the_io_variant() {
    let e = Error::from(std::io::Error::from(std::io::ErrorKind::Other));
    assert!(matches!(e, Error::Io(_)));
    let e = Error::from(u8::try_from(256usize).unwrap_err());
    assert!(matches!(e, Error::FromInt(_)));
}

/// A port whose written bytes outlive it.
struct SharedPort {
    replies: Vec<u8>,
    written: std::rc::Rc<std::cell::RefCell<Vec<u8>>>,
}

impl SerialPort for SharedPort {
    fn write_all(&mut self, bytes: &[u8]) -> Result<(), std::io::Error> {
        self.written.borrow_mut().extend_from_slice(bytes);
        Ok(())
    }

    fn read_exact(&mut self, len: usize) -> Result<Vec<u8>, std::io::Error> {
        if len > self.replies.len() {
            return Err(std::io::Error::from(std::io::ErrorKind::UnexpectedEof));
        }
        Ok(self.replies.drain(..len).collect())
    }
}

/// Releases the board when it goes out of scope.
struct Guard(Option<DeviceInReset<SharedPort>>);

impl Drop for Guard {
    fn drop(&mut self) {
        if let Some(held) = self.0.take() {
            let _ = held.release();
        }
    }
}

#[test]
fn dropping_a_guard_after_failed_program_page_releases_once() {
    let written = std::rc::Rc::new(std::cell::RefCell::new(Vec::new()));
    let replies = vec![1, 2, 3, 0x01, 0x10, 0xAA, 0xBB, 0x00];
    let port = SharedPort { replies, written: written.clone() };
    let (_, held) = Device::new(port).reset_fpga().unwrap();
    {
        let mut guard = Guard(Some(held));
        let fpga = guard.0.as_mut().unwrap();
        assert!(fpga.program_page(0, &[0x11; 256]).is_err());
    }
    let out = written.borrow();
    assert_eq!(out.len(), 1 + 260 + 1);
    assert_eq!(out[0], 0xB2);
    assert_eq!(out[1], 0xB5);
    assert_eq!(out[261], 0xB9);
    assert_eq!(out.iter().filter(|b| **b == 0xB9).count(), 1);
}
