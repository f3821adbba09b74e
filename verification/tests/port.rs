use icefun::cmds::{cmd_get_ver, cmd_read_page, ReadData};
use icefun::dev::Device;
use icefun::err::Error;
use icefun::mock::MockPort;
use icefun::port::{SerialPort, TracePort};

/// A port that hands back one byte less than it is asked for.
struct ShortPort;

impl SerialPort for ShortPort {
    fn write_all(&mut self, _bytes: &[u8]) -> Result<(), std::io::Error> {
        Ok(())
    }

    fn read_exact(&mut self, len: usize) -> Result<Vec<u8>, std::io::Error> {
        Ok(vec![0x26; len.saturating_sub(1)])
    }
}

#[test]
fn mock_port_hands_out_its_script_in_order() {
    let mut port = MockPort::new(vec![1, 2, 3, 4, 5]);
    assert_eq!(port.remaining(), 5);
    assert_eq!(port.read_exact(2).unwrap(), vec![1, 2]);
    assert_eq!(port.read_exact(0).unwrap(), Vec::<u8>::new());
    assert_eq!(port.read_exact(3).unwrap(), vec![3, 4, 5]);
    assert_eq!(port.remaining(), 0);
}

#[test]
fn mock_port_fails_a_read_beyond_its_script_and_takes_nothing() {
    let mut port = MockPort::new(vec![1, 2]);
    let e = port.read_exact(3).unwrap_err();
    assert_eq!(e.kind(), std::io::ErrorKind::UnexpectedEof);
    assert_eq!(port.remaining(), 2);
    assert_eq!(port.read_exact(2).unwrap(), vec![1, 2]);
}

#[test]
fn mock_port_keeps_what_was_written() {
    let mut port = MockPort::new(vec![]);
    port.write_all(&[9, 8]).unwrap();
    port.write_all(&[]).unwrap();
    port.write_all(&[7]).unwrap();
    assert_eq!(port.written(), vec![9, 8, 7]);
}

#[test]
fn trace_port_passes_transfers_through() {
    let mut port = TracePort::new(MockPort::new(vec![5, 6, 7]));
    port.write_all(&[1, 2]).unwrap();
    assert_eq!(port.read_exact(2).unwrap(), vec![5, 6]);
    assert_eq!(port.get_ref().remaining(), 1);
    assert!(port.read_exact(2).is_err());
    assert_eq!(port.into_inner().written(), vec![1, 2]);
}

#[test]
fn trace_port_fails_a_read_of_the_wrong_length() {
    let mut port = TracePort::new(ShortPort);
    let e = port.read_exact(4).unwrap_err();
    assert_eq!(e.kind(), std::io::ErrorKind::UnexpectedEof);
    assert_eq!(port.read_exact(0).unwrap(), Vec::<u8>::new());
}

#[test]
fn command_on_a_port_that_reads_short_is_an_io_error() {
    let mut port = TracePort::new(ShortPort);
    assert!(matches!(cmd_get_ver().send(&mut port, &()), Err(Error::Io(_))));
    assert!(matches!(
        cmd_read_page().send(&mut port, &ReadData { addr: 0 }),
        Err(Error::Io(_))
    ));
}

#[test]
fn identify_hands_back_version_and_flash_identifier() {
    let device = Device::new(MockPort::new(vec![0x26, 9, 0xEF, 0x40, 0x14]));
    let (version, id, held) = device.identify().unwrap();
    assert_eq!(version.0, 9);
    assert_eq!(id, [0xEF, 0x40, 0x14]);
    assert_eq!(held.dev.port.into_inner().written(), vec![0xB1, 0xB2]);
}

#[test]
fn identify_stops_at_a_wrong_version_header() {
    let device = Device::new(MockPort::new(vec![0, 9, 0xEF, 0x40, 0x14]));
    assert!(matches!(device.identify(), Err(Error::Protocol { header: 0 })));
}
