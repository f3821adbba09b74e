use icefun::cmds::{
    cmd_erase_64k, cmd_get_ver, cmd_program_page, cmd_release_fpga, cmd_reset, CmdArgs, CmdReply,
    Command, ProgData, PAGE_SIZE,
};
use icefun::err::Error;
use icefun::mock::MockPort;
use icefun::port::TracePort;

fn run<A: CmdArgs, R: CmdReply>(
    command: &Command<A, R>,
    data: Vec<u8>,
    args: &A,
) -> (MockPort, Result<R, Error>) {
    let mut port = TracePort::new(MockPort::new(data));
    let result = command.send(&mut port, args);
    (port.into_inner(), result)
}

fn run_ok<A: CmdArgs, R: CmdReply>(
    command: &Command<A, R>,
    data: Vec<u8>,
    args: &A,
) -> (MockPort, R) {
    let (port, result) = run(command, data, args);
    (port, result.unwrap())
}

fn run_err<A: CmdArgs, R: CmdReply>(command: &Command<A, R>, data: Vec<u8>, args: &A) -> MockPort {
    let (port, result) = run(command, data, args);
    assert!(result.is_err());
    port
}

#[test]
fn test_get_ver_err() {
    let port = run_err(&cmd_get_ver(), vec![0, 0], &());
    assert_eq!(port.written(), vec![cmd_get_ver().cmd]);
}

#[test]
fn test_get_ver() {
    let (port, reply) = run_ok(&cmd_get_ver(), vec![38, 5], &());
    assert_eq!(port.written(), vec![cmd_get_ver().cmd]);
    assert_eq!(reply.0, 5);
}

#[test]
fn test_reset() {
    let (port, reply) = run_ok(&cmd_reset(), vec![1, 2, 3], &());
    assert_eq!(port.written(), vec![cmd_reset().cmd]);
    assert_eq!(reply, [1, 2, 3]);
}

#[test]
fn test_erase() {
    let (port, ()) = run_ok(&cmd_erase_64k(), vec![38], &[42]);
    assert_eq!(port.written(), vec![cmd_erase_64k().cmd, 42]);
}

#[test]
fn test_program() {
    let content = [0; 300];
    let prog_data = ProgData { addr: 0x2328, data: &content };
    let (port, _) = run_ok(&cmd_program_page(), vec![0], &prog_data);
    let written = port.written();
    assert_eq!(written[0..4], [cmd_program_page().cmd, 0, 0x23, 0x28]);
    assert_eq!(written[4..], content[..256]);
}

#[test]
fn test_release() {
    let (port, ()) = run_ok(&cmd_release_fpga(), vec![0], &());
    assert_eq!(port.written(), vec![cmd_release_fpga().cmd]);
}

#[test]
fn cmds_test_get_ver_err() {
    let port = run_err(&cmd_get_ver(), vec![0, 0], &());
    assert_eq!(port.written(), vec![cmd_get_ver().cmd]);
}

#[test]
fn cmds_test_get_ver() {
    let (port, reply) = run_ok(&cmd_get_ver(), vec![38, 5], &());
    assert_eq!(port.written(), vec![cmd_get_ver().cmd]);
    assert_eq!(reply.0, 5);
}

#[test]
fn cmds_test_reset() {
    let (port, reply) = run_ok(&cmd_reset(), vec![1, 2, 3], &());
    assert_eq!(port.written(), vec![cmd_reset().cmd]);
    assert_eq!(reply, [1, 2, 3]);
}

#[test]
fn cmds_test_erase() {
    let (port, ()) = run_ok(&cmd_erase_64k(), vec![38], &[42]);
    assert_eq!(port.written(), vec![cmd_erase_64k().cmd, 42]);
}

#[test]
fn cmds_test_program() {
    let content = [0; 300];
    let prog_data = ProgData { addr: 0x2328, data: &content };
    let (port, _) = run_ok(&cmd_program_page(), vec![0; 4], &prog_data);
    let written = port.written();
    assert_eq!(written[0..4], [cmd_program_page().cmd, 0, 0x23, 0x28]);
    assert_eq!(written[4..], content[..PAGE_SIZE]);
}

#[test]
fn cmds_test_release() {
    let (port, ()) = run_ok(&cmd_release_fpga(), vec![0], &());
    assert_eq!(port.written(), vec![cmd_release_fpga().cmd]);
}
