//! Host-side driver for the iceFUN FPGA board: the command and reply framing
//! of its serial protocol, the two-state device lifecycle, and the cutting of
//! a byte range into erase sectors and flash pages that drives erasing,
//! programming, verifying and reading back whole images.
//!
//! Contracts speak of three records that the library keeps as it works: the
//! trace of the stream ([`port::TracePort`]), the log of what was asked of
//! the flash ([`dev::Programmable`], [`dev::Dumpable`]), and the reports of
//! progress ([`programmer::Watch`]).

pub mod cmds;
pub mod dev;
pub mod err;
pub mod mock;
pub mod port;
pub mod programmer;
pub mod utils;
