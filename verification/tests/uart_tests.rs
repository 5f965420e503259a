use parch_kernel::device::uart::{
    Config, DataBits, IOCtlOp, IntAction, ReadStep, IOCtlParam, IntStatus, Parity, ParityMode, RCVRLength, RegWrite, StickyParity,
    StopBit, UARTOperator, UART,
};
use parch_kernel::error::ErrorNum;
use parch_kernel::mem::types::PhysAddr;
use std::collections::VecDeque;

const BASE: usize = 0x1000_0000;

fn w(off: usize, value: u8) -> RegWrite {
    RegWrite { addr: PhysAddr(BASE + off), value }
}

fn cfg(baud: u32, data_bits: DataBits, parity: Parity, stop_bits: StopBit) -> Config {
    Config { baud_rate: baud, data_bits, parity, stop_bits, rcvr_length: RCVRLength::Eight }
}

#[test]
fn default_configuration_writes() {
    let mut u = UART::with_clock(PhysAddr(BASE), 3_686_400);
    let (writes, r) = u.initialize();
    assert_eq!(r, Ok(()));
    assert_eq!(writes, vec![w(3, 0x80), w(0, 6), w(1, 0), w(3, 0b11), w(2, 0b111), w(1, 0b11)]);
    assert_eq!(u.operator.rcvr_length, RCVRLength::Fourteen);
}

#[test]
fn divisor_must_fit_the_clock() {
    let mut op = UARTOperator { base_address: PhysAddr(BASE), rcvr_length: RCVRLength::One };
    let (writes, r) = op.config(1_000_000, cfg(38400, DataBits::Eight, Parity::Disable, StopBit::One));
    assert_eq!(r, Err(ErrorNum::EINVAL));
    assert!(writes.is_empty());
    assert_eq!(op.rcvr_length, RCVRLength::One);
}

#[test]
fn stop_bits_that_do_not_fit_are_refused_after_the_latch() {
    let mut op = UARTOperator { base_address: PhysAddr(BASE), rcvr_length: RCVRLength::One };
    let (writes, r) = op.config(16 * 9600 * 300, cfg(9600, DataBits::Eight, Parity::Disable, StopBit::OneAndHalf));
    assert_eq!(r, Err(ErrorNum::EINVAL));
    assert_eq!(writes, vec![w(3, 0x80), w(0, 44), w(1, 1)]);
    assert_eq!(op.rcvr_length, RCVRLength::Eight);
    let (_, r2) = op.config(16 * 9600, cfg(9600, DataBits::Five, Parity::Disable, StopBit::Two));
    assert_eq!(r2, Err(ErrorNum::EINVAL));
}

#[test]
fn line_control_of_parity_and_stop_bits() {
    let mut op = UARTOperator { base_address: PhysAddr(BASE), rcvr_length: RCVRLength::One };
    let (writes, r) = op.config(
        16 * 115200,
        cfg(115200, DataBits::Seven, Parity::Enable(ParityMode::EvenParity, StickyParity::Enable), StopBit::Two),
    );
    assert_eq!(r, Ok(()));
    assert_eq!(writes[3], w(3, 0b10 | 0b100 | 0b1000 | 0b10000 | 0b100000));
    let (writes2, _) = op.config(16 * 115200, cfg(115200, DataBits::Five, Parity::Enable(ParityMode::OddParity, StickyParity::Disable), StopBit::OneAndHalf));
    assert_eq!(writes2[3], w(3, 0b100 | 0b1000));
}

#[test]
fn interrupt_causes() {
    assert_eq!(IntStatus::try_from(0b1000), Ok(IntStatus::THREmpty));
    assert_eq!(IntStatus::try_from(0b110000), Ok(IntStatus::TimeOut));
    assert_eq!(IntStatus::try_from(0b0000), Ok(IntStatus::ModemStatus));
    assert_eq!(IntStatus::try_from(0b1100_0100), Err(ErrorNum::EINVAL));
}

#[test]
fn transfers_depend_on_the_line_status() {
    let op = UARTOperator { base_address: PhysAddr(BASE), rcvr_length: RCVRLength::One };
    assert_eq!(op.write(0, b'x'), Err(ErrorNum::EAGAIN));
    assert_eq!(op.write(0x40, b'x'), Ok(w(0, b'x')));
    assert_eq!(op.read(0), Err(ErrorNum::EAGAIN));
    assert_eq!(op.read(1), Ok(PhysAddr(BASE)));
    assert_eq!(op.deplete_step(1), Some(PhysAddr(BASE)));
    assert_eq!(op.deplete_step(0x60), None);
    let mut buf: VecDeque<u8> = VecDeque::from(vec![1u8, 2]);
    assert_eq!(op.dump_step(0x00, &mut buf), Some(None));
    assert_eq!(buf.len(), 2);
    assert_eq!(op.dump_step(0x60, &mut buf), Some(Some(w(0, 1))));
    assert_eq!(op.dump_step(0x60, &mut buf), Some(Some(w(0, 2))));
    assert_eq!(op.dump_step(0x60, &mut buf), None);
}

#[test]
fn buffers_and_ioctl() {
    let mut u = UART::with_clock(PhysAddr(BASE), 1);
    u.write_byte(1);
    u.write_arr(vec![2, 3]);
    assert_eq!(u.buffer_w, VecDeque::from(vec![1u8, 2, 3]));
    // nothing buffered: the receiver register when a byte is ready, else wait
    assert_eq!(u.read_byte(0x01), ReadStep::FromFifo(PhysAddr(BASE)));
    assert_eq!(u.read_byte(0x60), ReadStep::Wait);
    u.buffer_r.push_back(9);
    u.buffer_r.push_back(8);
    assert_eq!(u.read_byte(0x01), ReadStep::Buffered(9));
    assert_eq!(u.buffer_r, VecDeque::from(vec![8u8]));
    assert_eq!(u.handle_int(0b0000_1000), IntAction::DumpWrite);
    assert_eq!(u.handle_int(0b0001_0000), IntAction::DepleteRead);
    assert_eq!(u.handle_int(0b0011_0000), IntAction::DepleteRead);
    assert_eq!(UART::ioctl_op(1, IOCtlParam::Write(3)), Ok(IOCtlOp::WriteByte));
    assert_eq!(UART::ioctl_op(4, IOCtlParam::Sync), Ok(IOCtlOp::Sync));
    assert_eq!(UART::ioctl_op(2, IOCtlParam::Sync), Err(ErrorNum::EINVAL));
    assert_eq!(UART::ioctl_op(7, IOCtlParam::Read), Err(ErrorNum::EINVAL));
}
