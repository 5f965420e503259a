//! The 16550 UART: its configuration, interrupt causes and FIFO transfers,
//! decided here as register writes; reading and writing the registers is
//! left to the caller.
use vstd::prelude::*;
use crate::error::ErrorNum;
use crate::mem::types::PhysAddr;
use std::collections::VecDeque;

verus! {

/// The operations that `ioctl` offers.
#[derive(Clone, Copy, PartialEq, Eq, Structural, Debug)]
pub enum IOCtlOp {
    WriteByte,
    ReadByte,
    Config,
    Sync,
}

/// The operation numbered `v`.
pub open spec fn ioctl_op_of(v: usize) -> Option<IOCtlOp> {
    if v == 1 {
        Some(IOCtlOp::WriteByte)
    } else if v == 2 {
        Some(IOCtlOp::ReadByte)
    } else if v == 3 {
        Some(IOCtlOp::Config)
    } else if v == 4 {
        Some(IOCtlOp::Sync)
    } else {
        None
    }
}

impl IOCtlOp {
    /// The operation numbered `v`; `EINVAL` for a number no operation has.
    pub fn try_from(v: usize) -> (r: Result<IOCtlOp, ErrorNum>)
        ensures
            match ioctl_op_of(v) {
                Some(op) => r == Ok::<IOCtlOp, ErrorNum>(op),
                None => r == Err::<IOCtlOp, ErrorNum>(ErrorNum::EINVAL),
            },
    {
        if v == 1 {
            Ok(IOCtlOp::WriteByte)
        } else if v == 2 {
            Ok(IOCtlOp::ReadByte)
        } else if v == 3 {
            Ok(IOCtlOp::Config)
        } else if v == 4 {
            Ok(IOCtlOp::Sync)
        } else {
            Err(ErrorNum::EINVAL)
        }
    }
}

/// Even or odd parity.
#[derive(Clone, Copy, PartialEq, Eq, Structural, Debug)]
pub enum ParityMode {
    EvenParity,
    OddParity,
}

/// Whether the parity bit is sticky.
#[derive(Clone, Copy, PartialEq, Eq, Structural, Debug)]
pub enum StickyParity {
    Enable,
    Disable,
}

/// Parity checking, with its mode, or none.
#[derive(Clone, Copy, PartialEq, Eq, Structural, Debug)]
pub enum Parity {
    Enable(ParityMode, StickyParity),
    Disable,
}

/// The number of stop bits.
#[derive(Clone, Copy, PartialEq, Eq, Structural, Debug)]
pub enum StopBit {
    One,
    OneAndHalf,
    Two,
}

/// The number of data bits in a character.
#[derive(Clone, Copy, PartialEq, Eq, Structural, Debug)]
pub enum DataBits {
    Five,
    Six,
    Seven,
    Eight,
}

/// How many bytes the receiver FIFO holds before it interrupts.
#[derive(Clone, Copy, PartialEq, Eq, Structural, Debug)]
pub enum RCVRLength {
    One,
    Four,
    Eight,
    Fourteen,
}

/// A line configuration.
#[derive(Clone, Copy, PartialEq, Eq, Structural, Debug)]
pub struct Config {
    pub baud_rate: u32,
    pub data_bits: DataBits,
    pub parity: Parity,
    pub stop_bits: StopBit,
    pub rcvr_length: RCVRLength,
}

/// What `ioctl` is asked to do.
#[derive(Clone, Copy, PartialEq, Eq, Structural, Debug)]
pub enum IOCtlParam {
    Write(u8),
    Read,
    Config(Config),
    Sync,
}

/// What `ioctl` answers.
#[derive(Clone, Copy, PartialEq, Eq, Structural, Debug)]
pub enum IOCtlRes {
    Write,
    Read(u8),
    Config,
    Sync,
}

/// Why the UART interrupted.
#[derive(Clone, Copy, PartialEq, Eq, Structural, Debug)]
pub enum IntStatus {
    ModemStatus,
    THREmpty,
    RecvAvail,
    RecvLineStatus,
    TimeOut,
}

/// The code of an interrupt cause in the interrupt identification register.
pub open spec fn int_status_code(s: IntStatus) -> u8 {
    match s {
        IntStatus::ModemStatus => 0b00000000,
        IntStatus::THREmpty => 0b00001000,
        IntStatus::RecvAvail => 0b00010000,
        IntStatus::RecvLineStatus => 0b00011000,
        IntStatus::TimeOut => 0b00110000,
    }
}

/// The interrupt cause whose code is `v`.
pub open spec fn int_status_of(v: u8) -> Option<IntStatus> {
    if v == 0b00000000 {
        Some(IntStatus::ModemStatus)
    } else if v == 0b00001000 {
        Some(IntStatus::THREmpty)
    } else if v == 0b00010000 {
        Some(IntStatus::RecvAvail)
    } else if v == 0b00011000 {
        Some(IntStatus::RecvLineStatus)
    } else if v == 0b00110000 {
        Some(IntStatus::TimeOut)
    } else {
        None
    }
}

/// An interrupt cause read back from its code is the same cause.
pub proof fn lemma_int_status_code(s: IntStatus)
    ensures
        int_status_of(int_status_code(s)) == Some(s),
{
}

impl IntStatus {
    /// The interrupt cause whose code is `v`; `EINVAL` for any other value.
    pub fn try_from(v: u8) -> (r: Result<IntStatus, ErrorNum>)
        ensures
            match int_status_of(v) {
                Some(s) => r == Ok::<IntStatus, ErrorNum>(s),
                None => r == Err::<IntStatus, ErrorNum>(ErrorNum::EINVAL),
            },
    {
        if v == 0b00000000 {
            Ok(IntStatus::ModemStatus)
        } else if v == 0b00001000 {
            Ok(IntStatus::THREmpty)
        } else if v == 0b00010000 {
            Ok(IntStatus::RecvAvail)
        } else if v == 0b00011000 {
            Ok(IntStatus::RecvLineStatus)
        } else if v == 0b00110000 {
            Ok(IntStatus::TimeOut)
        } else {
            Err(ErrorNum::EINVAL)
        }
    }
}

/// Bits of the line status register.
pub struct LSRFlags {
    pub bits: u8,
}

impl LSRFlags {
    pub const RECV_DATA_READY: u8 = 0b00000001;
    pub const OVERRUN_ERROR: u8 = 0b00000010;
    pub const PARITY_ERROR: u8 = 0b00000100;
    pub const FRAMING_ERROR: u8 = 0b00001000;
    pub const BREAK_INTERRUPT: u8 = 0b00010000;
    pub const FIFO_AVAILABLE: u8 = 0b00100000;
    pub const FIFO_EMPTT: u8 = 0b01000000;
    pub const FIFO_ERROR: u8 = 0b10000000;
}

/// Bits of the interrupt enable register.
pub struct IntFlag {
    pub bits: u8,
}

impl IntFlag {
    pub const RECV_READY: u8 = 0b00000001;
    pub const TRANSMITTER_EMPTY: u8 = 0b00000010;
    pub const RECV_STATUS: u8 = 0b00000100;
    pub const MODEL_STATUS: u8 = 0b00001000;
}

/// A value to write into the register at an address.
#[derive(Clone, Copy, PartialEq, Eq, Structural, Debug)]
pub struct RegWrite {
    pub addr: PhysAddr,
    pub value: u8,
}

/// The registers of a UART at `base` and how deep its receiver FIFO is set.
pub struct UARTOperator {
    pub base_address: PhysAddr,
    pub rcvr_length: RCVRLength,
}

/// The register write at offset `off` from `base`.
pub open spec fn reg_write(base: PhysAddr, off: int, v: u8) -> RegWrite {
    RegWrite { addr: PhysAddr((base.0 + off) as usize), value: v }
}

/// The line control bits of the number of data bits.
pub open spec fn data_bits_code(d: DataBits) -> u8 {
    match d {
        DataBits::Five => 0b00,
        DataBits::Six => 0b01,
        DataBits::Seven => 0b10,
        DataBits::Eight => 0b11,
    }
}

/// The line control bits of the stop bits; `None` for one and a half stop
/// bits with more than five data bits, and for two with five.
pub open spec fn stop_bits_code(s: StopBit, d: DataBits) -> Option<u8> {
    match s {
        StopBit::One => Some(0b000),
        StopBit::OneAndHalf => if data_bits_code(d) != 0 {
            None
        } else {
            Some(0b100)
        },
        StopBit::Two => if data_bits_code(d) == 0 {
            None
        } else {
            Some(0b100)
        },
    }
}

/// The line control bits of the parity.
pub open spec fn parity_code(p: Parity) -> u8 {
    match p {
        Parity::Enable(mode, sticky) => {
            let r = 0b1000u8 | (if mode == ParityMode::EvenParity {
                0b10000u8
            } else {
                0b00000u8
            });
            if sticky == StickyParity::Enable {
                r | 0b100000u8
            } else {
                r
            }
        },
        Parity::Disable => 0,
    }
}

/// The register writes of configuring the UART at `base`, fed by a clock
/// of `clock` Hz, with `p`, and what it gives.  First the divisor latch
/// (`clock / (16 * baud rate)`) is written; a stop bit setting that does
/// not fit the data bits is refused only after that.
pub open spec fn config_spec(base: PhysAddr, clock: u32, p: Config) -> (Seq<RegWrite>, Result<(), ErrorNum>) {
    let div = (clock as int / (16 * p.baud_rate as int)) as u32;
    if clock as int % (16 * p.baud_rate as int) != 0 {
        (seq![], Err(ErrorNum::EINVAL))
    } else {
        let latch = seq![
            reg_write(base, 3, 0b10000000u8),
            reg_write(base, 0, (div & 0xff) as u8),
            reg_write(base, 1, ((div >> 8) & 0xff) as u8),
        ];
        match stop_bits_code(p.stop_bits, p.data_bits) {
            None => (latch, Err(ErrorNum::EINVAL)),
            Some(sb) => (
                latch + seq![
                    reg_write(base, 3, data_bits_code(p.data_bits) | sb | parity_code(p.parity)),
                    reg_write(base, 2, 0b00000111u8),
                    reg_write(base, 1, 0b00000001u8 | 0b00000010u8),
                ],
                Ok(()),
            ),
        }
    }
}

impl UARTOperator {
    /// The register at offset `off`.
    fn reg(&self, off: usize) -> (r: PhysAddr)
        requires
            off <= 7,
            self.base_address.0 + 7 <= usize::MAX,
        ensures
            r.0 == self.base_address.0 + off,
    {
        PhysAddr(self.base_address.0 + off)
    }

    /// Configures the line: the register writes to make, and whether the
    /// configuration was taken.  The receiver FIFO depth is taken as soon as
    /// the divisor fits the clock.
    pub fn config(&mut self, clock_freq: u32, param: Config) -> (r: (Vec<RegWrite>, Result<(), ErrorNum>))
        requires
            old(self).base_address.0 + 7 <= usize::MAX,
            param.baud_rate > 0,
            16 * param.baud_rate <= u32::MAX,
        ensures
            (r.0@, r.1) == config_spec(old(self).base_address, clock_freq, param),
            final(self).base_address == old(self).base_address,
            final(self).rcvr_length == if clock_freq as int % (16 * param.baud_rate as int) != 0 {
                old(self).rcvr_length
            } else {
                param.rcvr_length
            },
    {
        let mut w: Vec<RegWrite> = Vec::new();
        let scale = 16 * param.baud_rate;
        if clock_freq % scale != 0 {
            return (w, Err(ErrorNum::EINVAL));
        }
        self.rcvr_length = param.rcvr_length;
        let divisor = clock_freq / scale;
        w.push(RegWrite { addr: self.reg(3), value: 0b10000000 });
        w.push(RegWrite { addr: self.reg(0), value: (divisor & 0xFF) as u8 });
        w.push(RegWrite { addr: self.reg(1), value: ((divisor >> 8) & 0xFF) as u8 });
        let data_bits: u8 = match param.data_bits {
            DataBits::Five => 0b00,
            DataBits::Six => 0b01,
            DataBits::Seven => 0b10,
            DataBits::Eight => 0b11,
        };
        let stop_bits: u8 = match param.stop_bits {
            StopBit::One => 0b000,
            StopBit::OneAndHalf => {
                if data_bits != 0b00 {
                    return (w, Err(ErrorNum::EINVAL));
                }
                0b100
            },
            StopBit::Two => {
                if data_bits == 0b00 {
                    return (w, Err(ErrorNum::EINVAL));
                }
                0b100
            },
        };
        let parity_bits: u8 = match param.parity {
            Parity::Enable(mode, sticky) => {
                let mut res: u8 = 0b1000;
                res = res | match mode {
                    ParityMode::EvenParity => 0b10000u8,
                    ParityMode::OddParity => 0b00000u8,
                };
                if sticky == StickyParity::Enable {
                    res = res | 0b100000;
                }
                res
            },
            Parity::Disable => 0b000000,
        };
        w.push(RegWrite { addr: self.reg(3), value: data_bits | stop_bits | parity_bits });
        w.push(RegWrite { addr: self.reg(2), value: 0b00000111 });
        w.push(RegWrite { addr: self.reg(1), value: IntFlag::RECV_READY | IntFlag::TRANSMITTER_EMPTY });
        proof {
            let div = (clock_freq as int / (16 * param.baud_rate as int)) as u32;
            assert(divisor == div);
            assert(data_bits == data_bits_code(param.data_bits));
            assert(Some(stop_bits) == stop_bits_code(param.stop_bits, param.data_bits));
            assert(parity_bits == parity_code(param.parity));
            assert(w@ =~= config_spec(old(self).base_address, clock_freq, param).0);
        }
        (w, Ok(()))
    }

    /// Sends `b` when the line status `lsr` says the transmitter is empty:
    /// the write to make; `EAGAIN` when it is not.
    pub fn write(&self, lsr: u8, b: u8) -> (r: Result<RegWrite, ErrorNum>)
        requires
            self.base_address.0 + 7 <= usize::MAX,
        ensures
            lsr & 0b01000000 == 0 ==> r == Err::<RegWrite, ErrorNum>(ErrorNum::EAGAIN),
            lsr & 0b01000000 != 0 ==> r == Ok::<RegWrite, ErrorNum>(reg_write(self.base_address, 0, b)),
    {
        if lsr & 0b001000000 == 0 {
            Err(ErrorNum::EAGAIN)
        } else {
            Ok(RegWrite { addr: self.reg(0), value: b })
        }
    }

    /// Where to read a received byte from when the line status `lsr` says
    /// one is ready; `EAGAIN` when none is.
    pub fn read(&self, lsr: u8) -> (r: Result<PhysAddr, ErrorNum>)
        requires
            self.base_address.0 + 7 <= usize::MAX,
        ensures
            lsr & 0b00000001 == 0 ==> r == Err::<PhysAddr, ErrorNum>(ErrorNum::EAGAIN),
            lsr & 0b00000001 != 0 ==> r == Ok::<PhysAddr, ErrorNum>(PhysAddr((self.base_address.0 + 0) as usize)),
    {
        if lsr & 0b00000001 == 0 {
            Err(ErrorNum::EAGAIN)
        } else {
            Ok(self.reg(0))
        }
    }

    /// The interrupt cause that the interrupt identification register `iir`
    /// holds; it must hold one.
    pub fn read_int_cause(&self, iir: u8) -> (r: Result<IntStatus, ErrorNum>)
        requires
            int_status_of(iir) is Some,
        ensures
            r == Ok::<IntStatus, ErrorNum>(int_status_of(iir)->0),
    {
        match IntStatus::try_from(iir) {
            Ok(s) => Ok(s),
            Err(_) => {
                proof {
                    assert(false);
                }
                Err(ErrorNum::EINVAL)
            },
        }
    }

    /// One step of emptying the receiver FIFO into the read buffer: where
    /// to read the next byte from while the line status `lsr` says one is
    /// ready, `None` when the FIFO is empty.
    pub fn deplete_step(&self, lsr: u8) -> (r: Option<PhysAddr>)
        requires
            self.base_address.0 + 7 <= usize::MAX,
        ensures
            lsr & 0b00000001 == 0 ==> r is None,
            lsr & 0b00000001 != 0 ==> r == Some(PhysAddr((self.base_address.0 + 0) as usize)),
    {
        if lsr & LSRFlags::RECV_DATA_READY != 0 {
            match self.read(lsr) {
                Ok(a) => Some(a),
                Err(_) => None,
            }
        } else {
            None
        }
    }

    /// One step of sending the write buffer: `None` when the buffer is
    /// empty; else, when the line status `lsr` says the FIFO has room, the
    /// first byte leaves the buffer and the write that sends it is given,
    /// and when it has none, nothing changes.  With room in the FIFO the
    /// transmitter must be empty too.
    pub fn dump_step(&self, lsr: u8, w_buffer: &mut VecDeque<u8>) -> (r: Option<Option<RegWrite>>)
        requires
            self.base_address.0 + 7 <= usize::MAX,
            lsr & 0b00100000 != 0 ==> lsr & 0b01000000 != 0,
        ensures
            old(w_buffer)@.len() == 0 ==> r is None && final(w_buffer)@ == old(w_buffer)@,
            old(w_buffer)@.len() > 0 && lsr & 0b00100000 == 0 ==> r == Some(None::<RegWrite>) && final(w_buffer)@ == old(w_buffer)@,
            old(w_buffer)@.len() > 0 && lsr & 0b00100000 != 0 ==> r == Some(Some(reg_write(self.base_address, 0, old(w_buffer)@[0])))
                && final(w_buffer)@ == old(w_buffer)@.drop_first(),
    {
        if w_buffer.len() == 0 {
            return None;
        }
        if lsr & LSRFlags::FIFO_AVAILABLE != 0 {
            let b = match w_buffer.pop_front() {
                Some(b) => b,
                None => {
                    return None;
                },
            };
            match self.write(lsr, b) {
                Ok(w) => Some(Some(w)),
                Err(_) => {
                    proof {
                        assert(false);
                    }
                    None
                },
            }
        } else {
            Some(None)
        }
    }
}

/// A UART: where its registers are, the frequency of its clock, its
/// registers' operator, and its read and write buffers.
pub struct UART {
    pub base_address: PhysAddr,
    pub clock_freq: u32,
    pub operator: UARTOperator,
    pub buffer_r: VecDeque<u8>,
    pub buffer_w: VecDeque<u8>,
}

/// The configuration a UART starts with: 38400 baud, eight data bits, no
/// parity, one stop bit, and a receiver FIFO of fourteen bytes.
pub open spec fn default_config() -> Config {
    Config {
        baud_rate: 38400,
        data_bits: DataBits::Eight,
        parity: Parity::Disable,
        stop_bits: StopBit::One,
        rcvr_length: RCVRLength::Fourteen,
    }
}

/// Which operation `ioctl` carries out for the number `op` and the
/// parameter: the one numbered `op` when the parameter is of its kind.
pub open spec fn ioctl_spec(op: usize, param: IOCtlParam) -> Result<IOCtlOp, ErrorNum> {
    match ioctl_op_of(op) {
        None => Err(ErrorNum::EINVAL),
        Some(o) => match (o, param) {
            (IOCtlOp::WriteByte, IOCtlParam::Write(_)) => Ok(o),
            (IOCtlOp::ReadByte, IOCtlParam::Read) => Ok(o),
            (IOCtlOp::Config, IOCtlParam::Config(_)) => Ok(o),
            (IOCtlOp::Sync, IOCtlParam::Sync) => Ok(o),
            _ => Err(ErrorNum::EINVAL),
        },
    }
}

/// What an interrupt of the UART calls for: sending what the write buffer
/// holds, or moving what the receiver holds into the read buffer.
#[derive(Clone, Copy, PartialEq, Eq, Structural, Debug)]
pub enum IntAction {
    DumpWrite,
    DepleteRead,
}

/// The action for the interrupt cause `s`: the transmitter being empty
/// calls for sending, received data or a time-out for reading.
pub open spec fn int_action_of(s: IntStatus) -> IntAction {
    match s {
        IntStatus::THREmpty => IntAction::DumpWrite,
        _ => IntAction::DepleteRead,
    }
}

/// Where reading a byte stands: a byte from the read buffer, a byte to be
/// read from the receiver register at an address, or none yet (the reader
/// waits and tries again).
#[derive(Clone, Copy, PartialEq, Eq, Structural, Debug)]
pub enum ReadStep {
    Buffered(u8),
    FromFifo(PhysAddr),
    Wait,
}

impl UART {
    /// A UART with its registers at `base_address` and a clock of
    /// `clock_freq` Hz, its receiver FIFO of one byte, its buffers empty.
    pub fn with_clock(base_address: PhysAddr, clock_freq: u32) -> (r: Self)
        ensures
            r.base_address == base_address,
            r.clock_freq == clock_freq,
            r.operator.base_address == base_address,
            r.operator.rcvr_length == RCVRLength::One,
            r.buffer_r@.len() == 0,
            r.buffer_w@.len() == 0,
    {
        UART {
            base_address,
            clock_freq,
            operator: UARTOperator { base_address, rcvr_length: RCVRLength::One },
            buffer_r: VecDeque::new(),
            buffer_w: VecDeque::new(),
        }
    }

    /// Queues `b` to be sent.
    pub fn write_byte(&mut self, b: u8)
        ensures
            final(self).buffer_w@ == old(self).buffer_w@.push(b),
            final(self).buffer_r@ == old(self).buffer_r@,
            final(self).operator == old(self).operator,
    {
        self.buffer_w.push_back(b);
    }

    /// Queues `arr` to be sent, after what is queued already.
    pub fn write_arr(&mut self, arr: Vec<u8>)
        ensures
            final(self).buffer_w@ == old(self).buffer_w@ + arr@,
            final(self).buffer_r@ == old(self).buffer_r@,
            final(self).operator == old(self).operator,
    {
        let mut i: usize = 0;
        while i < arr.len()
            invariant
                i <= arr@.len(),
                self.buffer_w@ == old(self).buffer_w@ + arr@.take(i as int),
                self.buffer_r@ == old(self).buffer_r@,
                self.operator == old(self).operator,
            decreases arr@.len() - i,
        {
            self.buffer_w.push_back(arr[i]);
            proof {
                assert(arr@.take(i + 1) =~= arr@.take(i as int).push(arr@[i as int]));
            }
            i = i + 1;
        }
        proof {
            assert(arr@.take(arr@.len() as int) =~= arr@);
        }
    }

    /// Configures the UART with the default configuration: the register
    /// writes to make and whether it was taken.
    pub fn initialize(&mut self) -> (r: (Vec<RegWrite>, Result<(), ErrorNum>))
        requires
            old(self).operator.base_address.0 + 7 <= usize::MAX,
        ensures
            (r.0@, r.1) == config_spec(old(self).operator.base_address, old(self).clock_freq, default_config()),
    {
        let cfg = Config {
            baud_rate: 38400,
            data_bits: DataBits::Eight,
            parity: Parity::Disable,
            stop_bits: StopBit::One,
            rcvr_length: RCVRLength::Fourteen,
        };
        self.operator.config(self.clock_freq, cfg)
    }

    /// What the interrupt whose cause the identification register `iir`
    /// holds calls for.  Modem-status and line-status interrupts are never
    /// enabled, and a register that holds no cause cannot be read.
    pub fn handle_int(&self, iir: u8) -> (r: IntAction)
        requires
            int_status_of(iir) is Some,
            int_status_of(iir) != Some(IntStatus::ModemStatus),
            int_status_of(iir) != Some(IntStatus::RecvLineStatus),
        ensures
            r == int_action_of(int_status_of(iir)->0),
    {
        match self.operator.read_int_cause(iir) {
            Ok(IntStatus::THREmpty) => IntAction::DumpWrite,
            _ => IntAction::DepleteRead,
        }
    }

    /// One attempt at reading a byte: the first buffered byte, taken out of
    /// the read buffer, when there is one; else, when the line status `lsr`
    /// says a byte is ready, the register to read it from; else none yet.
    pub fn read_byte(&mut self, lsr: u8) -> (r: ReadStep)
        requires
            old(self).operator.base_address.0 + 7 <= usize::MAX,
        ensures
            old(self).buffer_r@.len() > 0 ==> r == ReadStep::Buffered(old(self).buffer_r@[0])
                && final(self).buffer_r@ == old(self).buffer_r@.drop_first(),
            old(self).buffer_r@.len() == 0 && lsr & 0b00000001 != 0 ==> r == ReadStep::FromFifo(
                PhysAddr((old(self).operator.base_address.0 + 0) as usize),
            ) && final(self).buffer_r@ == old(self).buffer_r@,
            old(self).buffer_r@.len() == 0 && lsr & 0b00000001 == 0 ==> r == ReadStep::Wait && final(self).buffer_r@
                == old(self).buffer_r@,
            final(self).buffer_w@ == old(self).buffer_w@,
            final(self).operator == old(self).operator,
            final(self).base_address == old(self).base_address,
            final(self).clock_freq == old(self).clock_freq,
    {
        if let Some(b) = self.buffer_r.pop_front() {
            return ReadStep::Buffered(b);
        }
        match self.operator.read(lsr) {
            Ok(a) => ReadStep::FromFifo(a),
            Err(_) => ReadStep::Wait,
        }
    }

    /// Which operation `ioctl` is to carry out for the number `op` and the
    /// parameter; `EINVAL` for an unknown number or a parameter of
    /// another operation.
    pub fn ioctl_op(op: usize, param: IOCtlParam) -> (r: Result<IOCtlOp, ErrorNum>)
        ensures
            r == ioctl_spec(op, param),
    {
        let o = IOCtlOp::try_from(op)?;
        match (o, param) {
            (IOCtlOp::WriteByte, IOCtlParam::Write(_)) => Ok(o),
            (IOCtlOp::ReadByte, IOCtlParam::Read) => Ok(o),
            (IOCtlOp::Config, IOCtlParam::Config(_)) => Ok(o),
            (IOCtlOp::Sync, IOCtlParam::Sync) => Ok(o),
            _ => Err(ErrorNum::EINVAL),
        }
    }
}

} // verus!
