//! The RISC-V platform-level interrupt controller: where its registers lie,
//! what each request writes to them, and how it is found and set up from the
//! device tree.  The accesses themselves are made by whoever holds the
//! mapped registers.
use vstd::prelude::*;
use crate::error::ErrorNum;
use crate::mem::types::PhysAddr;
use super::dtb_value::ValueModel;
use super::device_tree::{DeviceTree, TreeModel, compatible_with, field_equals, forest, has_field, lookup, select};
use super::drivers::{first_reg, first_reg_address, ids_in, reg_readable};

verus! {

/// The requests a PLIC answers.
#[derive(Clone, Copy, PartialEq, Eq, Structural, Debug)]
pub enum IOCtlOp {
    SetIRQPriority,
    SetHartIRQAvailability,
    SetHartIntThreshold,
    ReadHartIntThreshold,
}

/// The request numbered `v`.
pub open spec fn ioctl_op_of(v: usize) -> Option<IOCtlOp> {
    if v == 1 {
        Some(IOCtlOp::SetIRQPriority)
    } else if v == 2 {
        Some(IOCtlOp::SetHartIRQAvailability)
    } else if v == 3 {
        Some(IOCtlOp::SetHartIntThreshold)
    } else if v == 4 {
        Some(IOCtlOp::ReadHartIntThreshold)
    } else {
        None
    }
}

impl IOCtlOp {
    /// The request numbered `v`; `EINVAL` for a number no request has.
    pub fn try_from(v: usize) -> (r: Result<IOCtlOp, ErrorNum>)
        ensures
            match ioctl_op_of(v) {
                Some(op) => r == Ok::<IOCtlOp, ErrorNum>(op),
                None => r == Err::<IOCtlOp, ErrorNum>(ErrorNum::EINVAL),
            },
    {
        if v == 1 {
            Ok(IOCtlOp::SetIRQPriority)
        } else if v == 2 {
            Ok(IOCtlOp::SetHartIRQAvailability)
        } else if v == 3 {
            Ok(IOCtlOp::SetHartIntThreshold)
        } else if v == 4 {
            Ok(IOCtlOp::ReadHartIntThreshold)
        } else {
            Err(ErrorNum::EINVAL)
        }
    }
}

/// The arguments of a request.
#[derive(Clone, Copy, PartialEq, Eq, Structural, Debug)]
pub enum IOCtlParam {
    /// irq, priority
    SetIRQPriority(u32, u32),
    /// hart, irq, enable
    SetHartIRQAvailability(usize, u32, bool),
    /// hart, threshold
    SetHartIntThreshold(usize, u32),
    /// hart
    ReadHartIntThreshold(usize),
}

/// The answers to requests.
#[derive(Clone, Copy, PartialEq, Eq, Structural, Debug)]
pub enum IOCtlRes {
    SetIRQPriority,
    SetHartIRQAvailability,
    SetHartIntThreshold,
    ReadHartIntThreshold(u32),
}

/// One access to a 32-bit register of the controller.
#[derive(Clone, Copy, PartialEq, Eq, Structural, Debug)]
pub enum PLICAccess {
    /// Write `value` to the register at `addr`.
    Write { addr: PhysAddr, value: u32 },
    /// Read the register at `addr`, set bit `bit` of what it holds when `on`
    /// and clear it otherwise, and write the result back.
    SetBit { addr: PhysAddr, bit: u32, on: bool },
    /// Read the register at `addr`.
    Read { addr: PhysAddr },
}

/// The register of the priority of `irq`.
pub open spec fn priority_reg(base: int, irq: int) -> int {
    base + irq * 4
}

/// The register of the interrupts that `hart` takes in supervisor mode.
pub open spec fn enable_reg(base: int, hart: int) -> int {
    base + 0x2080 + hart * 0x100
}

/// The register of the priority threshold of `hart`.
pub open spec fn threshold_reg(base: int, hart: int) -> int {
    base + 0x20_1000 + hart * 0x2000
}

/// The register through which `hart` claims and completes interrupts.
pub open spec fn claim_reg(base: int, hart: int) -> int {
    base + 0x20_1004 + hart * 0x2000
}

/// The registers of the controller at `base` that the harts up to `harts`
/// use lie below the end of memory.
pub open spec fn regs_fit(base: int, harts: int) -> bool {
    &&& 0 <= harts
    &&& threshold_reg(base, harts) + 4 <= usize::MAX
}

/// The registers of a controller at `base_address`.
pub struct PLICOperator {
    pub base_address: PhysAddr,
}

/// The bits of the enable register of a hart after `irq` is enabled (`on`)
/// or disabled in what it held, `current`.
pub open spec fn with_irq(current: u32, irq: u32, on: bool) -> u32 {
    if on {
        current | (1u32 << irq)
    } else {
        current & !(1u32 << irq)
    }
}

impl PLICOperator {
    fn irq_priority_reg(&self, irq: u32) -> (r: PhysAddr)
        requires
            irq < 32,
            regs_fit(self.base_address.0 as int, 0),
        ensures
            r.0 == priority_reg(self.base_address.0 as int, irq as int),
    {
        PhysAddr(self.base_address.0 + irq as usize * 4)
    }

    fn hart_irq_s_enable_reg(&self, hart: usize) -> (r: PhysAddr)
        requires
            regs_fit(self.base_address.0 as int, hart as int),
        ensures
            r.0 == enable_reg(self.base_address.0 as int, hart as int),
    {
        PhysAddr(self.base_address.0 + 0x2080usize + hart * 0x100usize)
    }

    fn hart_irq_s_threshold_reg(&self, hart: usize) -> (r: PhysAddr)
        requires
            regs_fit(self.base_address.0 as int, hart as int),
        ensures
            r.0 == threshold_reg(self.base_address.0 as int, hart as int),
    {
        PhysAddr(self.base_address.0 + 0x20_1000usize + hart * 0x2000usize)
    }

    fn hart_claim_reg(&self, hart: usize) -> (r: PhysAddr)
        requires
            regs_fit(self.base_address.0 as int, hart as int),
        ensures
            r.0 == claim_reg(self.base_address.0 as int, hart as int),
    {
        PhysAddr(self.base_address.0 + 0x20_1004usize + hart * 0x2000usize)
    }

    /// Sets the priority of `irq`, one of the first 32.
    pub fn set_irq_priority(&self, irq: u32, priority: u32) -> (r: PLICAccess)
        requires
            irq < 32,
            regs_fit(self.base_address.0 as int, 0),
        ensures
            r matches PLICAccess::Write { addr, value } && addr.0 == priority_reg(self.base_address.0 as int, irq as int)
                && value == priority,
    {
        PLICAccess::Write { addr: self.irq_priority_reg(irq), value: priority }
    }

    /// Lets `hart`, one of the first 16, take `irq`, one of the first 32, or
    /// stops it from taking it.
    pub fn hart_irq_availability(&self, hart: usize, irq: u32, availability: bool) -> (r: PLICAccess)
        requires
            irq < 32,
            hart < 16,
            regs_fit(self.base_address.0 as int, hart as int),
        ensures
            r matches PLICAccess::SetBit { addr, bit, on } && addr.0 == enable_reg(self.base_address.0 as int, hart as int)
                && bit == irq && on == availability,
    {
        PLICAccess::SetBit { addr: self.hart_irq_s_enable_reg(hart), bit: irq, on: availability }
    }

    /// What the enable register holds after a `SetBit` of `irq` to `on`
    /// on what it held, `current`.
    pub fn apply_availability(current: u32, irq: u32, on: bool) -> (r: u32)
        requires
            irq < 32,
        ensures
            r == with_irq(current, irq, on),
    {
        if on {
            current | (1u32 << irq)
        } else {
            current & !(1u32 << irq)
        }
    }

    /// Sets the priority threshold of `hart`.
    pub fn set_hart_priority_threshold(&self, hart: usize, threshold: u32) -> (r: PLICAccess)
        requires
            regs_fit(self.base_address.0 as int, hart as int),
        ensures
            r matches PLICAccess::Write { addr, value } && addr.0 == threshold_reg(self.base_address.0 as int, hart as int)
                && value == threshold,
    {
        PLICAccess::Write { addr: self.hart_irq_s_threshold_reg(hart), value: threshold }
    }

    /// Reads the priority threshold of `hart`.
    pub fn read_hart_priority_threshold(&self, hart: usize) -> (r: PLICAccess)
        requires
            regs_fit(self.base_address.0 as int, hart as int),
        ensures
            r matches PLICAccess::Read { addr } && addr.0 == threshold_reg(self.base_address.0 as int, hart as int),
    {
        PLICAccess::Read { addr: self.hart_irq_s_threshold_reg(hart) }
    }

    /// Claims the highest pending interrupt of `hart`: the read gives its number.
    pub fn claim_hart_interrupt(&self, hart: usize) -> (r: PLICAccess)
        requires
            regs_fit(self.base_address.0 as int, hart as int),
        ensures
            r matches PLICAccess::Read { addr } && addr.0 == claim_reg(self.base_address.0 as int, hart as int),
    {
        PLICAccess::Read { addr: self.hart_claim_reg(hart) }
    }

    /// Tells the controller that `hart` has handled `irq`.
    pub fn complete_hart_interrupt(&self, hart: usize, irq: u32) -> (r: PLICAccess)
        requires
            regs_fit(self.base_address.0 as int, hart as int),
        ensures
            r matches PLICAccess::Write { addr, value } && addr.0 == claim_reg(self.base_address.0 as int, hart as int)
                && value == irq,
    {
        PLICAccess::Write { addr: self.hart_claim_reg(hart), value: irq }
    }
}

/// The interrupt controller at `base_address`.
pub struct PLIC {
    pub base_address: PhysAddr,
    pub operator: PLICOperator,
}

/// The nodes compatible with "riscv,plic0".
pub open spec fn plic_nodes(t: TreeModel) -> Result<Seq<int>, ErrorNum> {
    select(t.nodes, forest(t.nodes, t.roots), compatible_with("riscv,plic0"@))
}

/// The address of the controller: the first "reg" address of its node.
pub open spec fn plic_spec(t: TreeModel) -> Result<u64, ErrorNum> {
    match plic_nodes(t) {
        Err(e) => Err(e),
        Ok(ids) => first_reg(t, ids[0]),
    }
}

/// What finding the controller needs: exactly one compatible node (none or
/// more stop the kernel), a readable "reg" on it and, once that reads, an
/// "interrupt-controller" property (one without it stops the kernel too).
pub open spec fn plic_ok(t: TreeModel) -> bool {
    match plic_nodes(t) {
        Err(_) => true,
        Ok(ids) => {
            &&& ids.len() == 1
            &&& ids_in(t, ids)
            &&& reg_readable(t, ids[0])
            &&& first_reg(t, ids[0]) is Ok ==> lookup(t.nodes[ids[0]].props, "interrupt-controller"@) is Some
        },
    }
}

/// The "interrupt" numbers of the nodes `ids`, in order.
pub open spec fn irqs_of(t: TreeModel, ids: Seq<int>) -> Seq<u32> {
    Seq::new(ids.len(), |k: int| lookup(t.nodes[ids[k]].props, "interrupt"@)->Some_0->UInt32_0)
}

/// The harts: the nodes whose "device_type" is "cpu".
pub open spec fn cpu_nodes(t: TreeModel) -> Result<Seq<int>, ErrorNum> {
    select(t.nodes, forest(t.nodes, t.roots), field_equals("device_type"@, ValueModel::CStr("cpu"@)))
}

/// The nodes that have an "interrupt" property.
pub open spec fn int_nodes(t: TreeModel) -> Result<Seq<int>, ErrorNum> {
    select(t.nodes, forest(t.nodes, t.roots), has_field("interrupt"@))
}

/// What setting the controller up needs: the harts can be counted, and the
/// "interrupt" of each node that has one is a 32-bit number below 32 (any
/// other value stops the kernel).
pub open spec fn init_ok(t: TreeModel, base: int) -> bool {
    &&& cpu_nodes(t) is Ok
    &&& regs_fit(base, cpu_nodes(t)->Ok_0.len() as int)
    &&& cpu_nodes(t)->Ok_0.len() <= 16
    &&& int_nodes(t) matches Ok(ids) ==> ids_in(t, ids) && forall|k: int|
        0 <= k < ids.len() ==> (lookup(t.nodes[#[trigger] ids[k]].props, "interrupt"@) matches Some(
            ValueModel::UInt32(v),
        ) && v < 32)
}

/// The accesses that enable `irq` for each of the first `harts` harts.
pub open spec fn enable_all(base: int, irq: u32, harts: nat) -> Seq<PLICAccess> {
    Seq::new(harts, |h: int| PLICAccess::SetBit { addr: PhysAddr(enable_reg(base, h) as usize), bit: irq, on: true })
}

/// The accesses that give each interrupt of `irqs` priority 1 and enable it
/// for every hart, one interrupt after the other.
pub open spec fn irq_setup(base: int, irqs: Seq<u32>, harts: nat) -> Seq<PLICAccess>
    decreases irqs.len(),
{
    if irqs.len() == 0 {
        seq![]
    } else {
        irq_setup(base, irqs.drop_last(), harts).push(
            PLICAccess::Write { addr: PhysAddr(priority_reg(base, irqs.last() as int) as usize), value: 1 },
        ) + enable_all(base, irqs.last(), harts)
    }
}

/// The accesses that set the threshold of each of the first `harts` harts to 0.
pub open spec fn thresholds_zero(base: int, harts: nat) -> Seq<PLICAccess> {
    Seq::new(harts, |h: int| PLICAccess::Write { addr: PhysAddr(threshold_reg(base, h) as usize), value: 0 })
}

/// The request `op` with `param`: the access it makes; `EINVAL` for an
/// unknown number or arguments of another request.
pub open spec fn ioctl_spec(base: int, op: usize, param: IOCtlParam) -> Result<PLICAccess, ErrorNum> {
    match ioctl_op_of(op) {
        None => Err(ErrorNum::EINVAL),
        Some(o) => match (o, param) {
            (IOCtlOp::SetIRQPriority, IOCtlParam::SetIRQPriority(irq, priority)) => Ok(
                PLICAccess::Write { addr: PhysAddr(priority_reg(base, irq as int) as usize), value: priority },
            ),
            (IOCtlOp::SetHartIRQAvailability, IOCtlParam::SetHartIRQAvailability(hart, irq, on)) => Ok(
                PLICAccess::SetBit { addr: PhysAddr(enable_reg(base, hart as int) as usize), bit: irq, on },
            ),
            (IOCtlOp::SetHartIntThreshold, IOCtlParam::SetHartIntThreshold(hart, threshold)) => Ok(
                PLICAccess::Write { addr: PhysAddr(threshold_reg(base, hart as int) as usize), value: threshold },
            ),
            (IOCtlOp::ReadHartIntThreshold, IOCtlParam::ReadHartIntThreshold(hart)) => Ok(
                PLICAccess::Read { addr: PhysAddr(threshold_reg(base, hart as int) as usize) },
            ),
            _ => Err(ErrorNum::EINVAL),
        },
    }
}

/// The arguments that would stop the kernel in the request they are for: an
/// interrupt number from 32 on, a hart from 16 on for enabling, or registers
/// past the end of memory.
pub open spec fn ioctl_ok(base: int, op: usize, param: IOCtlParam) -> bool {
    match (ioctl_op_of(op), param) {
        (Some(IOCtlOp::SetIRQPriority), IOCtlParam::SetIRQPriority(irq, _)) => irq < 32 && regs_fit(base, 0),
        (Some(IOCtlOp::SetHartIRQAvailability), IOCtlParam::SetHartIRQAvailability(hart, irq, _)) => irq < 32 && hart
            < 16 && regs_fit(base, hart as int),
        (Some(IOCtlOp::SetHartIntThreshold), IOCtlParam::SetHartIntThreshold(hart, _)) => regs_fit(base, hart as int),
        (Some(IOCtlOp::ReadHartIntThreshold), IOCtlParam::ReadHartIntThreshold(hart)) => regs_fit(base, hart as int),
        _ => true,
    }
}

impl PLIC {
    /// The controller of the one node compatible with "riscv,plic0", at its
    /// first "reg" address.
    pub fn new(dev_tree: &DeviceTree) -> (r: Result<PLIC, ErrorNum>)
        requires
            plic_ok(dev_tree@),
        ensures
            match plic_spec(dev_tree@) {
                Ok(a) => r matches Ok(p) && p.base_address.0 == a as usize && p.operator.base_address == p.base_address,
                Err(e) => r == Err::<PLIC, ErrorNum>(e),
            },
    {
        let found = dev_tree.serach_compatible("riscv,plic0")?;
        if found.len() != 1 {
            proof {
                assert(false);
            }
            return Err(ErrorNum::EBADDTB);
        }
        let id = found[0];
        let a = first_reg_address(dev_tree, id)?;
        if dev_tree.node(id).get_value("interrupt-controller").is_err() {
            proof {
                assert(false);
            }
            return Err(ErrorNum::EBADDTB);
        }
        let base_address = PhysAddr(a as usize);
        Ok(PLIC { base_address, operator: PLICOperator { base_address } })
    }

    /// The accesses that set the controller up: each interrupt of a node of
    /// the device tree gets priority 1 and is enabled for every hart, then
    /// the threshold of every hart is set to 0 so that all of them come through.
    pub fn initialize(&self, dev_tree: &DeviceTree) -> (r: Result<Vec<PLICAccess>, ErrorNum>)
        requires
            init_ok(dev_tree@, self.base_address.0 as int),
            self.operator.base_address == self.base_address,
        ensures
            match int_nodes(dev_tree@) {
                Err(e) => r == Err::<Vec<PLICAccess>, ErrorNum>(e),
                Ok(ids) => r matches Ok(v) && v@ == irq_setup(
                    self.base_address.0 as int,
                    irqs_of(dev_tree@, ids),
                    cpu_nodes(dev_tree@)->Ok_0.len(),
                ) + thresholds_zero(self.base_address.0 as int, cpu_nodes(dev_tree@)->Ok_0.len()),
            },
    {
        let int_dev = dev_tree.contains_field("interrupt")?;
        let hart_count = dev_tree.hart_count();
        let ghost t = dev_tree@;
        let ghost base = self.base_address.0 as int;
        let ghost ids = int_nodes(t)->Ok_0;
        let ghost harts = hart_count as nat;
        let mut res: Vec<PLICAccess> = Vec::new();
        let mut i: usize = 0;
        proof {
            assert(irqs_of(t, ids).take(0) =~= Seq::<u32>::empty());
            assert forall|k: int| 0 <= k < ids.len() implies #[trigger] ids[k] == int_dev@[k] as int by {
                assert(super::device_tree::ids_view(int_dev@)[k] == int_dev@[k] as int);
            }
        }
        while i < int_dev.len()
            invariant
                t == dev_tree@,
                base == self.base_address.0 as int,
                self.operator.base_address == self.base_address,
                init_ok(t, base),
                harts == hart_count,
                harts == cpu_nodes(t)->Ok_0.len(),
                int_nodes(t) == Ok::<Seq<int>, ErrorNum>(ids),
                int_dev@.len() == ids.len(),
                forall|k: int| 0 <= k < ids.len() ==> #[trigger] ids[k] == int_dev@[k] as int,
                i <= int_dev@.len(),
                res@ == irq_setup(base, irqs_of(t, ids).take(i as int), harts),
            decreases int_dev@.len() - i,
        {
            let id = int_dev[i];
            proof {
                assert(ids_in(t, ids));
                assert(0 <= ids[i as int] < t.nodes.len());
                assert(lookup(t.nodes[ids[i as int]].props, "interrupt"@) matches Some(ValueModel::UInt32(v)) && v < 32);
            }
            let int_irq = match dev_tree.node(id).get_value("interrupt") {
                Ok(v) => match v.get_u32() {
                    Ok(x) => x,
                    Err(_) => {
                        proof {
                            assert(false);
                        }
                        return Err(ErrorNum::EBADTYPE);
                    },
                },
                Err(_) => {
                    proof {
                        assert(false);
                    }
                    return Err(ErrorNum::EBADDTB);
                },
            };
            proof {
                assert(int_irq == irqs_of(t, ids)[i as int]);
            }
            res.push(self.operator.set_irq_priority(int_irq, 1));
            let ghost before = res@;
            let mut hart: usize = 0;
            while hart < hart_count
                invariant
                    base == self.base_address.0 as int,
                    self.operator.base_address == self.base_address,
                    regs_fit(base, harts as int),
                    harts == hart_count,
                    harts <= 16,
                    int_irq < 32,
                    hart <= hart_count,
                    res@ == before + enable_all(base, int_irq, hart as nat),
                decreases hart_count - hart,
            {
                res.push(self.operator.hart_irq_availability(hart, int_irq, true));
                proof {
                    assert(enable_all(base, int_irq, hart as nat).push(
                        PLICAccess::SetBit { addr: PhysAddr(enable_reg(base, hart as int) as usize), bit: int_irq, on: true },
                    ) =~= enable_all(base, int_irq, (hart + 1) as nat));
                }
                hart = hart + 1;
            }
            proof {
                let s = irqs_of(t, ids).take(i + 1);
                assert(s.drop_last() =~= irqs_of(t, ids).take(i as int));
                assert(s.last() == int_irq);
            }
            i = i + 1;
        }
        let ghost setup = res@;
        let mut hart: usize = 0;
        while hart < hart_count
            invariant
                base == self.base_address.0 as int,
                self.operator.base_address == self.base_address,
                regs_fit(base, harts as int),
                harts == hart_count,
                hart <= hart_count,
                res@ == setup + thresholds_zero(base, hart as nat),
            decreases hart_count - hart,
        {
            res.push(self.operator.set_hart_priority_threshold(hart, 0));
            proof {
                assert(thresholds_zero(base, hart as nat).push(
                    PLICAccess::Write { addr: PhysAddr(threshold_reg(base, hart as int) as usize), value: 0 },
                ) =~= thresholds_zero(base, (hart + 1) as nat));
            }
            hart = hart + 1;
        }
        proof {
            assert(irqs_of(t, ids).take(ids.len() as int) =~= irqs_of(t, ids));
        }
        Ok(res)
    }

    /// The access that request `op` with `param` makes.
    pub fn ioctl(&self, op: usize, param: IOCtlParam) -> (r: Result<PLICAccess, ErrorNum>)
        requires
            self.operator.base_address == self.base_address,
            ioctl_ok(self.base_address.0 as int, op, param),
        ensures
            r == ioctl_spec(self.base_address.0 as int, op, param),
    {
        let o = IOCtlOp::try_from(op)?;
        match (o, param) {
            (IOCtlOp::SetIRQPriority, IOCtlParam::SetIRQPriority(irq, priority)) => {
                Ok(self.operator.set_irq_priority(irq, priority))
            },
            (IOCtlOp::SetHartIRQAvailability, IOCtlParam::SetHartIRQAvailability(hart, irq, availability)) => {
                Ok(self.operator.hart_irq_availability(hart, irq, availability))
            },
            (IOCtlOp::SetHartIntThreshold, IOCtlParam::SetHartIntThreshold(hart, threshold)) => {
                Ok(self.operator.set_hart_priority_threshold(hart, threshold))
            },
            (IOCtlOp::ReadHartIntThreshold, IOCtlParam::ReadHartIntThreshold(hart)) => {
                Ok(self.operator.read_hart_priority_threshold(hart))
            },
            _ => Err(ErrorNum::EINVAL),
        }
    }
}

} // verus!
