//! Drivers found through the device tree: the syscon power-off and reboot
//! registers, the Goldfish real-time clocks and the 16550 UARTs; each is
//! built from the nodes that name it.
use vstd::prelude::*;
use crate::error::ErrorNum;
use crate::mem::types::PhysAddr;
use super::dtb_value::{DTBPropertyValue, ValueModel};
use super::device_tree::{
    DeviceTree, TreeModel, cells, compatible_with, field_equals, forest, join, lookup, reg_spec, select,
};
use super::uart::UART;

verus! {

/// Whether the "reg" of node `id` of `t` can be read and, when it reads,
/// holds a pair.
pub open spec fn reg_readable(t: TreeModel, id: int) -> bool {
    let n = t.nodes[id];
    let ac = cells(t, n.parent, "#address-cells"@, 2)->0 as int;
    let sc = cells(t, n.parent, "#size-cells"@, 1)->0 as int;
    &&& 0 <= id < t.nodes.len()
    &&& n.parent matches Some(p) ==> 0 <= p < t.nodes.len()
    &&& cells(t, n.parent, "#address-cells"@, 2) is Some
    &&& cells(t, n.parent, "#size-cells"@, 1) is Some
    &&& 4 * ac + 4 * sc <= usize::MAX
    &&& lookup(n.props, "reg"@) matches Some(ValueModel::Custom(arr)) ==> {
        &&& ac + sc > 0
        &&& arr.len() > 0 && arr.len() as int % (4 * ac + 4 * sc) == 0 ==> ac <= 2 && sc <= 2
    }
    &&& reg_spec(n, ac, sc) matches Ok(ps) ==> ps.len() > 0
}

/// The first address of the "reg" of node `id` of `t`.
pub open spec fn first_reg(t: TreeModel, id: int) -> Result<u64, ErrorNum> {
    let n = t.nodes[id];
    let ac = cells(t, n.parent, "#address-cells"@, 2)->0 as int;
    let sc = cells(t, n.parent, "#size-cells"@, 1)->0 as int;
    match reg_spec(n, ac, sc) {
        Ok(ps) => Ok(ps[0].0),
        Err(e) => Err(e),
    }
}

/// The first address of the "reg" of each node of `ids`, in order; the
/// first error met, if any.
pub open spec fn first_regs(t: TreeModel, ids: Seq<int>) -> Result<Seq<u64>, ErrorNum>
    decreases ids.len(),
{
    if ids.len() == 0 {
        Ok(seq![])
    } else {
        match first_regs(t, ids.drop_last()) {
            Err(e) => Err(e),
            Ok(rs) => match first_reg(t, ids.last()) {
                Err(e) => Err(e),
                Ok(a) => Ok(rs.push(a)),
            },
        }
    }
}

/// The first address of the "reg" of node `id`.
pub fn first_reg_address(tree: &DeviceTree, id: usize) -> (r: Result<u64, ErrorNum>)
    requires
        reg_readable(tree@, id as int),
    ensures
        r == first_reg(tree@, id as int),
{
    let node = tree.node(id);
    let regs = node.reg_value(tree)?;
    Ok(regs[0].address)
}

/// The nodes that `select` keeps are nodes of the tree.
pub open spec fn ids_in(t: TreeModel, ids: Seq<int>) -> bool {
    forall|k: int| 0 <= k < ids.len() ==> 0 <= #[trigger] ids[k] < t.nodes.len()
}

/// A system-controller register and the value to write into it.
pub struct SysconReg {
    pub syscon_reg: PhysAddr,
    pub magic: u32,
}

/// The register and value that the one node compatible with `compat`
/// names: its "regmap" is the phandle of the node whose first "reg" address
/// is the register, and its "value" is the value.
pub open spec fn syscon_spec(t: TreeModel, compat: Seq<char>) -> Result<(u64, u32), ErrorNum> {
    match select(t.nodes, forest(t.nodes, t.roots), compatible_with(compat)) {
        Err(e) => Err(e),
        Ok(ids) => {
            let n = t.nodes[ids[0]];
            match lookup(n.props, "regmap"@) {
                None => Err(ErrorNum::EBADDTB),
                Some(ValueModel::UInt32(ph)) => match select(
                    t.nodes,
                    forest(t.nodes, t.roots),
                    field_equals("phandle"@, ValueModel::UInt32(ph)),
                ) {
                    Err(e) => Err(e),
                    Ok(rm) => if rm.len() != 1 {
                        Err(ErrorNum::EBADDTB)
                    } else {
                        match first_reg(t, rm[0]) {
                            Err(e) => Err(e),
                            Ok(a) => match lookup(n.props, "value"@) {
                                None => Err(ErrorNum::EBADDTB),
                                Some(ValueModel::UInt32(v)) => Ok((a, v)),
                                Some(_) => Err(ErrorNum::EBADTYPE),
                            },
                        }
                    },
                },
                Some(_) => Err(ErrorNum::EBADDTB),
            }
        },
    }
}

/// What the search for a system-controller register needs: exactly one
/// node compatible with `compat` (more or none stop the kernel), and a
/// readable "reg" on the node its phandle names.
pub open spec fn syscon_ok(t: TreeModel, compat: Seq<char>) -> bool {
    match select(t.nodes, forest(t.nodes, t.roots), compatible_with(compat)) {
        Err(_) => true,
        Ok(ids) => {
            &&& ids.len() == 1
            &&& ids_in(t, ids)
            &&& match lookup(t.nodes[ids[0]].props, "regmap"@) {
                Some(ValueModel::UInt32(ph)) => match select(
                    t.nodes,
                    forest(t.nodes, t.roots),
                    field_equals("phandle"@, ValueModel::UInt32(ph)),
                ) {
                    Ok(rm) => rm.len() == 1 ==> ids_in(t, rm) && reg_readable(t, rm[0]),
                    Err(_) => true,
                },
                _ => true,
            }
        },
    }
}

/// The register and value of the one node compatible with `compat`.
fn find_syscon(tree: &DeviceTree, compat: &str) -> (r: Result<SysconReg, ErrorNum>)
    requires
        syscon_ok(tree@, compat@),
    ensures
        match syscon_spec(tree@, compat@) {
            Ok((a, v)) => r matches Ok(s) && s.syscon_reg.0 == a as usize && s.magic == v,
            Err(e) => r matches Err(e2) && e2 == e,
        },
{
    let found = tree.serach_compatible(compat)?;
    if found.len() != 1 {
        proof {
            assert(false);
        }
        return Err(ErrorNum::EBADDTB);
    }
    let node = tree.node(found[0]);
    let phandle = match node.get_value("regmap")? {
        DTBPropertyValue::UInt32(p) => p,
        _ => {
            return Err(ErrorNum::EBADDTB);
        },
    };
    let regmap = tree.search("phandle", DTBPropertyValue::UInt32(phandle))?;
    if regmap.len() != 1 {
        return Err(ErrorNum::EBADDTB);
    }
    let addr = first_reg_address(tree, regmap[0])?;
    let magic = node.get_value("value")?.get_u32()?;
    Ok(SysconReg { syscon_reg: PhysAddr(addr as usize), magic })
}

/// The power-off driver: the register to write and the value that powers
/// the machine off.
pub struct PowerOff {
    pub syscon_reg: PhysAddr,
    pub shutdown_magic: u32,
}

impl PowerOff {
    /// The power-off driver of the one "syscon-poweroff" node.
    pub fn new(dev_tree: &DeviceTree) -> (r: Result<PowerOff, ErrorNum>)
        requires
            syscon_ok(dev_tree@, "syscon-poweroff"@),
        ensures
            match syscon_spec(dev_tree@, "syscon-poweroff"@) {
                Ok((a, v)) => r matches Ok(p) && p.syscon_reg.0 == a as usize && p.shutdown_magic == v,
                Err(e) => r matches Err(e2) && e2 == e,
            },
    {
        let s = find_syscon(dev_tree, "syscon-poweroff")?;
        Ok(PowerOff { syscon_reg: s.syscon_reg, shutdown_magic: s.magic })
    }

    /// The write that powers the machine off.
    pub fn shutdown(&self) -> (r: (PhysAddr, u32))
        ensures
            r == (self.syscon_reg, self.shutdown_magic),
    {
        (self.syscon_reg, self.shutdown_magic)
    }
}

/// The reboot driver: the register to write and the value that reboots the machine.
pub struct Reboot {
    pub syscon_reg: PhysAddr,
    pub reboot_magic: u32,
}

impl Reboot {
    /// The reboot driver of the one "syscon-reboot" node.
    pub fn new(dev_tree: &DeviceTree) -> (r: Result<Reboot, ErrorNum>)
        requires
            syscon_ok(dev_tree@, "syscon-reboot"@),
        ensures
            match syscon_spec(dev_tree@, "syscon-reboot"@) {
                Ok((a, v)) => r matches Ok(p) && p.syscon_reg.0 == a as usize && p.reboot_magic == v,
                Err(e) => r matches Err(e2) && e2 == e,
            },
    {
        let s = find_syscon(dev_tree, "syscon-reboot")?;
        Ok(Reboot { syscon_reg: s.syscon_reg, reboot_magic: s.magic })
    }

    /// The write that reboots the machine.
    pub fn reboot(&self) -> (r: (PhysAddr, u32))
        ensures
            r == (self.syscon_reg, self.reboot_magic),
    {
        (self.syscon_reg, self.reboot_magic)
    }
}

/// A Goldfish real-time clock: where its registers are.
pub struct RTC {
    pub addr: PhysAddr,
}

/// The nodes whose "compatible" equals the text "google,goldfish-rtc".
pub open spec fn rtc_nodes(t: TreeModel) -> Result<Seq<int>, ErrorNum> {
    select(t.nodes, forest(t.nodes, t.roots), field_equals("compatible"@, ValueModel::CStr("google,goldfish-rtc"@)))
}

impl RTC {
    /// A clock for each node whose "compatible" equals the text
    /// "google,goldfish-rtc", at its first "reg" address.
    pub fn new(dev_tree: &DeviceTree) -> (r: Result<Vec<RTC>, ErrorNum>)
        requires
            rtc_nodes(dev_tree@) matches Ok(ids) ==> ids_in(dev_tree@, ids) && forall|k: int|
                0 <= k < ids.len() ==> reg_readable(dev_tree@, #[trigger] ids[k]),
        ensures
            match rtc_nodes(dev_tree@) {
                Err(e) => r matches Err(e2) && e2 == e,
                Ok(ids) => match first_regs(dev_tree@, ids) {
                    Err(e) => r matches Err(e2) && e2 == e,
                    Ok(addrs) => r matches Ok(v) && v@.len() == addrs.len() && forall|k: int|
                        0 <= k < addrs.len() ==> (#[trigger] v@[k]).addr.0 == addrs[k] as usize,
                },
            },
    {
        let target = DTBPropertyValue::CStr(crate::text::owned("google,goldfish-rtc"));
        let nodes = dev_tree.search("compatible", target)?;
        let ghost ids = rtc_nodes(dev_tree@)->Ok_0;
        let mut res: Vec<RTC> = Vec::new();
        let mut i: usize = 0;
        proof {
            assert(ids.take(0) =~= Seq::<int>::empty());
        }
        while i < nodes.len()
            invariant
                i <= nodes@.len(),
                rtc_nodes(dev_tree@) == Ok::<Seq<int>, ErrorNum>(ids),
                nodes@.len() == ids.len(),
                forall|k: int| 0 <= k < ids.len() ==> #[trigger] ids[k] == nodes@[k] as int,
                ids_in(dev_tree@, ids),
                forall|k: int| 0 <= k < ids.len() ==> reg_readable(dev_tree@, #[trigger] ids[k]),
                first_regs(dev_tree@, ids.take(i as int)) matches Ok(addrs) && res@.len() == addrs.len()
                    && forall|k: int| 0 <= k < addrs.len() ==> (#[trigger] res@[k]).addr.0 == addrs[k] as usize,
            decreases nodes@.len() - i,
        {
            proof {
                assert(ids.take(i + 1).drop_last() =~= ids.take(i as int));
                assert(reg_readable(dev_tree@, ids[i as int]));
            }
            let a = match first_reg_address(dev_tree, nodes[i]) {
                Ok(a) => a,
                Err(e) => {
                    proof {
                        assert(ids.take(i + 1).last() == ids[i as int]);
                        assert(first_regs(dev_tree@, ids.take(i + 1)) == Err::<Seq<u64>, ErrorNum>(e));
                        lemma_first_regs_err(dev_tree@, ids, i as int + 1);
                    }
                    return Err(e);
                },
            };
            res.push(RTC { addr: PhysAddr(a as usize) });
            i = i + 1;
        }
        proof {
            assert(ids.take(nodes@.len() as int) =~= ids);
        }
        Ok(res)
    }
}

/// An error among the first `k` nodes is the error of all of them.
proof fn lemma_first_regs_err(t: TreeModel, ids: Seq<int>, k: int)
    requires
        0 <= k <= ids.len(),
        first_regs(t, ids.take(k)) is Err,
    ensures
        first_regs(t, ids) == first_regs(t, ids.take(k)),
    decreases ids.len() - k,
{
    if k < ids.len() {
        assert(ids.take(k + 1).drop_last() =~= ids.take(k));
        lemma_first_regs_err(t, ids, k + 1);
    } else {
        assert(ids.take(k) =~= ids);
    }
}

/// The nodes of 16550 UARTs: those compatible with "ns16550a", then those
/// compatible with "ns8250".
pub open spec fn uart_nodes(t: TreeModel) -> Result<Seq<int>, ErrorNum> {
    join(
        select(t.nodes, forest(t.nodes, t.roots), compatible_with("ns16550a"@)),
        select(t.nodes, forest(t.nodes, t.roots), compatible_with("ns8250"@)),
    )
}

/// The 32-bit "clock-frequency" of node `id`.
pub open spec fn clock_of(t: TreeModel, id: int) -> Result<u32, ErrorNum> {
    match lookup(t.nodes[id].props, "clock-frequency"@) {
        None => Err(ErrorNum::EBADDTB),
        Some(ValueModel::UInt32(v)) => Ok(v),
        Some(_) => Err(ErrorNum::EBADTYPE),
    }
}

/// The first "reg" address and the clock of each node of `ids`, in order;
/// the first error met, if any.
pub open spec fn uart_params(t: TreeModel, ids: Seq<int>) -> Result<Seq<(u64, u32)>, ErrorNum>
    decreases ids.len(),
{
    if ids.len() == 0 {
        Ok(seq![])
    } else {
        match uart_params(t, ids.drop_last()) {
            Err(e) => Err(e),
            Ok(ps) => match first_reg(t, ids.last()) {
                Err(e) => Err(e),
                Ok(a) => match clock_of(t, ids.last()) {
                    Err(e) => Err(e),
                    Ok(c) => Ok(ps.push((a, c))),
                },
            },
        }
    }
}

proof fn lemma_uart_params_err(t: TreeModel, ids: Seq<int>, k: int)
    requires
        0 <= k <= ids.len(),
        uart_params(t, ids.take(k)) is Err,
    ensures
        uart_params(t, ids) == uart_params(t, ids.take(k)),
    decreases ids.len() - k,
{
    if k < ids.len() {
        assert(ids.take(k + 1).drop_last() =~= ids.take(k));
        lemma_uart_params_err(t, ids, k + 1);
    } else {
        assert(ids.take(k) =~= ids);
    }
}

impl UART {
    /// A UART for each node compatible with "ns16550a" or "ns8250", at its
    /// first "reg" address with its "clock-frequency".
    pub fn new(dev_tree: &DeviceTree) -> (r: Result<Vec<UART>, ErrorNum>)
        requires
            uart_nodes(dev_tree@) matches Ok(ids) ==> ids_in(dev_tree@, ids) && forall|k: int|
                0 <= k < ids.len() ==> reg_readable(dev_tree@, #[trigger] ids[k]),
        ensures
            match uart_nodes(dev_tree@) {
                Err(e) => r matches Err(e2) && e2 == e,
                Ok(ids) => match uart_params(dev_tree@, ids) {
                    Err(e) => r matches Err(e2) && e2 == e,
                    Ok(ps) => r matches Ok(v) && v@.len() == ps.len() && forall|k: int|
                        0 <= k < ps.len() ==> (#[trigger] v@[k]).base_address.0 == ps[k].0 as usize
                            && v@[k].clock_freq == ps[k].1 && v@[k].operator.base_address == v@[k].base_address,
                },
            },
    {
        let mut compatible = dev_tree.serach_compatible("ns16550a")?;
        let mut more = dev_tree.serach_compatible("ns8250")?;
        let ghost ids = uart_nodes(dev_tree@)->Ok_0;
        let ghost first = compatible@;
        let ghost second = more@;
        compatible.append(&mut more);
        let mut res: Vec<UART> = Vec::new();
        let mut i: usize = 0;
        proof {
            assert(ids.take(0) =~= Seq::<int>::empty());
            assert(compatible@ == first + second);
            assert forall|k: int| 0 <= k < ids.len() implies #[trigger] ids[k] == compatible@[k] as int by {
                if k < first.len() {
                    assert(super::device_tree::ids_view(first)[k] == first[k] as int);
                } else {
                    assert(super::device_tree::ids_view(second)[k - first.len()] == second[k - first.len()] as int);
                }
            }
        }
        while i < compatible.len()
            invariant
                i <= compatible@.len(),
                uart_nodes(dev_tree@) == Ok::<Seq<int>, ErrorNum>(ids),
                compatible@.len() == ids.len(),
                forall|k: int| 0 <= k < ids.len() ==> #[trigger] ids[k] == compatible@[k] as int,
                ids_in(dev_tree@, ids),
                forall|k: int| 0 <= k < ids.len() ==> reg_readable(dev_tree@, #[trigger] ids[k]),
                uart_params(dev_tree@, ids.take(i as int)) matches Ok(ps) && res@.len() == ps.len()
                    && forall|k: int| 0 <= k < ps.len() ==> (#[trigger] res@[k]).base_address.0 == ps[k].0 as usize
                        && res@[k].clock_freq == ps[k].1 && res@[k].operator.base_address == res@[k].base_address,
            decreases compatible@.len() - i,
        {
            proof {
                assert(ids.take(i + 1).drop_last() =~= ids.take(i as int));
                assert(ids.take(i + 1).last() == ids[i as int]);
                assert(reg_readable(dev_tree@, ids[i as int]));
            }
            let id = compatible[i];
            let a = match first_reg_address(dev_tree, id) {
                Ok(a) => a,
                Err(e) => {
                    proof {
                        lemma_uart_params_err(dev_tree@, ids, i as int + 1);
                    }
                    return Err(e);
                },
            };
            let clock = match dev_tree.node(id).get_value("clock-frequency") {
                Ok(v) => match v.get_u32() {
                    Ok(c) => c,
                    Err(e) => {
                        proof {
                            lemma_uart_params_err(dev_tree@, ids, i as int + 1);
                        }
                        return Err(e);
                    },
                },
                Err(e) => {
                    proof {
                        lemma_uart_params_err(dev_tree@, ids, i as int + 1);
                    }
                    return Err(e);
                },
            };
            res.push(UART::with_clock(PhysAddr(a as usize), clock));
            i = i + 1;
        }
        proof {
            assert(ids.take(compatible@.len() as int) =~= ids);
        }
        Ok(res)
    }
}

} // verus!
