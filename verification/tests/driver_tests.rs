use parch_kernel::device::device_tree::DeviceTree;
use parch_kernel::device::drivers::{PowerOff, Reboot, RTC};
use parch_kernel::device::uart::UART;
use parch_kernel::device::plic::{IOCtlParam, PLICAccess, PLICOperator, PLIC};
use parch_kernel::mem::types::PhysAddr;
use parch_kernel::fs::dev_fs::{compatible_devices, DevEntry, DevFolder};
use parch_kernel::fs::types::FileType;
use parch_kernel::error::ErrorNum;
use parch_kernel::mem::elf::{map_elf, plan_from_headers, ElfHeaders, ProgramHeaderInfo};

/// A node of a blob being built: its name, its properties and its children.
struct N {
    name: &'static str,
    props: Vec<(&'static str, Vec<u8>)>,
    children: Vec<N>,
}

fn be32(v: u32) -> Vec<u8> {
    v.to_be_bytes().to_vec()
}

fn pad(b: &mut Vec<u8>) {
    while b.len() % 4 != 0 {
        b.push(0);
    }
}

fn emit(n: &N, st: &mut Vec<u8>, strings: &mut Vec<u8>) {
    st.extend(be32(1));
    st.extend(n.name.as_bytes());
    st.push(0);
    pad(st);
    for (k, v) in &n.props {
        let off = strings.len() as u32;
        strings.extend(k.as_bytes());
        strings.push(0);
        st.extend(be32(3));
        st.extend(be32(v.len() as u32));
        st.extend(be32(off));
        st.extend(v);
        pad(st);
    }
    for c in &n.children {
        emit(c, st, strings);
    }
    st.extend(be32(2));
}

fn blob(root: N) -> Vec<u8> {
    let mut st = Vec::new();
    let mut strings = Vec::new();
    emit(&root, &mut st, &mut strings);
    st.extend(be32(9));
    let rsv = vec![0u8; 16];
    let struct_off = 40 + rsv.len() as u32;
    let strings_off = struct_off + st.len() as u32;
    let mut b = Vec::new();
    for v in [0xd00d_feed, strings_off + strings.len() as u32, struct_off, strings_off, 40, 17, 16, 0, strings.len() as u32, st.len() as u32] {
        b.extend(be32(v));
    }
    b.extend(rsv);
    b.extend(st);
    b.extend(strings);
    b
}

fn reg(addr: u64, size: u32) -> Vec<u8> {
    let mut r = addr.to_be_bytes().to_vec();
    r.extend(be32(size));
    r
}

fn machine() -> DeviceTree {
    let root = N {
        name: "",
        props: vec![("#address-cells", be32(2)), ("#size-cells", be32(1))],
        children: vec![
            N {
                name: "uart@10000000",
                props: vec![("compatible", b"ns16550a\0".to_vec()), ("reg", reg(0x1000_0000, 0x100)), ("clock-frequency", be32(3_686_400))],
                children: vec![],
            },
            N {
                name: "test@100000",
                props: vec![("phandle", be32(4)), ("reg", reg(0x10_0000, 0x1000))],
                children: vec![],
            },
            N {
                name: "poweroff",
                props: vec![("compatible", b"syscon-poweroff\0".to_vec()), ("regmap", be32(4)), ("value", be32(0x5555))],
                children: vec![],
            },
            N {
                name: "reboot",
                props: vec![("compatible", b"syscon-reboot\0".to_vec()), ("regmap", be32(4)), ("value", be32(0x7777))],
                children: vec![],
            },
        ],
    };
    DeviceTree::parse(&blob(root)).unwrap()
}

#[test]
fn uarts_from_the_tree() {
    let t = machine();
    let uarts = UART::new(&t).unwrap();
    assert_eq!(uarts.len(), 1);
    assert_eq!(uarts[0].base_address.0, 0x1000_0000);
    assert_eq!(uarts[0].clock_freq, 3_686_400);
    assert_eq!(uarts[0].operator.base_address.0, 0x1000_0000);
}

#[test]
fn uart_without_clock_is_refused() {
    let root = N {
        name: "",
        props: vec![],
        children: vec![N { name: "uart", props: vec![("compatible", b"ns8250\0".to_vec()), ("reg", reg(0x2000, 8))], children: vec![] }],
    };
    let t = DeviceTree::parse(&blob(root)).unwrap();
    assert!(matches!(UART::new(&t), Err(ErrorNum::EBADDTB)));
}

#[test]
fn syscon_drivers() {
    let t = machine();
    let p = PowerOff::new(&t).unwrap();
    assert_eq!(p.syscon_reg.0, 0x10_0000);
    assert_eq!(p.shutdown_magic, 0x5555);
    assert_eq!(p.shutdown(), (p.syscon_reg, 0x5555));
    let r = Reboot::new(&t).unwrap();
    assert_eq!(r.reboot_magic, 0x7777);
    assert_eq!(r.reboot().0 .0, 0x10_0000);
}

#[test]
fn rtc_search_compares_compatible_lists_with_text() {
    // "compatible" holds a list of texts, which does not compare with one text
    let t = machine();
    assert!(matches!(RTC::new(&t), Err(ErrorNum::EBADTYPE)));
    let plain = DeviceTree::parse(&blob(N { name: "", props: vec![], children: vec![] })).unwrap();
    assert_eq!(RTC::new(&plain).unwrap().len(), 0);
}

fn elf64(flags: u32, vaddr: u64, memsz: u64) -> Vec<u8> {
    let mut b = vec![0x7f, b'E', b'L', b'F', 2, 1, 1, 0];
    b.extend([0u8; 8]);
    b.extend(2u16.to_le_bytes());
    b.extend(0xf3u16.to_le_bytes());
    b.extend(1u32.to_le_bytes());
    b.extend(0x1000u64.to_le_bytes());
    b.extend(64u64.to_le_bytes());
    b.extend(0u64.to_le_bytes());
    b.extend(0u32.to_le_bytes());
    b.extend(64u16.to_le_bytes());
    b.extend(56u16.to_le_bytes());
    b.extend(1u16.to_le_bytes());
    b.extend(64u16.to_le_bytes());
    b.extend(0u16.to_le_bytes());
    b.extend(0u16.to_le_bytes());
    b.extend(1u32.to_le_bytes());
    b.extend(flags.to_le_bytes());
    b.extend(0u64.to_le_bytes());
    b.extend(vaddr.to_le_bytes());
    b.extend(vaddr.to_le_bytes());
    b.extend(120u64.to_le_bytes());
    b.extend(memsz.to_le_bytes());
    b.extend(0x1000u64.to_le_bytes());
    b
}

#[test]
fn elf_load_plan() {
    let (entry, segs) = map_elf(&elf64(5, 0x1000, 0x2000)).unwrap().unwrap();
    assert_eq!(entry.0, 0x1000);
    assert_eq!(segs.len(), 1);
    assert_eq!(segs[0].start_vpn, 1);
    assert_eq!(segs[0].end_vpn, 4);
    assert_eq!(segs[0].flags, 16 | 8 | 2);
    assert_eq!(segs[0].file_offset, 0);
    assert_eq!(segs[0].file_len, 120);
    let (_, w) = map_elf(&elf64(6, 0x3000, 0x10)).unwrap().unwrap();
    assert_eq!(w[0].flags, 16 | 4 | 2);
}

#[test]
fn elf_refusals() {
    assert!(map_elf(&elf64(5, 0x1234, 0x10)).unwrap().is_none());
    assert!(matches!(map_elf(b"not an elf file at all, just some bytes of text......"), Err(ErrorNum::EINVAL)));
    assert!(matches!(map_elf(&[0x7f, b'E']), Err(ErrorNum::EINVAL)));
    // a program header table that does not start on an 8-byte boundary
    let mut odd = elf64(5, 0x1000, 0x2000);
    odd[32] = 65;
    odd.push(0);
    assert!(matches!(map_elf(&odd), Err(ErrorNum::EINVAL)));
}

fn plic_machine() -> DeviceTree {
    let cpu = |name: &'static str| N { name, props: vec![("device_type", b"cpu\0".to_vec())], children: vec![] };
    let root = N {
        name: "",
        props: vec![("#address-cells", be32(2)), ("#size-cells", be32(1))],
        children: vec![
            N { name: "cpus", props: vec![], children: vec![cpu("cpu@0"), cpu("cpu@1")] },
            N {
                name: "plic@c000000",
                props: vec![("compatible", b"riscv,plic0\0".to_vec()), ("reg", reg(0xc00_0000, 0x60_0000)), ("interrupt-controller", vec![])],
                children: vec![],
            },
            N {
                name: "uart@10000000",
                props: vec![("compatible", b"ns16550a\0".to_vec()), ("interrupts", be32(10)), ("reg", reg(0x1000_0000, 0x100))],
                children: vec![],
            },
        ],
    };
    DeviceTree::parse(&blob(root)).unwrap()
}

#[test]
fn plic_setup_from_the_tree() {
    let t = plic_machine();
    let p = PLIC::new(&t).unwrap();
    assert_eq!(p.base_address.0, 0xc00_0000);
    let acc = p.initialize(&t).unwrap();
    let base = 0xc00_0000usize;
    // only nodes with a property named "interrupt" are set up; the usual
    // "interrupts" is not that property, so only the thresholds are written
    assert_eq!(
        acc,
        vec![
            PLICAccess::Write { addr: PhysAddr(base + 0x20_1000), value: 0 },
            PLICAccess::Write { addr: PhysAddr(base + 0x20_3000), value: 0 },
        ]
    );
}

#[test]
fn plic_requests() {
    let t = plic_machine();
    let p = PLIC::new(&t).unwrap();
    let base = 0xc00_0000usize;
    assert_eq!(p.ioctl(1, IOCtlParam::SetIRQPriority(3, 7)), Ok(PLICAccess::Write { addr: PhysAddr(base + 12), value: 7 }));
    assert_eq!(p.ioctl(2, IOCtlParam::SetHartIRQAvailability(1, 4, false)), Ok(PLICAccess::SetBit { addr: PhysAddr(base + 0x2180), bit: 4, on: false }));
    assert_eq!(p.ioctl(3, IOCtlParam::SetHartIntThreshold(2, 5)), Ok(PLICAccess::Write { addr: PhysAddr(base + 0x20_5000), value: 5 }));
    assert_eq!(p.ioctl(4, IOCtlParam::ReadHartIntThreshold(0)), Ok(PLICAccess::Read { addr: PhysAddr(base + 0x20_1000) }));
    // arguments of another request, and an unknown request
    assert_eq!(p.ioctl(1, IOCtlParam::ReadHartIntThreshold(0)), Err(ErrorNum::EINVAL));
    assert_eq!(p.ioctl(9, IOCtlParam::SetIRQPriority(3, 7)), Err(ErrorNum::EINVAL));
    assert_eq!(p.operator.claim_hart_interrupt(1), PLICAccess::Read { addr: PhysAddr(base + 0x20_3004) });
    assert_eq!(p.operator.complete_hart_interrupt(0, 10), PLICAccess::Write { addr: PhysAddr(base + 0x20_1004), value: 10 });
    assert_eq!(PLICOperator::apply_availability(0b1000, 1, true), 0b1010);
    assert_eq!(PLICOperator::apply_availability(0b1010, 3, false), 0b0010);
}

#[test]
fn plic_search_error_is_passed_on() {
    // a "compatible" that is no list of texts stops the search
    let broken = N { name: "", props: vec![], children: vec![N { name: "x", props: vec![("compatible", be32(1))], children: vec![] }] };
    let t = DeviceTree::parse(&blob(broken)).unwrap();
    assert!(PLIC::new(&t).is_err());
}

#[test]
fn dev_folder_lists_known_devices() {
    let t = machine();
    let devs = compatible_devices(&t);
    let names: Vec<&str> = devs.iter().map(|(n, _)| n.as_str()).collect();
    // in the order of the list of known devices: UARTs, power-off, reboot
    assert_eq!(names, vec!["uart@10000000", "poweroff", "reboot"]);
    assert_eq!(t.node(devs[0].1).unit_name, "uart@10000000");
    let folder = DevFolder {
        devices: devs.iter().map(|(n, id)| (n.clone(), *id as u32 + 100)).collect(),
        dot_inode: 1,
        dotdot_inode: 2,
        pts_inode: 3,
    };
    let ents = folder.read_dirent();
    assert_eq!(ents.len(), 6);
    assert_eq!(ents[0].f_name, "uart@10000000");
    assert!(matches!(ents[0].f_type, FileType::CHAR));
    assert_eq!(ents[0].inode, devs[0].1 as u32 + 100);
    assert_eq!(ents[0].permission.bits, 0o644);
    assert_eq!(ents[3].f_name, ".");
    assert_eq!(ents[3].inode, 1);
    assert!(matches!(ents[3].f_type, FileType::LINK));
    assert_eq!(ents[4].f_name, "..");
    assert_eq!(ents[5].f_name, "pts");
    assert_eq!(ents[5].inode, 3);
}

#[test]
fn dev_folder_open_entry() {
    let folder = DevFolder { devices: vec![("uart@10000000".to_string(), 7)], dot_inode: 1, dotdot_inode: 2, pts_inode: 3 };
    assert!(matches!(folder.open_entry("uart@10000000"), Ok(DevEntry::Device(n)) if n == "uart@10000000"));
    assert!(matches!(folder.open_entry("pts"), Ok(DevEntry::Link { link_dest, self_path }) if link_dest == "/dev/uart@10000000" && self_path == "/dev/pts"));
    assert!(matches!(folder.open_entry("."), Ok(DevEntry::Link { link_dest, .. }) if link_dest == "/dev"));
    assert!(matches!(folder.open_entry(".."), Ok(DevEntry::Link { link_dest, self_path }) if link_dest == "/" && self_path == "/dev/.."));
    assert!(matches!(folder.open_entry("rtc"), Err(ErrorNum::ENOENT)));
}

#[test]
fn clint_registers() {
    let c = parch_kernel::device::clint::Clint::new(PhysAddr(0x200_0000));
    assert_eq!(c.get_time(), PhysAddr(0x200_BFF8));
    assert_eq!(c.set_mtimecmp(3, 99), (PhysAddr(0x200_4018), 99));
}

#[test]
fn elf_at_an_odd_address() {
    let mut shifted = vec![0u8];
    shifted.extend(elf64(5, 0x1000, 0x2000));
    let (entry, segs) = map_elf(&shifted[1..]).unwrap().unwrap();
    assert_eq!(entry.0, 0x1000);
    assert_eq!((segs[0].start_vpn, segs[0].end_vpn), (1, 4));
}

#[test]
fn plan_of_given_headers() {
    let load = |flags, vaddr, memsz| ProgramHeaderInfo { is_load: true, flags, offset: 0x40, filesz: 8, vaddr, memsz };
    let note = ProgramHeaderInfo { is_load: false, flags: 0, offset: 0, filesz: 0, vaddr: 0x123, memsz: 1 };
    let h = ElfHeaders { entry: 0x2000, headers: vec![note, load(4, 0x2000, 0x1001), load(7, 0x5000, 0)] };
    let (entry, segs) = plan_from_headers(&h).unwrap();
    assert_eq!(entry.0, 0x2000);
    assert_eq!(segs.len(), 2);
    assert_eq!((segs[0].start_vpn, segs[0].end_vpn, segs[0].flags), (2, 5, 16 | 2));
    assert_eq!((segs[1].start_vpn, segs[1].end_vpn, segs[1].flags), (5, 6, 16 | 8 | 2 | 4));
    assert_eq!(segs[0].file_offset, 0x40);
    let bad = ElfHeaders { entry: 0, headers: vec![load(4, 0x2010, 1)] };
    assert!(plan_from_headers(&bad).is_none());
}
