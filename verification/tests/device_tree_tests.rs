use parch_kernel::device::device_tree::DeviceTree;
use parch_kernel::device::dtb_value::DTBPropertyValue;
use parch_kernel::error::ErrorNum;

fn be32(v: u32) -> Vec<u8> {
    v.to_be_bytes().to_vec()
}

fn name(s: &str) -> Vec<u8> {
    let mut b = s.as_bytes().to_vec();
    b.push(0);
    while b.len() % 4 != 0 {
        b.push(0);
    }
    b
}

fn prop(nameoff: u32, value: &[u8]) -> Vec<u8> {
    let mut b = be32(3);
    b.extend(be32(value.len() as u32));
    b.extend(be32(nameoff));
    b.extend(value);
    while b.len() % 4 != 0 {
        b.push(0);
    }
    b
}

/// A blob with one reserved region, a root that sets two address cells and
/// one size cell, and a UART below it.
fn blob() -> Vec<u8> {
    let strings = b"#address-cells\0#size-cells\0compatible\0reg\0".to_vec();
    let mut st = Vec::new();
    st.extend(be32(1));
    st.extend(name(""));
    st.extend(prop(0, &be32(2)));
    st.extend(prop(15, &be32(1)));
    st.extend(be32(1));
    st.extend(name("uart@10000000"));
    st.extend(prop(27, b"ns16550a\0"));
    let mut reg = 0x1000_0000u64.to_be_bytes().to_vec();
    reg.extend(be32(0x100));
    st.extend(prop(38, &reg));
    st.extend(be32(2));
    st.extend(be32(2));
    st.extend(be32(9));
    let rsv_off = 40u32;
    let mut rsv = 0x8000_0000u64.to_be_bytes().to_vec();
    rsv.extend(0x1000u64.to_be_bytes());
    rsv.extend([0u8; 16]);
    let struct_off = rsv_off + rsv.len() as u32;
    let strings_off = struct_off + st.len() as u32;
    let total = strings_off + strings.len() as u32;
    let mut b = Vec::new();
    b.extend(be32(0xd00d_feed));
    b.extend(be32(total));
    b.extend(be32(struct_off));
    b.extend(be32(strings_off));
    b.extend(be32(rsv_off));
    b.extend(be32(17));
    b.extend(be32(16));
    b.extend(be32(0));
    b.extend(be32(strings.len() as u32));
    b.extend(be32(st.len() as u32));
    b.extend(rsv);
    b.extend(st);
    b.extend(strings);
    b
}

#[test]
fn parse_reads_nodes_and_reserved_memory() {
    let t = DeviceTree::parse(&blob()).unwrap();
    assert_eq!(t.reserved_mem().len(), 1);
    assert_eq!(t.reserved_mem()[0].start.0, 0x8000_0000);
    assert_eq!(t.reserved_mem()[0].length, 0x1000);
    assert_eq!(t.nodes().len(), 1);
    assert_eq!(t.node_count(), 2);
    let root = t.node(t.nodes()[0]);
    assert_eq!(root.unit_name, "");
    assert_eq!(root.children.len(), 1);
    let uart = t.node(root.children[0]);
    assert_eq!(uart.unit_name, "uart@10000000");
    assert_eq!(uart.parent, Some(t.nodes()[0]));
}

#[test]
fn search_and_values() {
    let t = DeviceTree::parse(&blob()).unwrap();
    let found = t.serach_compatible("ns16550a").unwrap();
    assert_eq!(found.len(), 1);
    let uart = t.node(found[0]);
    assert!(uart.is_compatible("ns16550a"));
    assert!(!uart.is_compatible("ns8250"));
    assert!(t.serach_compatible("ns8250").unwrap().is_empty());
    let regs = uart.reg_value(&t).unwrap();
    assert_eq!(regs.len(), 1);
    assert_eq!(regs[0].address, 0x1000_0000);
    assert_eq!(regs[0].size, 0x100);
    let root = t.node(t.nodes()[0]);
    assert!(matches!(root.get_value("#address-cells"), Ok(DTBPropertyValue::UInt32(2))));
    assert!(matches!(root.get_value("missing"), Err(ErrorNum::EBADDTB)));
    assert_eq!(t.contains_field("reg").unwrap().len(), 1);
}

#[test]
fn parse_refuses_bad_blobs() {
    let mut b = blob();
    b[0] = 0;
    assert!(matches!(DeviceTree::parse(&b), Err(ErrorNum::EBADDTB)));
    assert!(matches!(DeviceTree::parse(&[0xd0, 0x0d]), Err(ErrorNum::EBADDTB)));
}

#[test]
fn property_values_by_name() {
    let v = DTBPropertyValue::from_bytes("compatible".to_string(), b"a\0b\0".to_vec()).unwrap();
    assert_eq!(v.contains("b"), Ok(true));
    assert_eq!(v.contains("c"), Ok(false));
    let n = DTBPropertyValue::from_bytes("phandle".to_string(), vec![0, 0, 1, 2]).unwrap();
    assert_eq!(n.get_u32(), Ok(0x102));
    assert!(matches!(n.get_u64(), Err(ErrorNum::EBADTYPE)));
    let f = DTBPropertyValue::from_bytes("clock-frequency".to_string(), vec![0, 0, 0, 0, 0, 0, 0, 9]).unwrap();
    assert_eq!(f.get_u64(), Ok(9));
    assert!(DTBPropertyValue::from_bytes("clock-frequency".to_string(), vec![1, 2, 3]).is_err());
}

#[test]
fn search_single_agrees_with_search_under_one_root() {
    let t = DeviceTree::parse(&blob()).unwrap();
    let compat = DTBPropertyValue::CStrList(vec!["ns16550a".to_string()]);
    let found = t.search("compatible", compat.clone()).unwrap();
    assert_eq!(found.len(), 1);
    assert_eq!(t.search_single("compatible", compat), Ok(found[0]));
    let none = DTBPropertyValue::CStrList(vec!["ns8250".to_string()]);
    assert!(t.search("compatible", none.clone()).unwrap().is_empty());
    assert_eq!(t.search_single("compatible", none), Err(ErrorNum::ENXIO));
    assert_eq!(t.hart_count(), t.search("device_type", DTBPropertyValue::CStr("cpu".to_string())).unwrap().len());
}
