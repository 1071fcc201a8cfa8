use kernel::driver::device_tree::{
    decode_reg, decode_u32, is_printable_string, DeviceTree, DumpLine, InterpreterState, NodeState, ParseDTBError, MAGIC,
};

fn word(v: &mut Vec<u8>, x: u32) {
    v.extend_from_slice(&x.to_be_bytes());
}

fn name(v: &mut Vec<u8>, n: &str) {
    v.extend_from_slice(n.as_bytes());
    v.push(0);
    while v.len() % 4 != 0 {
        v.push(0);
    }
}

/// A blob holding a root node with one property and the children `cpus` (with one property)
/// and `mem`, one reserved region, and `extra` spliced in before the final `TOKEN_END`.
fn blob(extra: &[u32]) -> Vec<u8> {
    let mut s = vec![];
    word(&mut s, 1);
    name(&mut s, "");
    word(&mut s, 3);
    word(&mut s, 4);
    word(&mut s, 0);
    word(&mut s, 2);
    word(&mut s, 4);
    word(&mut s, 1);
    name(&mut s, "cpus");
    word(&mut s, 3);
    word(&mut s, 6);
    word(&mut s, 15);
    name(&mut s, "hello");
    word(&mut s, 2);
    word(&mut s, 1);
    name(&mut s, "mem");
    word(&mut s, 2);
    word(&mut s, 2);
    for &t in extra {
        word(&mut s, t);
    }
    word(&mut s, 9);
    let strings = b"#address-cells\0model\0";
    let mut b = vec![];
    let rsv = 40;
    let st = rsv + 32;
    let strs = st + s.len();
    for x in [MAGIC, (strs + strings.len()) as u32, st as u32, strs as u32, rsv as u32, 17, 16, 3, strings.len() as u32, s.len() as u32] {
        word(&mut b, x);
    }
    b.extend_from_slice(&0x8000_0000u64.to_be_bytes());
    b.extend_from_slice(&0x2000u64.to_be_bytes());
    b.extend_from_slice(&[0; 16]);
    b.extend_from_slice(&s);
    b.extend_from_slice(strings);
    b
}

#[test]
fn header_fields() {
    let b = blob(&[]);
    let dt = DeviceTree::parse_dtb(&b).unwrap();
    assert_eq!(dt.boot_cpu_id(), 3);
    let regions = dt.reserved_memory_regions();
    assert_eq!(regions.len(), 1);
    assert_eq!(regions[0].address.get(), 0x8000_0000);
    assert_eq!(regions[0].size.get(), 0x2000);
}

#[test]
fn bad_magic() {
    let mut b = blob(&[]);
    b[0] = 0;
    assert_eq!(DeviceTree::parse_dtb(&b).err(), Some(ParseDTBError::BadMagic(0x000d_feed)));
}

#[test]
fn walk_the_tree() {
    let b = blob(&[]);
    let dt = DeviceTree::parse_dtb(&b).unwrap();
    let mut it = dt.interpreter();
    assert_eq!(it.state(), InterpreterState::NotStarted);
    let mut root = it.next_node().unwrap();
    assert_eq!(root.name, b"");
    assert_eq!(root.state(), NodeState::Properties);
    let p = root.next_property(&mut it).unwrap();
    assert_eq!(p.name, b"#address-cells");
    assert_eq!(p.value, [0, 0, 0, 2]);
    assert!(!is_printable_string(p.value));
    assert!(root.next_property(&mut it).is_none());
    assert_eq!(root.state(), NodeState::ChildNodes);
    let mut cpus = root.next_child_node(&mut it).unwrap();
    assert_eq!(cpus.name, b"cpus");
    let p = cpus.next_property(&mut it).unwrap();
    assert_eq!(p.name, b"model");
    assert_eq!(p.value, b"hello\0");
    assert!(is_printable_string(p.value));
    assert!(cpus.next_property(&mut it).is_none());
    assert!(cpus.next_child_node(&mut it).is_none());
    assert_eq!(cpus.state(), NodeState::Empty);
    let mem = root.next_child_node(&mut it).unwrap();
    assert_eq!(mem.name, b"mem");
    mem.finish(&mut it);
    assert!(root.next_child_node(&mut it).is_none());
    assert_eq!(root.state(), NodeState::Empty);
    assert!(it.next_node().is_none());
    assert_eq!(it.state(), InterpreterState::Ended);
}

#[test]
fn finish_skips_a_whole_subtree() {
    let b = blob(&[]);
    let dt = DeviceTree::parse_dtb(&b).unwrap();
    let mut it = dt.interpreter();
    let root = it.next_node().unwrap();
    root.finish(&mut it);
    assert!(it.next_node().is_none());
    assert_eq!(it.state(), InterpreterState::Ended);
}

#[test]
fn nops_are_skipped_and_bad_tokens_stop_the_walk() {
    // The walk of the dump skips the NOPs after the root node and stops at the bad token.
    let b = blob(&[4, 4, 7]);
    let dt = DeviceTree::parse_dtb(&b).unwrap();
    let plain = blob(&[]);
    let plain_dt = DeviceTree::parse_dtb(&plain).unwrap();
    assert_eq!(render(&dt.dump()), render(&plain_dt.dump()));
}

#[test]
fn printable_strings() {
    assert!(is_printable_string(b"a b~\0"));
    assert!(!is_printable_string(b""));
    assert!(!is_printable_string(b"abc"));
    assert!(!is_printable_string(b"a\nb\0"));
    assert!(is_printable_string(b"\0"));
}

fn render(lines: &[DumpLine]) -> Vec<String> {
    lines
        .iter()
        .map(|l| match *l {
            DumpLine::Open(d, n) => format!("{} open {}", d, String::from_utf8_lossy(n)),
            DumpLine::Text(d, n, v) => format!("{} text {}={}", d, String::from_utf8_lossy(n), String::from_utf8_lossy(v)),
            DumpLine::Bytes(d, n, v) => format!("{} bytes {}={:?}", d, String::from_utf8_lossy(n), v),
            DumpLine::Close(d) => format!("{} close", d),
        })
        .collect()
}

#[test]
fn dump_lists_every_node() {
    let b = blob(&[]);
    let dt = DeviceTree::parse_dtb(&b).unwrap();
    let lines = render(&dt.dump());
    assert_eq!(
        lines,
        vec![
            "1 open ",
            "1 bytes #address-cells=[0, 0, 0, 2]",
            "2 open cpus",
            "2 text model=hello",
            "2 close",
            "2 open mem",
            "2 close",
            "1 close",
        ]
    );
}

#[test]
fn reg_values_decode() {
    let v = [0, 0, 0, 0, 0x80, 0, 0, 0, 0, 0, 0, 0, 0x08, 0, 0, 0];
    assert_eq!(decode_reg(&v, 2, 2), Some((0x8000_0000, 0x0800_0000)));
    assert_eq!(decode_reg(&v[..8], 1, 1), Some((0, 0x8000_0000)));
    assert_eq!(decode_reg(&v[..4], 1, 0), Some((0, 0)));
    // The size must fill the rest exactly, and more than two cells are not supported.
    assert_eq!(decode_reg(&v[..12], 2, 2), None);
    assert_eq!(decode_reg(&v, 3, 1), None);
    assert_eq!(decode_reg(&v[..2], 1, 0), None);
    assert_eq!(decode_u32(&[0, 0, 0, 2]), Some(2));
    assert_eq!(decode_u32(&[0, 2]), None);
}
