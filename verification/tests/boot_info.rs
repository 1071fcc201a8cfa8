use kernel::driver::boot_info::{BootInfo, BootScan, CellsUnset};
use kernel::driver::device_tree::DumpLine;

fn memory(r: Result<Option<BootInfo>, CellsUnset>) -> Option<(u64, u64)> {
    match r {
        Ok(Some(BootInfo::Memory(m))) => m,
        _ => panic!("not a memory range"),
    }
}

#[test]
fn boot_info_scan() {
    let mut s = BootScan::new();
    assert!(matches!(s.step(&DumpLine::Open(1, b"")), Ok(None)));
    assert!(matches!(s.step(&DumpLine::Open(2, b"memory@80000000")), Ok(None)));
    // The numbers of cells are not known yet.
    let reg = [0u8, 0, 0, 0, 0x80, 0, 0, 0, 0x08, 0, 0, 0];
    assert!(matches!(s.step(&DumpLine::Bytes(2, b"reg", &reg)), Err(CellsUnset)));
    assert!(matches!(s.step(&DumpLine::Close(2)), Ok(None)));
    assert!(matches!(s.step(&DumpLine::Bytes(1, b"#address-cells", &[0, 0, 0, 2])), Ok(None)));
    assert!(matches!(s.step(&DumpLine::Bytes(1, b"#size-cells", &[0, 0, 0, 1])), Ok(None)));
    match s.step(&DumpLine::Text(1, b"model", b"riscv-virtio,qemu")) {
        Ok(Some(BootInfo::Model(m))) => assert_eq!(m, b"riscv-virtio,qemu"),
        _ => panic!("no model"),
    }
    assert!(matches!(s.step(&DumpLine::Open(2, b"memory@80000000")), Ok(None)));
    assert_eq!(memory(s.step(&DumpLine::Bytes(2, b"reg", &reg))), Some((0x8000_0000, 0x0800_0000)));
    assert_eq!(memory(s.step(&DumpLine::Bytes(2, b"reg", &[1, 2]))), None);
    assert!(matches!(s.step(&DumpLine::Close(2)), Ok(None)));
    // The reserved memory node sets its own size cells; its children's ranges use them.
    assert!(matches!(s.step(&DumpLine::Open(2, b"reserved-memory")), Ok(None)));
    assert!(matches!(s.step(&DumpLine::Bytes(2, b"#size-cells", &[0, 0, 0, 2])), Ok(None)));
    assert!(matches!(s.step(&DumpLine::Open(3, b"mmode_resv0@80000000")), Ok(None)));
    let resv = [0u8, 0, 0, 0, 0x80, 0, 0, 0, 0, 0, 0, 0, 0, 4, 0, 0];
    match s.step(&DumpLine::Bytes(3, b"reg", &resv)) {
        Ok(Some(BootInfo::Reserved(r))) => assert_eq!(r, Some((0x8000_0000, 0x4_0000))),
        _ => panic!("no reserved range"),
    }
    assert!(matches!(s.step(&DumpLine::Close(3)), Ok(None)));
    assert!(matches!(s.step(&DumpLine::Close(2)), Ok(None)));
    assert!(matches!(s.step(&DumpLine::Open(2, b"chosen")), Ok(None)));
    match s.step(&DumpLine::Text(2, b"bootargs", b"console=ttyS0")) {
        Ok(Some(BootInfo::BootArgs(a))) => assert_eq!(a, b"console=ttyS0"),
        _ => panic!("no boot arguments"),
    }
    match s.step(&DumpLine::Text(2, b"stdout-path", b"/soc/uart@10000000")) {
        Ok(Some(BootInfo::StdoutPath(p))) => assert_eq!(p, b"/soc/uart@10000000"),
        _ => panic!("no standard output"),
    }
    assert!(matches!(s.step(&DumpLine::Close(2)), Ok(None)));
    // The same property elsewhere reports nothing.
    assert!(matches!(s.step(&DumpLine::Open(2, b"cpus")), Ok(None)));
    assert!(matches!(s.step(&DumpLine::Text(2, b"bootargs", b"x")), Ok(None)));
}
