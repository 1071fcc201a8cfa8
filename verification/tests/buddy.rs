use kernel::memory::area::Area;
use kernel::memory::buddy::{AllocateError, BuddyAllocator, DeallocateError};

/// Address that should be unused.
const START: u64 = 0x8100_0000;

fn new<const O: usize>(count: usize) -> BuddyAllocator<O> {
    BuddyAllocator::<O>::new(START, count)
}

fn check<const O: usize>(manager: &BuddyAllocator<O>, order: usize, expected: usize) {
    assert_eq!(manager.free_area_count(order), expected, "area count of order {}", order);
}

fn check_bm<const O: usize>(manager: &BuddyAllocator<O>, area: u64, order: usize, expected: bool) {
    assert_eq!(manager.bitmap_get(area, order), expected, "bitmap doesn't match");
}

#[test]
fn create_0() {
    let mm = new::<0>(10);
    // There are no bitmaps, so we can utilize the full range.
    check(&mm, 0, 10);
}

#[test]
fn create_1() {
    let mm = new::<1>(10);
    check(&mm, 0, 1);
    check(&mm, 1, 4);
}

#[test]
fn create_2() {
    let mm = new::<2>(10);
    check(&mm, 0, 1);
    check(&mm, 1, 2);
    check(&mm, 2, 1);
}

#[test]
fn create_3_min() {
    let mm = new::<3>(10);
    check(&mm, 0, 1);
    check(&mm, 1, 2);
    check(&mm, 2, 1);
    check(&mm, 3, 0);
}

#[test]
fn create_3() {
    let mm = new::<3>(16);
    check(&mm, 0, 1);
    check(&mm, 1, 1);
    check(&mm, 2, 1);
    check(&mm, 3, 1);
}

#[test]
fn create_0_alloc_1x0() {
    let mut mm = new::<0>(10);
    let _a = mm.allocate(0).unwrap();
    check(&mm, 0, 9);
}

#[test]
fn create_0_alloc_2x0() {
    let mut mm = new::<0>(10);
    let _a = mm.allocate(0).unwrap();
    let _b = mm.allocate(0).unwrap();
    check(&mm, 0, 8);
}

#[test]
fn create_1_alloc_1x1() {
    let mut mm = new::<1>(10);
    let a = mm.allocate(1).unwrap();
    check(&mm, 0, 1);
    check(&mm, 1, 3);
    check_bm(&mm, a.start(), 0, false);
}

#[test]
fn create_1_alloc_1x0() {
    let mut mm = new::<1>(10);
    let a = mm.allocate(0).unwrap();
    check(&mm, 0, 0);
    check(&mm, 1, 4);
    check_bm(&mm, a.start(), 0, false);
}

#[test]
fn create_1_alloc_1x0_1x1() {
    let mut mm = new::<1>(10);
    let a = mm.allocate(0).unwrap();
    let _b = mm.allocate(1).unwrap();
    check(&mm, 0, 0);
    check(&mm, 1, 3);
    check_bm(&mm, a.start(), 0, false);
}

#[test]
fn create_1_alloc_1x1_1x0() {
    let mut mm = new::<1>(10);
    let _a = mm.allocate(1).unwrap();
    let b = mm.allocate(0).unwrap();
    check(&mm, 0, 0);
    check(&mm, 1, 3);
    check_bm(&mm, b.start(), 0, false);
}

#[test]
fn create_2_alloc_1x0_1x1_1x0_1x2() {
    let mut mm = new::<2>(10);
    let a = mm.allocate(0).unwrap();
    check_bm(&mm, a.start(), 0, false);
    check_bm(&mm, a.start(), 1, true);
    let b = mm.allocate(1).unwrap();
    check_bm(&mm, a.start(), 0, false);
    check_bm(&mm, b.start(), 0, false);
    let c = mm.allocate(0).unwrap();
    check_bm(&mm, a.start(), 0, false);
    check_bm(&mm, a.start(), 1, false);
    check_bm(&mm, b.start(), 0, false);
    check_bm(&mm, c.start(), 0, true);
    let d = mm.allocate(2).unwrap();
    check(&mm, 0, 1);
    check(&mm, 1, 0);
    check(&mm, 2, 0);
    check_bm(&mm, a.start(), 0, false);
    check_bm(&mm, a.start(), 1, false);
    check_bm(&mm, b.start(), 0, false);
    check_bm(&mm, c.start(), 0, true);
    check_bm(&mm, d.start(), 1, false);
    check_bm(&mm, d.start(), 0, false);
}

#[test]
fn create_0_alloc_1x0_dealloc_1x0() {
    let mut mm = new::<0>(10);
    let a = mm.allocate(0).unwrap();
    mm.deallocate(a).unwrap();
    check(&mm, 0, 10);
}

#[test]
fn create_0_alloc_2x0_dealloc_2x0() {
    let mut mm = new::<0>(10);
    let a = mm.allocate(0).unwrap();
    let b = mm.allocate(0).unwrap();
    mm.deallocate(a).unwrap();
    mm.deallocate(b).unwrap();
    check(&mm, 0, 10);
}

#[test]
fn create_1_alloc_1x1_dealloc_1x1() {
    let mut mm = new::<1>(10);
    let a = mm.allocate(1).unwrap();
    mm.deallocate(a).unwrap();
    check(&mm, 0, 1);
    check(&mm, 1, 4);
    check_bm(&mm, a.start(), 0, false);
}

#[test]
fn create_1_alloc_1x1_dealloc_2x0() {
    let mut mm = new::<1>(10);
    let a2 = mm.allocate(1).unwrap();
    let (a, b) = a2.split().unwrap();
    mm.deallocate(a).unwrap();
    mm.deallocate(b).unwrap();
    check(&mm, 0, 1);
    check(&mm, 1, 4);
    check_bm(&mm, a.start(), 0, false);
    check_bm(&mm, b.start(), 0, false);
}

#[test]
fn create_3_alloc_1x3_dealloc_2x1_1x1_2x0() {
    let mut mm = new::<3>(16);
    let _ = mm.allocate(0);
    let _ = mm.allocate(1);
    let _ = mm.allocate(2);
    let a4 = mm.allocate(3).unwrap();
    let (a2, b2) = a4.split().unwrap();
    let (a, b) = a2.split().unwrap();
    let (c, d) = b2.split().unwrap();
    mm.deallocate(b).unwrap();
    mm.deallocate(c).unwrap();
    check(&mm, 0, 0);
    check(&mm, 1, 2);
    check(&mm, 2, 0);
    check(&mm, 3, 0);
    check_bm(&mm, a.start(), 1, true);
    check_bm(&mm, b.start(), 1, true);
    check_bm(&mm, c.start(), 1, true);
    check_bm(&mm, d.start(), 1, true);
    mm.deallocate(a).unwrap();
    check(&mm, 0, 0);
    check(&mm, 1, 1);
    check(&mm, 2, 1);
    check(&mm, 3, 0);
    check_bm(&mm, a.start(), 1, false);
    check_bm(&mm, b.start(), 1, false);
    check_bm(&mm, c.start(), 1, true);
    check_bm(&mm, d.start(), 1, true);
    let (e, f) = d.split().unwrap();
    mm.deallocate(e).unwrap();
    mm.deallocate(f).unwrap();
    check(&mm, 0, 0);
    check(&mm, 1, 0);
    check(&mm, 2, 0);
    check(&mm, 3, 1);
    check_bm(&mm, a.start(), 1, false);
    check_bm(&mm, b.start(), 1, false);
    check_bm(&mm, c.start(), 1, false);
    check_bm(&mm, d.start(), 1, false);
}

#[test]
fn err_alloc_empty() {
    let mut mm = new::<0>(2);
    let _ = mm.allocate(0).unwrap();
    let _ = mm.allocate(0).unwrap();
    assert_eq!(mm.allocate(0).unwrap_err(), AllocateError::Empty);
}

#[test]
fn err_alloc_order_too_large() {
    let mut mm = new::<1>(10);
    assert_eq!(mm.allocate(2).unwrap_err(), AllocateError::OrderTooLarge);
}

#[test]
fn err_dealloc_order_of_bounds() {
    let mut mm = new::<0>(4);
    let a = mm.allocate(0).unwrap().start();
    let e = mm.deallocate(Area::new(a - 4096, 0).unwrap());
    assert_eq!(e.unwrap_err(), DeallocateError::OutOfBounds);
    let e = mm.deallocate(Area::new(a + 4 * 4096, 0).unwrap());
    assert_eq!(e.unwrap_err(), DeallocateError::OutOfBounds);
}

#[test]
fn err_dealloc_order_too_large() {
    let mut mm = new::<1>(10);
    let _ = mm.allocate(1).unwrap();
    // An area of order 2, beyond the largest order of this allocator. It starts at START
    // rather than at the area just handed out: `Area` keeps every area aligned to its size,
    // and the order-1 area handed out is not aligned to an order-2 area.
    let a = Area::new_unchecked(START, 2);
    assert_eq!(mm.deallocate(a), Err(DeallocateError::OrderTooLarge));
}

#[test]
fn free_pages_restored_after_round_trip() {
    let mut mm = new::<2>(16);
    let before: Vec<usize> = (0..3).map(|o| mm.free_area_count(o)).collect();
    let a = mm.allocate(1).unwrap();
    assert_eq!(a.order(), 1);
    assert_eq!(a.start() % (4096 * 2), 0);
    mm.deallocate(a).unwrap();
    let after: Vec<usize> = (0..3).map(|o| mm.free_area_count(o)).collect();
    let pages = |v: &Vec<usize>| v[0] + 2 * v[1] + 4 * v[2];
    assert_eq!(pages(&before), pages(&after));
}

#[test]
fn handed_out_areas_lie_in_the_zone_and_do_not_overlap() {
    let mut mm = new::<2>(10);
    let mut got: Vec<(u64, u64)> = Vec::new();
    while let Ok(a) = mm.allocate(0) {
        let s = a.start();
        assert!(s >= START && s + 4096 <= START + 10 * 4096);
        for &(t, e) in &got {
            assert!(s + 4096 <= t || e <= s);
        }
        got.push((s, s + 4096));
    }
    // Every free page was handed out exactly once.
    assert_eq!(got.len(), 9);
}
