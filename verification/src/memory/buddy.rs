//! # Buddy allocator
//!
//! This module keeps track of free pages in a given range of memory.
//!
//! The "Binary Buddy Algorithm" is used as it's very simple yet efficient.
//!
//! Every order `o` (from 0 up to and including the maximum order `O`) has a free list of areas of
//! `1 << o` pages and, for `o < O`, a bitmap with one bit per pair of buddies:
//!
//! * 0 means either both are free or both are in use.
//! * 1 means one of both is in use and the other is free.
//!
//! A free list is kept as a vector of area addresses whose *last* element is the head of the
//! list, i.e. the next area to be handed out.

use super::area::{
    area_bytes, lemma_aligned_lower, lemma_area_bytes, lemma_area_fits, lemma_mod_add_sub, Area,
};
use vstd::arithmetic::power2::pow2;
use vstd::prelude::*;

verus! {

/// Enum representing errors that can occur when trying to allocate an area.
#[derive(Clone, Copy, Debug, PartialEq, Eq)]
pub enum AllocateError {
    /// There are no more areas of the requested size left to hand out.
    Empty,
    /// The requested order is larger than the maximum order.
    OrderTooLarge,
}

/// Enum representing errors that can occur when trying to deallocate an area.
#[derive(Clone, Copy, Debug, PartialEq, Eq)]
pub enum DeallocateError {
    /// The area is not in the range handled by the manager.
    OutOfBounds,
    /// The tracker tag doesn't match.
    TrackerMismatch,
    /// The passed order is larger than the maximum order.
    OrderTooLarge,
}

/// A buddy allocator handing out areas of up to `1 << O` pages.
pub struct BuddyAllocator<const O: usize> {
    /// The free lists, one per order from 0 to `O` inclusive. The last element is the head.
    free_areas: Vec<Vec<u64>>,
    /// The buddy bitmaps, one per order. The bitmap of order `O` is always empty as areas of
    /// that order have no buddies.
    buddies_state: Vec<Vec<u64>>,
    /// The start of the managed zone (after the pages holding the bitmaps).
    start: u64,
    /// The end of the managed zone (exclusive).
    end: u64,
}

/// The contents of a vector of vectors.
pub open spec fn lists_view(v: Seq<Vec<u64>>) -> Seq<Seq<u64>> {
    Seq::new(v.len(), |i: int| v[i]@)
}

/// The bit number, counted over the whole bitmap of `order`, that tracks the pair of buddies
/// `area` belongs to. The start of the zone is masked as `area & (mask - start) & mask`.
pub open spec fn bit_offset(start: u64, area: u64, order: nat) -> u64 {
    let mask = !(((4096u64 << (order as u64)) - 1) as u64);
    let off = area & vstd::wrapping::u64_specs::wrapping_sub(mask, start) & mask;
    ((off / 4096) as u64) >> ((order + 1) as u64)
}

/// The index of the bitmap word holding the bit of `area`.
pub open spec fn bit_word(start: u64, area: u64, order: nat) -> u64 {
    (bit_offset(start, area, order) / 64) as u64
}

/// The mask selecting the bit of `area` in its bitmap word.
pub open spec fn bit_mask(start: u64, area: u64, order: nat) -> u64 {
    1u64 << (bit_offset(start, area, order) & 63)
}

/// The bitmap after toggling the bit of `area`. Bits outside the bitmap are left alone.
pub open spec fn toggled(words: Seq<u64>, start: u64, area: u64, order: nat) -> Seq<u64> {
    let i = bit_word(start, area, order);
    if i < words.len() {
        words.update(i as int, words[i as int] ^ bit_mask(start, area, order))
    } else {
        words
    }
}

/// Whether the bit of `area` is set after toggling it. A bit outside the bitmap counts as set,
/// i.e. as having a buddy that is in use.
pub open spec fn toggle_result(words: Seq<u64>, start: u64, area: u64, order: nat) -> bool {
    let i = bit_word(start, area, order);
    if i < words.len() {
        (words[i as int] ^ bit_mask(start, area, order)) & bit_mask(start, area, order) != 0
    } else {
        true
    }
}

/// The lowest order from `order` up to `max` with a non-empty free list, or `max + 1`.
pub open spec fn first_free_order(free: Seq<Seq<u64>>, order: int, max: int) -> int
    decreases max + 1 - order,
{
    if order > max {
        max + 1
    } else if free[order].len() > 0 {
        order
    } else {
        first_free_order(free, order + 1, max)
    }
}

/// When an area of order `o` starting at `head` is split down, the address of the left half
/// that is put on the free list of order `k`.
pub open spec fn split_addr(head: u64, o: nat, k: nat) -> int {
    head + area_bytes(o) - area_bytes(k + 1)
}

/// The free lists after taking `head` from order `o` and splitting it down to `order`.
pub open spec fn alloc_free(free: Seq<Seq<u64>>, order: nat, o: nat, head: u64) -> Seq<
    Seq<u64>,
> {
    Seq::new(
        free.len(),
        |j: int|
            if j == o {
                free[j].drop_last()
            } else if order <= j < o {
                free[j].push(split_addr(head, o, j as nat) as u64)
            } else {
                free[j]
            },
    )
}

/// The bitmaps after taking `head` from order `o` and splitting it down to `order`.
pub open spec fn alloc_bitmaps(
    bitmaps: Seq<Seq<u64>>,
    start: u64,
    order: nat,
    o: nat,
    head: u64,
    max: nat,
) -> Seq<Seq<u64>> {
    Seq::new(
        bitmaps.len(),
        |j: int|
            if order <= j < o {
                toggled(bitmaps[j], start, split_addr(head, o, j as nat) as u64, j as nat)
            } else if j == o && order < max {
                toggled(bitmaps[j], start, head, j as nat)
            } else {
                bitmaps[j]
            },
    )
}

/// The amount of pages in the free lists of orders below `n`.
pub open spec fn pages_in(free: Seq<Seq<u64>>, n: nat) -> nat
    decreases n,
{
    if n == 0 {
        0
    } else {
        pages_in(free, (n - 1) as nat) + free[n - 1].len() * pow2((n - 1) as nat)
    }
}

/// Replacing the free list of order `k` changes the page count by the difference in length.
pub proof fn lemma_pages_in_update(free: Seq<Seq<u64>>, k: int, list: Seq<u64>, n: nat)
    requires
        0 <= k < free.len(),
        n <= free.len(),
    ensures
        k < n ==> pages_in(free.update(k, list), n) + free[k].len() * pow2(k as nat) == pages_in(
            free,
            n,
        ) + list.len() * pow2(k as nat),
        k >= n ==> pages_in(free.update(k, list), n) == pages_in(free, n),
    decreases n,
{
    if n > 0 {
        lemma_pages_in_update(free, k, list, (n - 1) as nat);
    }
}

/// Pushing an area onto the free list of order `k` adds `1 << k` pages.
pub proof fn lemma_pages_in_push(free: Seq<Seq<u64>>, k: int, x: u64, n: nat)
    requires
        0 <= k < n <= free.len(),
    ensures
        pages_in(free.update(k, free[k].push(x)), n) == pages_in(free, n) + pow2(k as nat),
{
    lemma_pages_in_update(free, k, free[k].push(x), n);
    vstd::arithmetic::mul::lemma_mul_is_distributive_add_other_way(
        pow2(k as nat) as int,
        free[k].len() as int,
        1,
    );
}

/// Taking the head of the free list of order `k` removes `1 << k` pages.
pub proof fn lemma_pages_in_pop(free: Seq<Seq<u64>>, k: int, n: nat)
    requires
        0 <= k < n <= free.len(),
        free[k].len() > 0,
    ensures
        pages_in(free.update(k, free[k].drop_last()), n) + pow2(k as nat) == pages_in(free, n),
{
    lemma_pages_in_update(free, k, free[k].drop_last(), n);
    vstd::arithmetic::mul::lemma_mul_is_distributive_add_other_way(
        pow2(k as nat) as int,
        free[k].len() - 1,
        1,
    );
}

/// Removing the element at index `i` of the free list of order `k` removes `1 << k` pages.
pub proof fn lemma_pages_in_remove(free: Seq<Seq<u64>>, k: int, i: int, n: nat)
    requires
        0 <= k < n <= free.len(),
        0 <= i < free[k].len(),
    ensures
        pages_in(free.update(k, free[k].remove(i)), n) + pow2(k as nat) == pages_in(free, n),
{
    lemma_pages_in_update(free, k, free[k].remove(i), n);
    vstd::arithmetic::mul::lemma_mul_is_distributive_add_other_way(
        pow2(k as nat) as int,
        free[k].len() - 1,
        1,
    );
}

/// Whether the area of order `oa` at `a` and the area of order `ob` at `b` do not overlap.
pub open spec fn apart(a: int, oa: nat, b: int, ob: nat) -> bool {
    a + area_bytes(oa) <= b || b + area_bytes(ob) <= a
}

/// Every free area lies in `[lo, hi)` and no two free areas overlap.
pub open spec fn areas_sound(free: Seq<Seq<u64>>, lo: int, hi: int) -> bool {
    &&& forall|o: int, i: int|
        0 <= o < free.len() && 0 <= i < free[o].len() ==> lo <= #[trigger] free[o][i] && free[o][i]
            + area_bytes(o as nat) <= hi
    &&& forall|o1: int, i1: int, o2: int, i2: int|
        0 <= o1 < free.len() && 0 <= i1 < free[o1].len() && 0 <= o2 < free.len() && 0 <= i2 < free[o2].len()
            && (o1 != o2 || i1 != i2) ==> apart(
            #[trigger] free[o1][i1] as int,
            o1 as nat,
            #[trigger] free[o2][i2] as int,
            o2 as nat,
        )
}

/// The area of order `oa` at `a` overlaps no free area.
pub open spec fn apart_from_all(free: Seq<Seq<u64>>, a: int, oa: nat) -> bool {
    forall|o: int, i: int|
        0 <= o < free.len() && 0 <= i < free[o].len() ==> apart(#[trigger] free[o][i] as int, o as nat, a, oa)
}

/// Area sizes double from one order to the next and grow with the order.
proof fn lemma_sizes(a: nat, b: nat)
    requires
        a <= b < 52,
    ensures
        area_bytes(a) <= area_bytes(b),
        4096 <= area_bytes(a),
        a < b ==> 2 * area_bytes(a) <= area_bytes(b),
        area_bytes(a + 1) == 2 * area_bytes(a),
{
    lemma_area_bytes(a);
    lemma_area_bytes(b);
    if a < b {
        vstd::arithmetic::power2::lemma_pow2_strictly_increases(a + 12, b + 12);
        lemma_area_bytes((b - 1) as nat);
        if a < b - 1 {
            vstd::arithmetic::power2::lemma_pow2_strictly_increases(a + 12, (b - 1) as nat + 12);
        }
    }
}

/// Adding an area that overlaps no free area and lies in range keeps the free areas sound.
proof fn lemma_insert(free: Seq<Seq<u64>>, lo: int, hi: int, o: int, a: u64, list: Seq<u64>)
    requires
        areas_sound(free, lo, hi),
        0 <= o < free.len(),
        lo <= a,
        a + area_bytes(o as nat) <= hi,
        apart_from_all(free, a as int, o as nat),
        list == free[o].push(a) || list == seq![a] + free[o],
    ensures
        areas_sound(free.update(o, list), lo, hi),
{
    let f2 = free.update(o, list);
    let front = list != free[o].push(a);
    // Where an entry of the new lists came from: the new area, or an old entry.
    assert forall|p: int, i: int| 0 <= p < f2.len() && 0 <= i < f2[p].len() implies {
        ||| (p == o && #[trigger] f2[p][i] == a && (if front { i == 0 } else { i == free[o].len() }))
        ||| (p != o && f2[p][i] == free[p][i])
        ||| (p == o && !front && i < free[o].len() && f2[p][i] == free[p][i])
        ||| (p == o && front && i > 0 && f2[p][i] == free[p][i - 1])
    } by {}
    assert forall|p: int, i: int| 0 <= p < f2.len() && 0 <= i < f2[p].len() implies lo <= #[trigger] f2[p][i]
        && f2[p][i] + area_bytes(p as nat) <= hi by {
        if p != o {
        } else if !front && i < free[o].len() {
        } else if front && i > 0 {
            assert(f2[p][i] == free[p][i - 1]);
        }
    }
    assert forall|o1: int, i1: int, o2: int, i2: int|
        0 <= o1 < f2.len() && 0 <= i1 < f2[o1].len() && 0 <= o2 < f2.len() && 0 <= i2 < f2[o2].len() && (o1
            != o2 || i1 != i2) implies apart(
        #[trigger] f2[o1][i1] as int,
        o1 as nat,
        #[trigger] f2[o2][i2] as int,
        o2 as nat,
    ) by {
        let new1 = o1 == o && (if front { i1 == 0 } else { i1 == free[o].len() });
        let new2 = o2 == o && (if front { i2 == 0 } else { i2 == free[o].len() });
        let j1 = if o1 == o && front { i1 - 1 } else { i1 };
        let j2 = if o2 == o && front { i2 - 1 } else { i2 };
        if new1 {
            if !new2 {
                assert(f2[o2][i2] == free[o2][j2]);
                assert(apart(free[o2][j2] as int, o2 as nat, a as int, o as nat));
            }
        } else if new2 {
            assert(f2[o1][i1] == free[o1][j1]);
            assert(apart(free[o1][j1] as int, o1 as nat, a as int, o as nat));
        } else {
            assert(f2[o1][i1] == free[o1][j1]);
            assert(f2[o2][i2] == free[o2][j2]);
            assert(apart(free[o1][j1] as int, o1 as nat, free[o2][j2] as int, o2 as nat));
        }
    }
}

/// Free areas sound below `hi` are sound below any larger bound.
proof fn lemma_sound_grow(free: Seq<Seq<u64>>, lo: int, hi: int, hi2: int)
    requires
        areas_sound(free, lo, hi),
        hi <= hi2,
    ensures
        areas_sound(free, lo, hi2),
{
}

/// An area placed at the end of the others overlaps none of them.
proof fn lemma_place(free: Seq<Seq<u64>>, lo: int, e: u64, o: int, list: Seq<u64>)
    requires
        areas_sound(free, lo, e as int),
        0 <= o < free.len(),
        o < 52,
        lo <= e,
        list == free[o].push(e) || list == seq![e] + free[o],
    ensures
        areas_sound(free.update(o, list), lo, e + area_bytes(o as nat)),
{
    lemma_sizes(o as nat, o as nat);
    lemma_sound_grow(free, lo, e as int, e + area_bytes(o as nat));
    assert forall|p: int, i: int| 0 <= p < free.len() && 0 <= i < free[p].len() implies apart(
        #[trigger] free[p][i] as int,
        p as nat,
        e as int,
        o as nat,
    ) by {}
    lemma_insert(free, lo, e + area_bytes(o as nat), o, e, list);
}

/// The areas that `align_areas` lays out lie one after the other from `end`.
proof fn lemma_align_sound(fl: Seq<Seq<u64>>, bm: Seq<Seq<u64>>, end: u64, count: nat, i: nat, max: nat, lo: int)
    requires
        areas_sound(fl, lo, end as int),
        lo <= end,
        fl.len() == max + 1,
        max < 52,
        end + count * 4096 <= u64::MAX,
    ensures
        ({
            let r = align_areas(fl, bm, end, count, i, max);
            &&& areas_sound(r.0, lo, r.2 as int)
            &&& r.0.len() == fl.len()
            &&& lo <= r.2
            &&& r.2 + r.3 * 4096 == end + count * 4096
        }),
    decreases max - i,
{
    if i >= max || pow2(i) > count {
    } else {
        let bm2 = bm.update(i as int, bm[i as int].update(0, 1));
        lemma_area_bytes(i);
        if end & (4096u64 << (i as u64)) != 0 {
            lemma_place(fl, lo, end, i as int, fl[i as int].push(end));
            lemma_align_sound(
                fl.update(i as int, fl[i as int].push(end)),
                bm2,
                (end + area_bytes(i)) as u64,
                (count - pow2(i)) as nat,
                i + 1,
                max,
                lo,
            );
        } else {
            lemma_align_sound(fl, bm2, end, count, i + 1, max, lo);
        }
    }
}

/// The areas that `max_areas` lays out lie one after the other from `end`.
proof fn lemma_max_sound(fl: Seq<Seq<u64>>, end: u64, count: nat, max: nat, lo: int)
    requires
        areas_sound(fl, lo, end as int),
        lo <= end,
        fl.len() == max + 1,
        max < 52,
        end + count * 4096 <= u64::MAX,
    ensures
        ({
            let r = max_areas(fl, end, count, max);
            &&& areas_sound(r.0, lo, r.1 as int)
            &&& r.0.len() == fl.len()
            &&& lo <= r.1
            &&& r.1 + r.2 * 4096 == end + count * 4096
        }),
    decreases count,
{
    if pow2(max) == 0 || count < pow2(max) {
    } else {
        lemma_area_bytes(max);
        lemma_place(fl, lo, end, max as int, seq![end] + fl[max as int]);
        lemma_max_sound(
            fl.update(max as int, seq![end] + fl[max as int]),
            (end + area_bytes(max)) as u64,
            (count - pow2(max)) as nat,
            max,
            lo,
        );
    }
}

/// The areas that `tail_areas` lays out lie one after the other from `end`.
proof fn lemma_tail_sound(fl: Seq<Seq<u64>>, end: u64, count: nat, order: nat, lo: int)
    requires
        areas_sound(fl, lo, end as int),
        lo <= end,
        order <= fl.len(),
        fl.len() <= 52,
        end + count * 4096 <= u64::MAX,
    ensures
        ({
            let r = tail_areas(fl, end, count, order);
            &&& areas_sound(r.0, lo, r.1 as int)
            &&& r.0.len() == fl.len()
            &&& lo <= r.1
            &&& r.1 + r.2 * 4096 == end + count * 4096
        }),
    decreases order,
{
    if order > 0 {
        let o = (order - 1) as nat;
        if pow2(o) <= count {
            lemma_area_bytes(o);
            lemma_place(fl, lo, end, o as int, fl[o as int].push(end));
            lemma_tail_sound(
                fl.update(o as int, fl[o as int].push(end)),
                (end + area_bytes(o)) as u64,
                (count - pow2(o)) as nat,
                o,
                lo,
            );
        } else {
            lemma_tail_sound(fl, end, count, o, lo);
        }
    }
}

/// The free areas that `new` lays out for `count` pages from `start` lie in those pages and do
/// not overlap.
pub proof fn lemma_initial_layout_sound(start: u64, count: nat, max: nat)
    requires
        max < 52,
        start + count * 4096 <= u64::MAX,
    ensures
        areas_sound(initial_layout(start, count, max).0, start as int, start + count * 4096),
{
    let e = empty_lists(max + 1);
    assert(areas_sound(e, start as int, start as int));
    lemma_align_sound(e, initial_bitmaps(count, max), start, count, 0, max, start as int);
    let a = align_areas(e, initial_bitmaps(count, max), start, count, 0, max);
    lemma_max_sound(a.0, a.2, a.3, max, start as int);
    let b = max_areas(a.0, a.2, a.3, max);
    lemma_tail_sound(b.0, b.1, b.2, max + 1, start as int);
    let c = tail_areas(b.0, b.1, b.2, max + 1);
    lemma_sound_grow(c.0, start as int, c.1 as int, start + count * 4096);
}

/// Taking the head of the free list of order `o` and splitting it down to `order` keeps the
/// free areas sound, and the area handed out lies in range and overlaps no free area left.
pub proof fn lemma_alloc_sound(free: Seq<Seq<u64>>, order: nat, o: nat, lo: int, hi: int)
    requires
        areas_sound(free, lo, hi),
        hi <= 0x1_0000_0000_0000_0000,
        order <= o < free.len(),
        free.len() <= 52,
        free[o as int].len() > 0,
    ensures
        ({
            let head = free[o as int].last();
            let after = alloc_free(free, order, o, head);
            let a = head + area_bytes(o) - area_bytes(order);
            &&& areas_sound(after, lo, hi)
            &&& lo <= a
            &&& a + area_bytes(order) <= hi
            &&& apart_from_all(after, a, order)
        }),
{
    let head = free[o as int].last();
    let hp = free[o as int].len() - 1;
    let f2 = alloc_free(free, order, o, head);
    let a = head + area_bytes(o) - area_bytes(order);
    lemma_sizes(order, o);
    assert(free[o as int][hp] == head);
    assert(head + area_bytes(o) <= hi);
    assert forall|p: int| order <= p < o implies head <= #[trigger] split_addr(head, o, p as nat) && split_addr(
        head,
        o,
        p as nat,
    ) + area_bytes(p as nat) + area_bytes(order) <= head + area_bytes(o) by {
        lemma_sizes(p as nat, o);
        lemma_sizes(order, p as nat);
    }
    // Where an entry of the new lists came from: an old entry other than the head, or a
    // split-off piece, which lies inside the head's area.
    assert forall|p: int, i: int| 0 <= p < f2.len() && 0 <= i < f2[p].len() implies {
        ||| (i < free[p].len() && #[trigger] f2[p][i] == free[p][i] && (p != o || i != hp))
        ||| (order <= p < o && i == free[p].len() && f2[p][i] == split_addr(head, o, p as nat))
    } by {
        if p == o {
            assert(f2[p] == free[p].drop_last());
        } else if order <= p < o {
            assert(f2[p] == free[p].push(split_addr(head, o, p as nat) as u64));
        } else {
            assert(f2[p] == free[p]);
        }
    }
    assert forall|p: int, q: int| order <= p < q < o implies #[trigger] split_addr(head, o, q as nat) + area_bytes(
        q as nat,
    ) <= #[trigger] split_addr(head, o, p as nat) by {
        lemma_sizes(p as nat, q as nat);
        lemma_sizes(q as nat, q as nat);
    }
    assert forall|p: int, i: int| 0 <= p < f2.len() && 0 <= i < f2[p].len() implies lo <= #[trigger] f2[p][i]
        && f2[p][i] + area_bytes(p as nat) <= hi by {
        if i < free[p].len() && f2[p][i] == free[p][i] && (p != o || i != hp) {
        } else {
            assert(split_addr(head, o, p as nat) >= head);
        }
    }
    assert forall|o1: int, i1: int, o2: int, i2: int|
        0 <= o1 < f2.len() && 0 <= i1 < f2[o1].len() && 0 <= o2 < f2.len() && 0 <= i2 < f2[o2].len() && (o1
            != o2 || i1 != i2) implies apart(
        #[trigger] f2[o1][i1] as int,
        o1 as nat,
        #[trigger] f2[o2][i2] as int,
        o2 as nat,
    ) by {
        let old1 = i1 < free[o1].len() && f2[o1][i1] == free[o1][i1] && (o1 != o || i1 != hp);
        let old2 = i2 < free[o2].len() && f2[o2][i2] == free[o2][i2] && (o2 != o || i2 != hp);
        if old1 && old2 {
            assert(apart(free[o1][i1] as int, o1 as nat, free[o2][i2] as int, o2 as nat));
        } else if old1 {
            assert(apart(free[o1][i1] as int, o1 as nat, free[o as int][hp] as int, o));
            assert(head <= split_addr(head, o, o2 as nat));
        } else if old2 {
            assert(apart(free[o2][i2] as int, o2 as nat, free[o as int][hp] as int, o));
            assert(head <= split_addr(head, o, o1 as nat));
        } else if o1 < o2 {
            assert(split_addr(head, o, o2 as nat) + area_bytes(o2 as nat) <= split_addr(head, o, o1 as nat));
        } else {
            assert(split_addr(head, o, o1 as nat) + area_bytes(o1 as nat) <= split_addr(head, o, o2 as nat));
        }
    }
    assert forall|p: int, i: int| 0 <= p < f2.len() && 0 <= i < f2[p].len() implies apart(
        #[trigger] f2[p][i] as int,
        p as nat,
        a,
        order,
    ) by {
        if i < free[p].len() && f2[p][i] == free[p][i] && (p != o || i != hp) {
            assert(apart(free[p][i] as int, p as nat, free[o as int][hp] as int, o));
        } else {
            lemma_sizes(order, p as nat);
            assert(split_addr(head, o, p as nat) + area_bytes(p as nat) + area_bytes(order) <= head + area_bytes(o));
        }
    }
}

impl<const O: usize> BuddyAllocator<O> {
    /// The free lists, one per order; the last element of each list is its head.
    pub closed spec fn free_lists(&self) -> Seq<Seq<u64>> {
        lists_view(self.free_areas@)
    }

    /// The buddy bitmaps, one per order.
    pub closed spec fn bitmaps(&self) -> Seq<Seq<u64>> {
        lists_view(self.buddies_state@)
    }

    /// The start of the managed zone.
    pub closed spec fn start_spec(&self) -> u64 {
        self.start
    }

    /// The end of the managed zone (exclusive).
    pub closed spec fn end_spec(&self) -> u64 {
        self.end
    }

    /// The free areas lie in the managed zone and no two of them overlap.
    pub open spec fn sound(&self) -> bool {
        areas_sound(self.free_lists(), self.start_spec() as int, self.end_spec() as int)
    }

    /// The total amount of free pages.
    pub open spec fn free_pages(&self) -> nat {
        pages_in(self.free_lists(), (O + 1) as nat)
    }

    /// Well-formedness: one free list and one bitmap per order, no bitmap for the largest order
    /// and every free area non-null and aligned to its size.
    pub open spec fn wf(&self) -> bool {
        &&& O < 52
        &&& self.free_lists().len() == O + 1
        &&& self.bitmaps().len() == O + 1
        &&& self.bitmaps()[O as int].len() == 0
        &&& forall|o: int, i: int|
            #![trigger self.free_lists()[o][i]]
            0 <= o <= O && 0 <= i < self.free_lists()[o].len() ==> {
                &&& self.free_lists()[o][i] != 0
                &&& (self.free_lists()[o][i] as int) % (area_bytes(o as nat) as int) == 0
            }
    }

    /// The number of free areas of the given order.
    pub fn free_area_count(&self, order: usize) -> (r: usize)
        requires
            self.wf(),
            order <= O,
        ensures
            r == self.free_lists()[order as int].len(),
    {
        self.free_areas[order].len()
    }

    /// Returns the location of the bit for the given area: the index of the bitmap word and
    /// the mask of the bit inside the word.
    fn bitmap_index(&self, area: u64, order: usize) -> (r: (u64, u64))
        requires
            order < 52,
        ensures
            r.0 == bit_word(self.start, area, order as nat),
            r.1 == bit_mask(self.start, area, order as nat),
    {
        let size = 4096u64 << (order as u64);
        proof {
            lemma_area_bytes(order as nat);
        }
        let mask = !(size - 1);
        let offset = area & mask.wrapping_sub(self.start) & mask;
        let offset = offset / 4096;
        let offset = offset >> ((order + 1) as u64);
        let bit_offset = offset & 63;
        assert(bit_offset < 64) by (bit_vector)
            requires
                bit_offset == offset & 63,
        ;
        (offset / 64, 1u64 << bit_offset)
    }

    /// Returns whether the bit of the given area is set. A bit outside the bitmap counts as
    /// set.
    pub fn bitmap_get(&self, area: u64, order: usize) -> (r: bool)
        requires
            self.wf(),
            order <= O,
        ensures
            r == ({
                let words = self.bitmaps()[order as int];
                let i = bit_word(self.start_spec(), area, order as nat);
                i < words.len() ==> words[i as int] & bit_mask(self.start_spec(), area, order as nat)
                    != 0
            }),
    {
        let (offset, mask) = self.bitmap_index(area, order);
        let map = &self.buddies_state[order];
        if offset < map.len() as u64 {
            map[offset as usize] & mask > 0
        } else {
            true
        }
    }
}

/// Skipping empty free lists does not change the first non-empty order.
pub proof fn lemma_first_free_skip(free: Seq<Seq<u64>>, a: int, b: int, max: int)
    requires
        a <= b <= max + 1,
        forall|j: int| a <= j < b ==> free[j].len() == 0,
    ensures
        first_free_order(free, a, max) == first_free_order(free, b, max),
    decreases b - a,
{
    if a < b {
        lemma_first_free_skip(free, a + 1, b, max);
    }
}

/// The first non-empty order is within bounds and its list is non-empty.
pub proof fn lemma_first_free_bounds(free: Seq<Seq<u64>>, a: int, max: int)
    requires
        a <= max + 1,
    ensures
        a <= first_free_order(free, a, max) <= max + 1,
        first_free_order(free, a, max) <= max ==> free[first_free_order(free, a, max)].len() > 0,
        forall|j: int| a <= j < first_free_order(free, a, max) ==> free[j].len() == 0,
    decreases max + 1 - a,
{
    if a <= max && free[a].len() == 0 {
        lemma_first_free_bounds(free, a + 1, max);
    }
}

impl<const O: usize> BuddyAllocator<O> {
    /// Attempts to allocate an area of the given order.
    ///
    /// The area is taken from the head of the lowest non-empty free list of at least the
    /// requested order. If that list is of a higher order, the area is split: each left half
    /// goes onto the free list of its order and the last chunk is returned.
    pub fn allocate(&mut self, order: u8) -> (r: Result<Area, AllocateError>)
        requires
            old(self).wf(),
        ensures
            final(self).wf(),
            final(self).start_spec() == old(self).start_spec(),
            final(self).end_spec() == old(self).end_spec(),
            old(self).sound() ==> final(self).sound(),
            old(self).sound() && r is Ok ==> ({
                let a = r->Ok_0;
                &&& old(self).start_spec() <= a.start_spec()
                &&& a.start_spec() + area_bytes(order as nat) <= old(self).end_spec()
                &&& apart_from_all(final(self).free_lists(), a.start_spec() as int, order as nat)
            }),
            order > O ==> r == Err::<Area, AllocateError>(AllocateError::OrderTooLarge),
            order <= O && first_free_order(old(self).free_lists(), order as int, O as int) > O
                ==> r == Err::<Area, AllocateError>(AllocateError::Empty),
            r is Err ==> final(self).free_lists() == old(self).free_lists(),
            r is Err ==> final(self).bitmaps() == old(self).bitmaps(),
            order <= O && first_free_order(old(self).free_lists(), order as int, O as int) <= O
                ==> ({
                let o = first_free_order(old(self).free_lists(), order as int, O as int) as nat;
                let head = old(self).free_lists()[o as int].last();
                &&& r matches Ok(a) && a.order_spec() == order && a.start_spec() == head
                    + area_bytes(o) - area_bytes(order as nat)
                &&& final(self).free_lists() == alloc_free(
                    old(self).free_lists(),
                    order as nat,
                    o,
                    head,
                )
                &&& final(self).bitmaps() == alloc_bitmaps(
                    old(self).bitmaps(),
                    old(self).start_spec(),
                    order as nat,
                    o,
                    head,
                    O as nat,
                )
                &&& final(self).free_pages() + pow2(order as nat) == old(self).free_pages()
            }),
    {
        if order as usize > O {
            return Err(AllocateError::OrderTooLarge);
        }
        let ord = order as usize;
        let ghost free0 = self.free_lists();
        let ghost bm0 = self.bitmaps();
        let mut o = ord;
        while o <= O
            invariant
                self.wf(),
                ord == order as usize,
                ord <= o <= O + 1,
                ord <= O < 52,
                self.free_lists() == free0,
                self.bitmaps() == bm0,
                self.start == old(self).start,
                self.end == old(self).end,
                free0 == old(self).free_lists(),
                bm0 == old(self).bitmaps(),
                forall|j: int| ord <= j < o ==> free0[j].len() == 0,
            decreases O + 1 - o,
        {
            if self.free_areas[o].len() > 0 {
                proof {
                    lemma_first_free_skip(free0, ord as int, o as int, O as int);
                    assert(self.free_areas@[o as int]@ == free0[o as int]);
                }
                let head = self.free_areas[o].pop().unwrap();
                proof {
                    assert(head == free0[o as int].last());
                    lemma_area_bytes(o as nat);
                    lemma_area_fits(head, o as nat);
                    lemma_pages_in_pop(free0, o as int, (O + 1) as nat);
                    assert(self.free_lists() == free0.update(o as int, free0[o as int].drop_last()));
                }
                if ord < O {
                    let (i, m) = self.bitmap_index(head, o);
                    toggle_bit(&mut self.buddies_state[o], i, m);
                }
                let ghost free1 = self.free_lists();
                let ghost bm1 = self.bitmaps();
                assert(bm1 == Seq::new(
                    bm0.len(),
                    |j: int|
                        if j == o && ord < O {
                            toggled(bm0[j], self.start, head, j as nat)
                        } else {
                            bm0[j]
                        },
                ));
                let mut area = head;
                let mut k = o;
                while k > ord
                    invariant
                        ord <= k <= o <= O < 52,
                        forall|p: int, i: int|
                            #![trigger self.free_lists()[p][i]]
                            0 <= p <= O && 0 <= i < self.free_lists()[p].len() ==> {
                                &&& self.free_lists()[p][i] != 0
                                &&& (self.free_lists()[p][i] as int) % (area_bytes(p as nat) as int) == 0
                            },
                        self.free_areas@.len() == O + 1,
                        self.buddies_state@.len() == O + 1,
                        self.start == old(self).start,
                        self.end == old(self).end,
                        head != 0,
                        (head as int) % (area_bytes(o as nat) as int) == 0,
                        head + area_bytes(o as nat) <= 0x1_0000_0000_0000_0000,
                        area == head + area_bytes(o as nat) - area_bytes(k as nat),
                        free0.len() == O + 1,
                        bm0.len() == O + 1,
                        bm0[O as int].len() == 0,
                        forall|p: int, i: int|
                            #![trigger free0[p][i]]
                            0 <= p <= O && 0 <= i < free0[p].len() ==> {
                                &&& free0[p][i] != 0
                                &&& (free0[p][i] as int) % (area_bytes(p as nat) as int) == 0
                            },
                        free0[o as int].len() > 0,
                        head == free0[o as int].last(),
                        self.free_lists() == Seq::new(
                            free0.len(),
                            |j: int|
                                if j == o {
                                    free0[j].drop_last()
                                } else if k <= j < o {
                                    free0[j].push(split_addr(head, o as nat, j as nat) as u64)
                                } else {
                                    free0[j]
                                },
                        ),
                        self.bitmaps() == Seq::new(
                            bm0.len(),
                            |j: int|
                                if k <= j < o {
                                    toggled(
                                        bm0[j],
                                        self.start,
                                        split_addr(head, o as nat, j as nat) as u64,
                                        j as nat,
                                    )
                                } else if j == o && ord < O {
                                    toggled(bm0[j], self.start, head, j as nat)
                                } else {
                                    bm0[j]
                                },
                        ),
                        pages_in(self.free_lists(), (O + 1) as nat) + pow2(k as nat) == pages_in(
                            free0,
                            (O + 1) as nat,
                        ),
                    decreases k,
                {
                    k = k - 1;
                    let ghost fl = self.free_lists();
                    proof {
                        lemma_area_bytes(k as nat);
                        lemma_area_bytes(o as nat);
                        lemma_aligned_lower(head as int, o as nat, k as nat);
                        lemma_aligned_lower(area_bytes(o as nat) as int, o as nat, k as nat);
                        lemma_aligned_lower(area_bytes((k + 1) as nat) as int, (k + 1) as nat, k as nat);
                        vstd::arithmetic::div_mod::lemma_mod_self_0(area_bytes(o as nat) as int);
                        vstd::arithmetic::div_mod::lemma_mod_self_0(area_bytes((k + 1) as nat) as int);
                        lemma_mod_add_sub(head as int, area_bytes(o as nat) as int, area_bytes(k as nat) as int);
                        lemma_mod_add_sub(head + area_bytes(o as nat), area_bytes((k + 1) as nat) as int, area_bytes(k as nat) as int);
                        if k + 1 < o {
                            lemma_aligned_lower(area_bytes(o as nat) as int, o as nat, (k + 1) as nat);
                            vstd::arithmetic::div_mod::lemma_mod_self_0(area_bytes((k + 1) as nat) as int);
                        }
                        assert(area_bytes((k + 1) as nat) <= area_bytes(o as nat)) by {
                            if k + 1 < o {
                                vstd::arithmetic::power2::lemma_pow2_strictly_increases((k + 1 + 12) as nat, (o + 12) as nat);
                            }
                        }
                        assert(area == split_addr(head, o as nat, k as nat));
                        lemma_pages_in_push(fl, k as int, area, (O + 1) as nat);
                        vstd::arithmetic::power2::lemma_pow2_unfold((k + 1) as nat);
                    }
                    self.free_areas[k].push(area);
                    assert(self.free_lists() == fl.update(k as int, fl[k as int].push(area)));
                    let (i, m) = self.bitmap_index(area, k);
                    let ghost bmk = self.bitmaps();
                    toggle_bit(&mut self.buddies_state[k], i, m);
                    assert(self.bitmaps() == bmk.update(k as int, toggled(bmk[k as int], self.start, area, k as nat)));
                    area = area + (4096u64 << (k as u64));
                    proof {
                        assert(self.bitmaps() =~= Seq::new(
                            bm0.len(),
                            |j: int|
                                if k <= j < o {
                                    toggled(
                                        bm0[j],
                                        self.start,
                                        split_addr(head, o as nat, j as nat) as u64,
                                        j as nat,
                                    )
                                } else if j == o && ord < O {
                                    toggled(bm0[j], self.start, head, j as nat)
                                } else {
                                    bm0[j]
                                },
                        ));
                        assert(self.free_lists() =~= Seq::new(
                            free0.len(),
                            |j: int|
                                if j == o {
                                    free0[j].drop_last()
                                } else if k <= j < o {
                                    free0[j].push(split_addr(head, o as nat, j as nat) as u64)
                                } else {
                                    free0[j]
                                },
                        ));
                    }
                }
                proof {
                    assert(self.free_lists() =~= alloc_free(free0, ord as nat, o as nat, head));
                    assert(self.bitmaps() =~= alloc_bitmaps(bm0, self.start, ord as nat, o as nat, head, O as nat));
                    lemma_area_bytes(ord as nat);
                    lemma_aligned_lower(head as int, o as nat, ord as nat);
                    lemma_aligned_lower(area_bytes(o as nat) as int, o as nat, ord as nat);
                    vstd::arithmetic::div_mod::lemma_mod_self_0(area_bytes(o as nat) as int);
                    vstd::arithmetic::div_mod::lemma_mod_self_0(area_bytes(ord as nat) as int);
                    lemma_mod_add_sub(head as int, area_bytes(o as nat) as int, area_bytes(ord as nat) as int);
                    lemma_mod_add_sub(head + area_bytes(o as nat), area_bytes(ord as nat) as int, area_bytes(ord as nat) as int);
                    if ord < o {
                        vstd::arithmetic::power2::lemma_pow2_strictly_increases((ord + 12) as nat, (o + 12) as nat);
                    }
                    if old(self).sound() {
                        lemma_alloc_sound(free0, ord as nat, o as nat, self.start as int, self.end as int);
                    }
                }
                return Ok(Area::new_unchecked(area, order));
            }
            o = o + 1;
        }
        proof {
            lemma_first_free_skip(free0, ord as int, O as int + 1, O as int);
        }
        Err(AllocateError::Empty)
    }
}

/// The index of the last occurrence of `x` in `s`, or -1. Free lists are searched from their
/// head, i.e. from the end.
pub open spec fn last_index_of(s: Seq<u64>, x: u64) -> int
    decreases s.len(),
{
    if s.len() == 0 {
        -1
    } else if s.last() == x {
        s.len() - 1
    } else {
        last_index_of(s.drop_last(), x)
    }
}

/// The free lists and bitmaps after returning the area at `a` of the given order: while the
/// buddy of the area is free (its bit reads 0 after toggling), the buddy is taken off its free
/// list and both are merged into an area of the next order. The final area is put on the
/// free list of its order.
pub open spec fn dealloc_lists(
    free: Seq<Seq<u64>>,
    bitmaps: Seq<Seq<u64>>,
    start: u64,
    a: u64,
    order: nat,
    max: nat,
) -> (Seq<Seq<u64>>, Seq<Seq<u64>>)
    decreases max - order,
{
    if order >= max {
        (free.update(order as int, free[order as int].push(a)), bitmaps)
    } else {
        let b2 = bitmaps.update(order as int, toggled(bitmaps[order as int], start, a, order));
        if toggle_result(bitmaps[order as int], start, a, order) {
            (free.update(order as int, free[order as int].push(a)), b2)
        } else {
            let other = (a ^ (4096u64 << (order as u64))) as u64;
            let i = last_index_of(free[order as int], other);
            if i < 0 {
                (free.update(order as int, free[order as int].push(a)), b2)
            } else {
                dealloc_lists(
                    free.update(order as int, free[order as int].remove(i)),
                    b2,
                    start,
                    (a & !(4096u64 << (order as u64))) as u64,
                    order + 1,
                    max,
                )
            }
        }
    }
}

/// What `last_index_of` finds.
pub proof fn lemma_last_index_of(s: Seq<u64>, x: u64)
    ensures
        -1 <= last_index_of(s, x) < s.len(),
        last_index_of(s, x) == -1 <==> forall|j: int| 0 <= j < s.len() ==> s[j] != x,
        last_index_of(s, x) >= 0 ==> s[last_index_of(s, x)] == x,
        forall|j: int| last_index_of(s, x) < j < s.len() ==> s[j] != x,
    decreases s.len(),
{
    if s.len() > 0 && s.last() != x {
        lemma_last_index_of(s.drop_last(), x);
        assert forall|j: int| 0 <= j < s.len() - 1 implies s.drop_last()[j] == s[j] by {}
    }
}

/// Merging two buddies: clearing the size bit of an aligned area gives the left buddy, which
/// is aligned to the next order.
pub proof fn lemma_buddy_left(a: u64, order: nat)
    requires
        order < 51,
        (a as int) % (area_bytes(order) as int) == 0,
    ensures
        ({
            let bit = 4096u64 << (order as u64);
            let left = a & !bit;
            &&& (left == a || left == a ^ bit)
            &&& (left as int) % (area_bytes(order + 1) as int) == 0
        }),
{
    let o = order as u64;
    crate::memory::area::lemma_area_mask(a, order);
    crate::memory::area::lemma_area_mask(a & !(4096u64 << o), order + 1);
    assert(o + 1 == (order + 1) as u64);
    assert(o < 51 && a & (((4096u64 << o) - 1) as u64) == 0 ==> {
        &&& ((a & !(4096u64 << o)) == a || (a & !(4096u64 << o)) == a ^ (4096u64 << o))
        &&& (a & !(4096u64 << o)) & (((4096u64 << ((o + 1) as u64)) - 1) as u64) == 0
    }) by (bit_vector);
}

/// An area aligned to its size and its buddy: the buddy lies just above or just below it, and
/// clearing the size bit gives the lower of the two.
proof fn lemma_buddy_pair(a: u64, order: nat)
    requires
        order < 51,
    ensures
        ({
            let bit = 4096u64 << (order as u64);
            &&& (a & bit) == 0 ==> (a & !bit) == a && (a ^ bit) as int == a + area_bytes(order)
            &&& (a & bit) != 0 ==> (a & !bit) as int == a - area_bytes(order) && (a ^ bit) == (a & !bit)
        }),
{
    lemma_area_bytes(order);
    let o = order as u64;
    assert(o < 51 ==> {
        &&& (a & (4096u64 << o)) == 0 ==> (a & !(4096u64 << o)) == a && (a ^ (4096u64 << o)) as int == a + (
        4096u64 << o)
        &&& (a & (4096u64 << o)) != 0 ==> (a & !(4096u64 << o)) as int == a - (4096u64 << o) && (a ^ (4096u64
            << o)) == (a & !(4096u64 << o))
    }) by (bit_vector);
}

/// Taking a free area off its list and merging it with its buddy `a`, which overlaps no free
/// area: what is left is sound, and the merged area lies in range and overlaps none of it.
proof fn lemma_merge(free: Seq<Seq<u64>>, lo: int, hi: int, o: int, i: int, a: u64, left: u64)
    requires
        areas_sound(free, lo, hi),
        0 <= o < 51,
        o < free.len(),
        free.len() <= 52,
        0 <= i < free[o].len(),
        lo <= a,
        a + area_bytes(o as nat) <= hi,
        apart_from_all(free, a as int, o as nat),
        (free[o][i] == a + area_bytes(o as nat) && left == a) || (a == free[o][i] + area_bytes(o as nat) && left
            == free[o][i]),
    ensures
        areas_sound(free.update(o, free[o].remove(i)), lo, hi),
        apart_from_all(free.update(o, free[o].remove(i)), left as int, (o + 1) as nat),
        lo <= left,
        left + area_bytes((o + 1) as nat) <= hi,
{
    let f2 = free.update(o, free[o].remove(i));
    let b = free[o][i];
    lemma_sizes(o as nat, o as nat);
    assert forall|p: int, k: int| 0 <= p < f2.len() && 0 <= k < f2[p].len() implies {
        let k2 = if p == o && k >= i { k + 1 } else { k };
        &&& 0 <= k2 < free[p].len()
        &&& #[trigger] f2[p][k] == free[p][k2]
        &&& (p != o || k2 != i)
    } by {}
    assert forall|p: int, k: int| 0 <= p < f2.len() && 0 <= k < f2[p].len() implies lo <= #[trigger] f2[p][k]
        && f2[p][k] + area_bytes(p as nat) <= hi by {
        let k2 = if p == o && k >= i { k + 1 } else { k };
        assert(f2[p][k] == free[p][k2]);
    }
    assert forall|o1: int, i1: int, o2: int, i2: int|
        0 <= o1 < f2.len() && 0 <= i1 < f2[o1].len() && 0 <= o2 < f2.len() && 0 <= i2 < f2[o2].len() && (o1
            != o2 || i1 != i2) implies apart(
        #[trigger] f2[o1][i1] as int,
        o1 as nat,
        #[trigger] f2[o2][i2] as int,
        o2 as nat,
    ) by {
        let j1 = if o1 == o && i1 >= i { i1 + 1 } else { i1 };
        let j2 = if o2 == o && i2 >= i { i2 + 1 } else { i2 };
        assert(f2[o1][i1] == free[o1][j1]);
        assert(f2[o2][i2] == free[o2][j2]);
        assert(apart(free[o1][j1] as int, o1 as nat, free[o2][j2] as int, o2 as nat));
    }
    assert forall|p: int, k: int| 0 <= p < f2.len() && 0 <= k < f2[p].len() implies apart(
        #[trigger] f2[p][k] as int,
        p as nat,
        left as int,
        (o + 1) as nat,
    ) by {
        let k2 = if p == o && k >= i { k + 1 } else { k };
        assert(f2[p][k] == free[p][k2]);
        assert(apart(free[p][k2] as int, p as nat, a as int, o as nat));
        assert(apart(free[p][k2] as int, p as nat, b as int, o as nat));
        lemma_sizes(p as nat, p as nat);
    }
}

/// Returning an area that lies in range and overlaps no free area keeps the free areas sound.
pub proof fn lemma_dealloc_sound(
    free: Seq<Seq<u64>>,
    bitmaps: Seq<Seq<u64>>,
    start: u64,
    a: u64,
    order: nat,
    max: nat,
    lo: int,
    hi: int,
)
    requires
        areas_sound(free, lo, hi),
        free.len() == max + 1,
        max < 52,
        order <= max,
        lo <= a,
        a + area_bytes(order) <= hi,
        (a as int) % (area_bytes(order) as int) == 0,
        apart_from_all(free, a as int, order),
    ensures
        areas_sound(dealloc_lists(free, bitmaps, start, a, order, max).0, lo, hi),
    decreases max - order,
{
    if order >= max {
        lemma_insert(free, lo, hi, order as int, a, free[order as int].push(a));
    } else {
        let b2 = bitmaps.update(order as int, toggled(bitmaps[order as int], start, a, order));
        if toggle_result(bitmaps[order as int], start, a, order) {
            lemma_insert(free, lo, hi, order as int, a, free[order as int].push(a));
        } else {
            let bit = 4096u64 << (order as u64);
            let other = (a ^ bit) as u64;
            let i = last_index_of(free[order as int], other);
            lemma_last_index_of(free[order as int], other);
            if i < 0 {
                lemma_insert(free, lo, hi, order as int, a, free[order as int].push(a));
            } else {
                lemma_buddy_pair(a, order);
                lemma_buddy_left(a, order);
                let left = (a & !bit) as u64;
                lemma_merge(free, lo, hi, order as int, i, a, left);
                lemma_dealloc_sound(
                    free.update(order as int, free[order as int].remove(i)),
                    b2,
                    start,
                    left,
                    order + 1,
                    max,
                    lo,
                    hi,
                );
            }
        }
    }
}

impl<const O: usize> BuddyAllocator<O> {
    /// Deallocates the area of the given order. This may be a subarea.
    ///
    /// The memory in the area must not be used after this call.
    pub fn deallocate(&mut self, area: Area) -> (r: Result<(), DeallocateError>)
        requires
            old(self).wf(),
        ensures
            final(self).wf(),
            final(self).start_spec() == old(self).start_spec(),
            final(self).end_spec() == old(self).end_spec(),
            area.order_spec() > O ==> r == Err::<(), DeallocateError>(
                DeallocateError::OrderTooLarge,
            ),
            area.order_spec() <= O && !(old(self).start_spec() <= area.start_spec()
                && area.start_spec() + area_bytes(area.order_spec() as nat) <= old(
                self,
            ).end_spec()) ==> r == Err::<(), DeallocateError>(DeallocateError::OutOfBounds),
            r is Err ==> final(self).free_lists() == old(self).free_lists(),
            r is Err ==> final(self).bitmaps() == old(self).bitmaps(),
            old(self).sound() && apart_from_all(old(self).free_lists(), area.start_spec() as int, area.order_spec() as nat)
                ==> final(self).sound(),
            r is Ok ==> ({
                let res = dealloc_lists(
                    old(self).free_lists(),
                    old(self).bitmaps(),
                    old(self).start_spec(),
                    area.start_spec(),
                    area.order_spec() as nat,
                    O as nat,
                );
                &&& final(self).free_lists() == res.0
                &&& final(self).bitmaps() == res.1
                &&& final(self).free_pages() == old(self).free_pages() + pow2(
                    area.order_spec() as nat,
                )
            }),
            area.order_spec() <= O && old(self).start_spec() <= area.start_spec()
                && area.start_spec() + area_bytes(area.order_spec() as nat) <= old(
                self,
            ).end_spec() ==> r is Ok,
    {
        area.lemma_valid();
        if area.order() as usize > O {
            return Err(DeallocateError::OrderTooLarge);
        }
        let area_start = area.start();
        let size = 4096u64 << area.order() as u64;
        proof {
            lemma_area_bytes(area.order_spec() as nat);
            lemma_area_fits(area_start, area.order_spec() as nat);
        }
        let area_end = area_start.wrapping_add(size);
        if !(area_start < area_end) || !(self.start <= area_start && area_end <= self.end) {
            return Err(DeallocateError::OutOfBounds);
        }
        let ghost free0 = self.free_lists();
        let ghost bm0 = self.bitmaps();
        let ghost order0 = area.order_spec() as nat;
        let mut order = area.order() as usize;
        let mut a = area_start;
        loop
            invariant_except_break
                order <= O,
                a != 0,
                (a as int) % (area_bytes(order as nat) as int) == 0,
                dealloc_lists(self.free_lists(), self.bitmaps(), self.start, a, order as nat, O as nat)
                    == dealloc_lists(free0, bm0, self.start, area_start, order0, O as nat),
                pages_in(self.free_lists(), (O + 1) as nat) + pow2(order as nat) == pages_in(
                    free0,
                    (O + 1) as nat,
                ) + pow2(order0),
            invariant
                self.wf(),
                self.start == old(self).start,
                self.end == old(self).end,
            ensures
                self.wf(),
                self.start == old(self).start,
                self.end == old(self).end,
                self.free_lists() == dealloc_lists(free0, bm0, self.start, area_start, order0, O as nat).0,
                self.bitmaps() == dealloc_lists(free0, bm0, self.start, area_start, order0, O as nat).1,
                pages_in(self.free_lists(), (O + 1) as nat) == pages_in(free0, (O + 1) as nat) + pow2(order0),
            decreases O - order,
        {
            let ghost fl = self.free_lists();
            let ghost bl = self.bitmaps();
            if order == O {
                proof {
                    lemma_pages_in_push(fl, order as int, a, (O + 1) as nat);
                }
                self.free_areas[order].push(a);
                assert(self.free_lists() =~= fl.update(order as int, fl[order as int].push(a)));
                break;
            }
            let (i, m) = self.bitmap_index(a, order);
            let set = toggle_bit(&mut self.buddies_state[order], i, m);
            assert(self.bitmaps() =~= bl.update(order as int, toggled(bl[order as int], self.start, a, order as nat)));
            if set {
                proof {
                    lemma_pages_in_push(fl, order as int, a, (O + 1) as nat);
                }
                self.free_areas[order].push(a);
                assert(self.free_lists() =~= fl.update(order as int, fl[order as int].push(a)));
                break;
            }
            let bit = 4096u64 << (order as u64);
            let other = a ^ bit;
            let len = self.free_areas[order].len();
            let mut idx = len;
            let mut found = false;
            while idx > 0
                invariant_except_break
                    !found,
                    forall|j: int| idx <= j < len ==> fl[order as int][j] != other,
                invariant
                    idx <= len,
                    order <= O,
                    self.free_areas@.len() == O + 1,
                    len == fl[order as int].len(),
                    self.free_lists() == fl,
                ensures
                    !found ==> idx == 0 && forall|j: int| 0 <= j < len ==> fl[order as int][j] != other,
                    found ==> idx < len && fl[order as int][idx as int] == other && forall|j: int|
                        idx < j < len ==> fl[order as int][j] != other,
                decreases idx,
            {
                if self.free_areas[order][idx - 1] == other {
                    found = true;
                    idx = idx - 1;
                    break;
                }
                idx = idx - 1;
            }
            proof {
                lemma_last_index_of(fl[order as int], other);
                lemma_area_bytes(order as nat);
            }
            if !found {
                proof {
                    lemma_pages_in_push(fl, order as int, a, (O + 1) as nat);
                }
                self.free_areas[order].push(a);
                assert(self.free_lists() =~= fl.update(order as int, fl[order as int].push(a)));
                break;
            }
            proof {
                assert(last_index_of(fl[order as int], other) == idx);
                lemma_pages_in_remove(fl, order as int, idx as int, (O + 1) as nat);
                lemma_buddy_left(a, order as nat);
                vstd::arithmetic::power2::lemma_pow2_unfold((order + 1) as nat);
                assert(fl[order as int][idx as int] == other);
            }
            self.free_areas[order].remove(idx);
            assert(self.free_lists() =~= fl.update(order as int, fl[order as int].remove(idx as int)));
            a = a & !bit;
            order = order + 1;
        }
        proof {
            if old(self).sound() && apart_from_all(free0, area_start as int, order0) {
                lemma_dealloc_sound(free0, bm0, self.start, area_start, order0, O as nat, self.start as int, self.end as int);
            }
        }
        Ok(())
    }
}

/// The amount of bitmap words needed for `n` bits.
pub open spec fn words_for(n: int) -> int {
    (n + 63) / 64
}

/// The amount of bitmap words reserved for the orders below `n` when managing `count` pages:
/// `(count + 1) >> o` bits for order `o`, each rounded up to whole words.
pub open spec fn bitmap_words(count: nat, n: nat) -> nat
    decreases n,
{
    if n == 0 {
        0
    } else {
        bitmap_words(count, (n - 1) as nat) + words_for(
            (count + 1) as int / pow2((n - 1) as nat) as int,
        ) as nat
    }
}

/// The amount of pages reserved for the bitmaps when managing `count` pages with maximum
/// order `max`: the bitmap words, of eight bytes each, rounded up to whole pages.
pub open spec fn bitmap_pages(count: nat, max: nat) -> nat {
    ((bitmap_words(count, max) * 8 + 4095) / 4096) as nat
}

/// `n` empty free lists.
pub open spec fn empty_lists(n: nat) -> Seq<Seq<u64>> {
    Seq::new(n, |i: int| Seq::<u64>::empty())
}

/// The bitmap of order `j` as `new` lays it out for `count` pages: all zero, except that if
/// the number of areas of the order is odd, the last word marks the buddy of the last area as
/// in use.
pub open spec fn initial_bitmap(count: nat, j: nat) -> Seq<u64> {
    let level = count / pow2(j);
    let zeros = Seq::new(words_for(level as int) as nat, |k: int| 0u64);
    if level % 2 > 0 {
        zeros.update(zeros.len() - 1, 1u64 << (((level / 2) as u64) & 63))
    } else {
        zeros
    }
}

/// The bitmaps of the orders below `max` as `new` lays them out, and the empty one of `max`.
pub open spec fn initial_bitmaps(count: nat, max: nat) -> Seq<Seq<u64>> {
    Seq::new(max + 1, |j: int| if j < max { initial_bitmap(count, j as nat) } else { Seq::<u64>::empty() })
}

/// The first step of laying out the free areas, from order `i` below `max`: while an area of
/// the order fits in the `count` pages left, the first word of its bitmap is set to one and,
/// if `end` is not aligned to the next order, an area of the order is put at `end`. Gives the
/// free lists, the bitmaps, the new `end` and `count`, and the order reached.
pub open spec fn align_areas(
    fl: Seq<Seq<u64>>,
    bm: Seq<Seq<u64>>,
    end: u64,
    count: nat,
    i: nat,
    max: nat,
) -> (Seq<Seq<u64>>, Seq<Seq<u64>>, u64, nat, nat)
    decreases max - i,
{
    if i >= max || pow2(i) > count {
        (fl, bm, end, count, i)
    } else {
        let bm2 = bm.update(i as int, bm[i as int].update(0, 1));
        if end & (4096u64 << (i as u64)) != 0 {
            align_areas(
                fl.update(i as int, fl[i as int].push(end)),
                bm2,
                (end + area_bytes(i)) as u64,
                (count - pow2(i)) as nat,
                i + 1,
                max,
            )
        } else {
            align_areas(fl, bm2, end, count, i + 1, max)
        }
    }
}

/// The second step: as many areas of order `max` as fit in the `count` pages left, each put at
/// the front of its free list.
pub open spec fn max_areas(fl: Seq<Seq<u64>>, end: u64, count: nat, max: nat) -> (Seq<Seq<u64>>, u64, nat)
    decreases count,
{
    if pow2(max) == 0 || count < pow2(max) {
        (fl, end, count)
    } else {
        max_areas(
            fl.update(max as int, seq![end] + fl[max as int]),
            (end + area_bytes(max)) as u64,
            (count - pow2(max)) as nat,
            max,
        )
    }
}

/// The last step: the pages left are split into areas from order `order - 1` down to zero,
/// one of each order that fits.
pub open spec fn tail_areas(fl: Seq<Seq<u64>>, end: u64, count: nat, order: nat) -> (Seq<Seq<u64>>, u64, nat)
    decreases order,
{
    if order == 0 {
        (fl, end, count)
    } else {
        let o = (order - 1) as nat;
        if pow2(o) <= count {
            tail_areas(fl.update(o as int, fl[o as int].push(end)), (end + area_bytes(o)) as u64, (count - pow2(o)) as nat, o)
        } else {
            tail_areas(fl, end, count, o)
        }
    }
}

/// The free lists and bitmaps `new` lays out for the `count` pages from `start` that follow
/// the bitmaps, with maximum order `max`.
pub open spec fn initial_layout(start: u64, count: nat, max: nat) -> (Seq<Seq<u64>>, Seq<Seq<u64>>) {
    let a = align_areas(empty_lists(max + 1), initial_bitmaps(count, max), start, count, 0, max);
    let b = max_areas(a.0, a.2, a.3, max);
    let c = tail_areas(b.0, b.1, b.2, max + 1);
    (c.0, a.1)
}

/// One step of aligning an address upwards: if the address is aligned to an area of order `o`,
/// then either it is aligned to the next order or adding the area size makes it so.
pub proof fn lemma_align_step(x: u64, o: nat)
    requires
        o < 51,
        (x as int) % (area_bytes(o) as int) == 0,
    ensures
        (x & (4096u64 << (o as u64))) == 0 ==> (x as int) % (area_bytes(o + 1) as int) == 0,
        (x & (4096u64 << (o as u64))) != 0 && x + area_bytes(o) <= u64::MAX ==> ((x
            + area_bytes(o)) as int) % (area_bytes(o + 1) as int) == 0,
{
    let k = o as u64;
    lemma_area_bytes(o);
    lemma_area_bytes(o + 1);
    crate::memory::area::lemma_area_mask(x, o);
    crate::memory::area::lemma_area_mask(x, o + 1);
    assert(k + 1 == (o + 1) as u64);
    assert(k < 51 && x & (((4096u64 << k) - 1) as u64) == 0 ==> {
        &&& (x & (4096u64 << k)) == 0 ==> x & (((4096u64 << ((k + 1) as u64)) - 1) as u64) == 0
        &&& (x & (4096u64 << k)) != 0 && x + (4096u64 << k) <= u64::MAX ==> ((x + (4096u64 << k))
            as u64) & (((4096u64 << ((k + 1) as u64)) - 1) as u64) == 0
    }) by (bit_vector);
    if (x & (4096u64 << (o as u64))) != 0 && x + area_bytes(o) <= u64::MAX {
        crate::memory::area::lemma_area_mask((x + area_bytes(o)) as u64, o + 1);
    }
}

/// `((x + 63) & !63) / 64` rounds up to whole words.
pub proof fn lemma_round_words(x: u64)
    requires
        x <= 0xFFFF_0000_0000_0000,
    ensures
        ((x + 63) as u64 & !63u64) / 64 == (x + 63) / 64,
        ((x + 4095) as u64 & !4095u64) / 4096 == (x + 4095) / 4096,
{
    assert(x <= 0xFFFF_0000_0000_0000 ==> ((x + 63) as u64 & !63u64) / 64 == (x + 63) / 64)
        by (bit_vector);
    assert(x <= 0xFFFF_0000_0000_0000 ==> ((x + 4095) as u64 & !4095u64) / 4096 == (x + 4095)
        / 4096) by (bit_vector);
}

impl<const O: usize> BuddyAllocator<O> {
    /// Creates a new buddy allocator with governance over the `count` pages starting at
    /// `start`. The first pages are used for the bitmaps; the remaining pages are split into
    /// free areas, as many as possible of the maximum order.
    pub fn new(start: u64, count: usize) -> (r: Self)
        requires
            O < 52,
            start != 0,
            start % 4096 == 0,
            count > 0,
            start + count * 4096 <= u64::MAX,
            bitmap_pages(count as nat, O as nat) <= count,
        ensures
            r.wf(),
            r.sound(),
            r.start_spec() == start + bitmap_pages(count as nat, O as nat) * 4096,
            r.end_spec() == start + count * 4096,
            r.free_pages() == count - bitmap_pages(count as nat, O as nat),
            forall|i: int|
                0 <= i < O ==> #[trigger] r.bitmaps()[i].len() == words_for(
                    (count - bitmap_pages(count as nat, O as nat)) / pow2(i as nat) as int,
                ),
            (r.free_lists(), r.bitmaps()) == initial_layout(
                r.start_spec(),
                (count - bitmap_pages(count as nat, O as nat)) as nat,
                O as nat,
            ),
    {
        let ghost count0 = count;
        let count = count as u64;
        proof {
            vstd::arithmetic::power2::lemma2_to64_rest();
            assert(count < 0x10_0000_0000_0000);
        }
        // The total amount of bitmap words needed.
        let mut bitmap_size: u64 = 0;
        let mut o: usize = 0;
        while o < O
            invariant
                o <= O < 52,
                count as nat * 4096 <= u64::MAX,
                count < 0x10_0000_0000_0000,
                bitmap_size == bitmap_words(count as nat, o as nat),
                bitmap_size <= o * (count + 64),
            decreases O - o,
        {
            proof {
                vstd::bits::lemma_u64_shr_is_div((count + 1) as u64, o as u64);
                vstd::arithmetic::power2::lemma_pow2_pos(o as nat);
                vstd::arithmetic::div_mod::lemma_div_is_ordered_by_denominator(
                    (count + 1) as int,
                    1,
                    pow2(o as nat) as int,
                );
                lemma_round_words(((count + 1) as u64) >> (o as u64));
            }
            let size = (count + 1) >> (o as u64);
            let size = (size + 63) & !63u64;
            let size = size / 64;
            proof {
                assert(size <= count + 64);
                assert(o * (count + 64) + count + 64 <= 0xFFFF_0000_0000_0000) by (nonlinear_arith)
                    requires
                        o < 52,
                        count < 0x10_0000_0000_0000,
                ;
            }
            bitmap_size = bitmap_size + size;
            o = o + 1;
            proof {
                assert(bitmap_size <= o * (count + 64)) by (nonlinear_arith)
                    requires
                        bitmap_size <= (o - 1) * (count + 64) + count + 64,
                        o >= 1,
                ;
            }
        }
        proof {
            assert(bitmap_size * 8 <= 0xFFFF_0000_0000_0000) by (nonlinear_arith)
                requires
                    bitmap_size <= O * (count + 64),
                    O < 52,
                    count < 0x10_0000_0000_0000,
            ;
            lemma_round_words((bitmap_size * 8) as u64);
        }
        let bitmap_size_pages = ((bitmap_size * 8 + 4095) & !4095u64) / 4096;
        let start = start + bitmap_size_pages * 4096;
        let count = count - bitmap_size_pages;
        let ghost start2 = start;
        let ghost count2 = count;

        // The bitmaps of every order.
        let mut buddies_state: Vec<Vec<u64>> = Vec::new();
        let mut i: usize = 0;
        while i < O
            invariant
                i <= O < 52,
                count == count2,
                count2 < 0x10_0000_0000_0000,
                count2 <= usize::MAX,
                buddies_state@.len() == i,
                forall|j: int|
                    0 <= j < i ==> #[trigger] buddies_state@[j]@.len() == words_for(
                        count2 as int / pow2(j as nat) as int,
                    ),
                forall|j: int| 0 <= j < i ==> #[trigger] buddies_state@[j]@ == initial_bitmap(count2 as nat, j as nat),
            decreases O - i,
        {
            proof {
                vstd::bits::lemma_u64_shr_is_div(count, i as u64);
                vstd::arithmetic::power2::lemma_pow2_pos(i as nat);
                vstd::arithmetic::div_mod::lemma_div_is_ordered_by_denominator(
                    count as int,
                    1,
                    pow2(i as nat) as int,
                );
                lemma_round_words(count >> (i as u64));
            }
            let level_count = count >> (i as u64);
            let words = ((level_count + 63) & !63u64) / 64;
            proof {
                assert(words <= level_count + 1);
            }
            let mut map: Vec<u64> = vec![0u64; words as usize];
            // If the number of areas is odd, pretend the buddy of the last one is allocated
            // forever.
            if level_count % 2 > 0 {
                let offset = (level_count / 2) & 63;
                assert(offset < 64) by (bit_vector)
                    requires
                        offset == (level_count / 2) & 63,
                ;
                assert(words >= 1);
                let last = map.len() - 1;
                map.set(last, 1u64 << offset);
            }
            assert(map@ == initial_bitmap(count2 as nat, i as nat)) by {
                let level = count2 as nat / pow2(i as nat);
                assert(level_count == level);
                let zeros = Seq::new(words_for(level as int) as nat, |k: int| 0u64);
                if level % 2 > 0 {
                    assert(map@ =~= zeros.update(zeros.len() - 1, 1u64 << (((level / 2) as u64) & 63)));
                } else {
                    assert(map@ =~= zeros);
                }
            }
            buddies_state.push(map);
            i = i + 1;
        }
        buddies_state.push(Vec::new());
        assert(lists_view(buddies_state@) =~= initial_bitmaps(count2 as nat, O as nat));

        let mut free_areas: Vec<Vec<u64>> = Vec::new();
        let mut i: usize = 0;
        while i <= O
            invariant
                i <= O + 1,
                O < 52,
                free_areas@.len() == i,
                forall|j: int| 0 <= j < i ==> #[trigger] free_areas@[j]@.len() == 0,
            decreases O + 1 - i,
        {
            free_areas.push(Vec::new());
            i = i + 1;
        }
        proof {
            lemma_pages_in_empty(lists_view(free_areas@), (O + 1) as nat);
            assert forall|j: int| 0 <= j <= O implies #[trigger] lists_view(free_areas@)[j] == Seq::<u64>::empty() by {
                assert(lists_view(free_areas@)[j] =~= Seq::<u64>::empty());
            }
            assert(lists_view(free_areas@) =~= empty_lists((O + 1) as nat));
        }
        let ghost layout_a = align_areas(
            empty_lists((O + 1) as nat),
            initial_bitmaps(count2 as nat, O as nat),
            start2 as u64,
            count2 as nat,
            0,
            O as nat,
        );

        let mut end = start;
        let mut count = count;
        let ghost mut al: nat = 0;
        proof {
            lemma_area_bytes(0);
            vstd::arithmetic::power2::lemma2_to64();
            assert(area_bytes(0) == 4096);
            assert(((bitmap_size_pages * 4096) as int) % 4096 == 0) by {
                vstd::arithmetic::div_mod::lemma_mod_multiples_basic(bitmap_size_pages as int, 4096);
            }
            lemma_mod_add_sub(start2 - bitmap_size_pages * 4096, (bitmap_size_pages * 4096) as int, 4096);
        }
        // Allocate smaller areas until the alignment for O order areas is satisified.
        let mut i: usize = 0;
        while i < O
            invariant_except_break
                al == i,
            invariant
                i <= O < 52,
                al <= i,
                free_areas@.len() == O + 1,
                buddies_state@.len() == O + 1,
                buddies_state@[O as int]@.len() == 0,
                forall|j: int|
                    0 <= j < O ==> #[trigger] buddies_state@[j]@.len() == words_for(
                        count2 as int / pow2(j as nat) as int,
                    ),
                forall|j: int| i <= j <= O ==> #[trigger] free_areas@[j]@.len() == 0,
                forall|p: int, k: int|
                    #![trigger lists_view(free_areas@)[p][k]]
                    0 <= p <= O && 0 <= k < lists_view(free_areas@)[p].len() ==> {
                        &&& lists_view(free_areas@)[p][k] != 0
                        &&& (lists_view(free_areas@)[p][k] as int) % (area_bytes(p as nat) as int)
                            == 0
                    },
                count <= count2,
                end == start2 + (count2 - count) * 4096,
                start2 + count2 * 4096 <= u64::MAX,
                start2 != 0,
                pages_in(lists_view(free_areas@), (O + 1) as nat) + count == count2,
                (end as int) % (area_bytes(al) as int) == 0,
                layout_a == align_areas(
                    empty_lists((O + 1) as nat),
                    initial_bitmaps(count2 as nat, O as nat),
                    start2 as u64,
                    count2 as nat,
                    0,
                    O as nat,
                ),
                align_areas(lists_view(free_areas@), lists_view(buddies_state@), end, count as nat, i as nat, O as nat)
                    == layout_a,
            ensures
                lists_view(free_areas@) == layout_a.0,
                lists_view(buddies_state@) == layout_a.1,
                end == layout_a.2,
                count == layout_a.3,
                layout_a == align_areas(
                    empty_lists((O + 1) as nat),
                    initial_bitmaps(count2 as nat, O as nat),
                    start2 as u64,
                    count2 as nat,
                    0,
                    O as nat,
                ),
                al <= O,
                al == O || count < pow2(al),
                free_areas@.len() == O + 1,
                buddies_state@.len() == O + 1,
                buddies_state@[O as int]@.len() == 0,
                forall|j: int|
                    0 <= j < O ==> #[trigger] buddies_state@[j]@.len() == words_for(
                        count2 as int / pow2(j as nat) as int,
                    ),
                forall|j: int| al <= j <= O ==> #[trigger] free_areas@[j]@.len() == 0,
                forall|p: int, k: int|
                    #![trigger lists_view(free_areas@)[p][k]]
                    0 <= p <= O && 0 <= k < lists_view(free_areas@)[p].len() ==> {
                        &&& lists_view(free_areas@)[p][k] != 0
                        &&& (lists_view(free_areas@)[p][k] as int) % (area_bytes(p as nat) as int)
                            == 0
                    },
                count <= count2,
                end == start2 + (count2 - count) * 4096,
                pages_in(lists_view(free_areas@), (O + 1) as nat) + count == count2,
                (end as int) % (area_bytes(al) as int) == 0,
            decreases O - i,
        {
            proof {
                vstd::arithmetic::power2::lemma_pow2_strictly_increases(i as nat, 52);
                vstd::arithmetic::power2::lemma2_to64_rest();
                vstd::bits::lemma_u64_shl_is_mul(1, i as u64);
                lemma_area_bytes(i as nat);
            }
            let area_size = 1u64 << (i as u64);
            if area_size > count {
                break;
            }
            proof {
                vstd::arithmetic::div_mod::lemma_div_is_ordered(pow2(i as nat) as int, count2 as int, pow2(i as nat) as int);
                vstd::arithmetic::div_mod::lemma_div_by_self(pow2(i as nat) as int);
            }
            let ghost bm = lists_view(buddies_state@);
            buddies_state[i].set(0, 1);
            assert(lists_view(buddies_state@) =~= bm.update(i as int, bm[i as int].update(0, 1)));
            let ghost fl = lists_view(free_areas@);
            if end & (4096u64 << (i as u64)) > 0 {
                proof {
                    lemma_align_step(end, i as nat);
                    lemma_pages_in_push(fl, i as int, end, (O + 1) as nat);
                    assert(area_bytes(i as nat) == 4096 * pow2(i as nat));
                }
                free_areas[i].push(end);
                assert(lists_view(free_areas@) =~= fl.update(i as int, fl[i as int].push(end)));
                count = count - area_size;
                end = end + (4096u64 << (i as u64));
            } else {
                proof {
                    lemma_align_step(end, i as nat);
                }
            }
            i = i + 1;
            proof {
                al = i as nat;
            }
        }

        // Create as many O order areas as possible. The first one is the head of the list.
        proof {
            vstd::arithmetic::power2::lemma_pow2_strictly_increases(O as nat, 52);
            vstd::arithmetic::power2::lemma2_to64_rest();
            vstd::bits::lemma_u64_shl_is_mul(1, O as u64);
            lemma_area_bytes(O as nat);
        }
        let order_size = 1u64 << (O as u64);
        let ghost layout_b = max_areas(layout_a.0, layout_a.2, layout_a.3, O as nat);
        proof {
            vstd::arithmetic::power2::lemma_pow2_pos(O as nat);
        }
        while count >= order_size
            invariant
                O < 52,
                order_size == pow2(O as nat),
                pow2(O as nat) > 0,
                layout_b == max_areas(layout_a.0, layout_a.2, layout_a.3, O as nat),
                max_areas(lists_view(free_areas@), end, count as nat, O as nat) == layout_b,
                lists_view(buddies_state@) == layout_a.1,
                al <= O,
                al == O || count < pow2(al),
                free_areas@.len() == O + 1,
                forall|p: int, k: int|
                    #![trigger lists_view(free_areas@)[p][k]]
                    0 <= p <= O && 0 <= k < lists_view(free_areas@)[p].len() ==> {
                        &&& lists_view(free_areas@)[p][k] != 0
                        &&& (lists_view(free_areas@)[p][k] as int) % (area_bytes(p as nat) as int)
                            == 0
                    },
                count <= count2,
                end == start2 + (count2 - count) * 4096,
                start2 + count2 * 4096 <= u64::MAX,
                start2 != 0,
                pages_in(lists_view(free_areas@), (O + 1) as nat) + count == count2,
                (end as int) % (area_bytes(al) as int) == 0,
                area_bytes(O as nat) == 4096 * pow2(O as nat),
                4096u64 << (O as u64) == area_bytes(O as nat),
            decreases count,
        {
            let ghost fl = lists_view(free_areas@);
            proof {
                if al < O {
                    vstd::arithmetic::power2::lemma_pow2_strictly_increases(al, O as nat);
                }
                assert(al == O);
                lemma_pages_in_insert_front(fl, O as int, end, (O + 1) as nat);
                assert(fl[O as int].insert(0, end) =~= seq![end] + fl[O as int]);
            }
            free_areas[O].insert(0, end);
            assert(lists_view(free_areas@) =~= fl.update(O as int, seq![end] + fl[O as int]));
            count = count - order_size;
            end = end + (4096u64 << (O as u64));
            proof {
                lemma_area_bytes(O as nat);
                lemma_mod_add_sub(end - area_bytes(O as nat), area_bytes(O as nat) as int, area_bytes(O as nat) as int);
                vstd::arithmetic::div_mod::lemma_mod_self_0(area_bytes(O as nat) as int);
            }
        }

        // Split the remaining pages into appropriately sized areas.
        proof {
            vstd::arithmetic::power2::lemma_pow2_unfold((O + 1) as nat);
        }
        let ghost layout_c = tail_areas(layout_b.0, layout_b.1, layout_b.2, (O + 1) as nat);
        assert(lists_view(free_areas@) == layout_b.0 && end == layout_b.1 && count == layout_b.2);
        let mut order = O + 1;
        while order > 0
            invariant
                layout_c == tail_areas(layout_b.0, layout_b.1, layout_b.2, (O + 1) as nat),
                tail_areas(lists_view(free_areas@), end, count as nat, order as nat) == layout_c,
                lists_view(buddies_state@) == layout_a.1,
                order <= O + 1,
                O < 52,
                al <= O,
                count < pow2(order as nat),
                count < pow2(al) || order <= al,
                free_areas@.len() == O + 1,
                forall|p: int, k: int|
                    #![trigger lists_view(free_areas@)[p][k]]
                    0 <= p <= O && 0 <= k < lists_view(free_areas@)[p].len() ==> {
                        &&& lists_view(free_areas@)[p][k] != 0
                        &&& (lists_view(free_areas@)[p][k] as int) % (area_bytes(p as nat) as int)
                            == 0
                    },
                count <= count2,
                end == start2 + (count2 - count) * 4096,
                start2 + count2 * 4096 <= u64::MAX,
                start2 != 0,
                pages_in(lists_view(free_areas@), (O + 1) as nat) + count == count2,
                order <= al ==> (end as int) % (area_bytes(order as nat) as int) == 0,
                order > al ==> (end as int) % (area_bytes(al) as int) == 0,
            decreases order,
        {
            order = order - 1;
            proof {
                vstd::arithmetic::power2::lemma_pow2_strictly_increases(order as nat, 52);
                vstd::arithmetic::power2::lemma2_to64_rest();
                vstd::bits::lemma_u64_shl_is_mul(1, order as u64);
                lemma_area_bytes(order as nat);
                vstd::arithmetic::power2::lemma_pow2_unfold((order + 1) as nat);
                if order + 1 <= al {
                    lemma_aligned_lower(end as int, (order + 1) as nat, order as nat);
                }
            }
            let order_size = 1u64 << (order as u64);
            if order_size <= count {
                let ghost fl = lists_view(free_areas@);
                proof {
                    if order >= al {
                        vstd::arithmetic::power2::lemma_pow2_strictly_increases(al, order as nat);
                        assert(false);
                    }
                    lemma_pages_in_push(fl, order as int, end, (O + 1) as nat);
                }
                free_areas[order].push(end);
                assert(lists_view(free_areas@) =~= fl.update(order as int, fl[order as int].push(end)));
                count = count - order_size;
                end = end + (4096u64 << (order as u64));
                proof {
                    lemma_mod_add_sub(end - area_bytes(order as nat), area_bytes(order as nat) as int, area_bytes(order as nat) as int);
                    vstd::arithmetic::div_mod::lemma_mod_self_0(area_bytes(order as nat) as int);
                }
            }
        }
        proof {
            vstd::arithmetic::power2::lemma2_to64();
        }
        let r = BuddyAllocator { free_areas, buddies_state, start, end };
        assert(r.free_lists() == lists_view(free_areas@));
        assert(r.free_lists() == layout_c.0);
        proof {
            let c = (count0 - bitmap_pages(count0 as nat, O as nat)) as nat;
            assert(r.start_spec() + c * 4096 == r.end_spec());
            lemma_initial_layout_sound(r.start_spec(), c, O as nat);
        }
        r
    }
}

/// Handing out an area of `order` and taking it back keeps the free areas in range and apart,
/// whatever the bitmaps say.
pub proof fn lemma_allocate_deallocate_sound(
    free: Seq<Seq<u64>>,
    bitmaps: Seq<Seq<u64>>,
    start: u64,
    order: nat,
    o: nat,
    max: nat,
    lo: int,
    hi: int,
)
    requires
        areas_sound(free, lo, hi),
        hi <= 0x1_0000_0000_0000_0000,
        free.len() == max + 1,
        max < 52,
        order <= o <= max,
        free[o as int].len() > 0,
        (free[o as int].last() as int) % (area_bytes(o) as int) == 0,
    ensures
        ({
            let head = free[o as int].last();
            let a = (head + area_bytes(o) - area_bytes(order)) as u64;
            areas_sound(dealloc_lists(alloc_free(free, order, o, head), bitmaps, start, a, order, max).0, lo, hi)
        }),
{
    let head = free[o as int].last();
    lemma_alloc_sound(free, order, o, lo, hi);
    let a = head + area_bytes(o) - area_bytes(order);
    lemma_area_bytes(order);
    lemma_area_bytes(o);
    lemma_aligned_lower(head as int, o, order);
    lemma_aligned_lower(area_bytes(o) as int, o, order);
    vstd::arithmetic::div_mod::lemma_mod_self_0(area_bytes(o) as int);
    vstd::arithmetic::div_mod::lemma_mod_self_0(area_bytes(order) as int);
    lemma_mod_add_sub(head as int, area_bytes(o) as int, area_bytes(order) as int);
    lemma_mod_add_sub(head + area_bytes(o), area_bytes(order) as int, area_bytes(order) as int);
    let f1 = alloc_free(free, order, o, head);
    assert(f1.len() == free.len());
    assert(lo <= a && a + area_bytes(order) <= hi);
    lemma_sizes(order, o);
    assert(0 <= a < 0x1_0000_0000_0000_0000);
    assert((a as u64) as int == a);
    assert(a % (area_bytes(order) as int) == 0);
    assert(apart_from_all(f1, a, order));
    lemma_dealloc_sound(f1, bitmaps, start, a as u64, order, max, lo, hi);
}

/// A set of empty free lists holds no pages.
pub proof fn lemma_pages_in_empty(free: Seq<Seq<u64>>, n: nat)
    requires
        n <= free.len(),
        forall|j: int| 0 <= j < n ==> #[trigger] free[j].len() == 0,
    ensures
        pages_in(free, n) == 0,
    decreases n,
{
    if n > 0 {
        lemma_pages_in_empty(free, (n - 1) as nat);
    }
}

/// Inserting an area at the tail of the free list of order `k` adds `1 << k` pages.
pub proof fn lemma_pages_in_insert_front(free: Seq<Seq<u64>>, k: int, x: u64, n: nat)
    requires
        0 <= k < n <= free.len(),
    ensures
        pages_in(free.update(k, seq![x] + free[k]), n) == pages_in(free, n) + pow2(k as nat),
{
    lemma_pages_in_update(free, k, seq![x] + free[k], n);
    vstd::arithmetic::mul::lemma_mul_is_distributive_add_other_way(
        pow2(k as nat) as int,
        free[k].len() as int,
        1,
    );
}

/// Toggles the bit of the given area in a bitmap and returns whether it is now set.
fn toggle_bit(words: &mut Vec<u64>, index: u64, mask: u64) -> (r: bool)
    ensures
        index < old(words)@.len() ==> final(words)@ == old(words)@.update(
            index as int,
            old(words)@[index as int] ^ mask,
        ) && r == ((old(words)@[index as int] ^ mask) & mask != 0),
        index >= old(words)@.len() ==> final(words)@ == old(words)@ && r,
{
    if index < words.len() as u64 {
        let i = index as usize;
        let w = words[i] ^ mask;
        words.set(i, w);
        w & mask > 0
    } else {
        true
    }
}

} // verus!
