//! The compute side of the single-process diagnostic map report: page
//! classification and per-mapping size figures. Reading the pages and
//! printing the report are the caller's business.

use vstd::prelude::*;

use crate::SwapSlot;

verus! {

/// One entry of a mapping's page table: a resident physical page, or a
/// swapped-out one.
#[derive(Clone, Copy, PartialEq, Eq, Structural, Debug)]
pub enum PageEntry {
    Ram { pfn: u64 },
    Swap { kind: u64, offset: u64 },
}

/// The physical frames of the resident pages, zero frames left out, in
/// order.
pub open spec fn ram_pfns(pages: Seq<PageEntry>) -> Seq<u64>
    decreases pages.len(),
{
    if pages.len() == 0 {
        Seq::empty()
    } else {
        let rest = ram_pfns(pages.drop_last());
        match pages.last() {
            PageEntry::Ram { pfn } => if pfn != 0 {
                rest.push(pfn)
            } else {
                rest
            },
            PageEntry::Swap { .. } => rest,
        }
    }
}

/// The swap slots of the swapped-out pages, in order.
pub open spec fn swap_slots(pages: Seq<PageEntry>) -> Seq<SwapSlot>
    decreases pages.len(),
{
    if pages.len() == 0 {
        Seq::empty()
    } else {
        let rest = swap_slots(pages.drop_last());
        match pages.last() {
            PageEntry::Ram { .. } => rest,
            PageEntry::Swap { kind, offset } => rest.push(SwapSlot { kind, offset }),
        }
    }
}

/// Split a mapping's page table into its resident frames (zero frames
/// dropped) and its swap slots.
pub fn collect_pages(pages: &Vec<PageEntry>) -> (r: (Vec<u64>, Vec<SwapSlot>))
    ensures
        r.0@ == ram_pfns(pages@),
        r.1@ == swap_slots(pages@),
{
    let mut pfns: Vec<u64> = Vec::new();
    let mut slots: Vec<SwapSlot> = Vec::new();
    let n = pages.len();
    let mut i: usize = 0;
    proof {
        assert(pages@.take(0) =~= Seq::<PageEntry>::empty());
    }
    while i < n
        invariant
            0 <= i <= n,
            n == pages@.len(),
            pfns@ == ram_pfns(pages@.take(i as int)),
            slots@ == swap_slots(pages@.take(i as int)),
        decreases n - i,
    {
        proof {
            assert(pages@.take(i + 1).drop_last() =~= pages@.take(i as int));
            assert(pages@.take(i + 1).last() == pages@[i as int]);
        }
        match pages[i] {
            PageEntry::Ram { pfn } => {
                if pfn != 0 {
                    pfns.push(pfn);
                }
            },
            PageEntry::Swap { kind, offset } => {
                slots.push(SwapSlot { kind, offset });
            },
        }
        i = i + 1;
    }
    proof {
        assert(pages@.take(n as int) =~= pages@);
    }
    (pfns, slots)
}

/// One mapping's size figures, all in kiB: virtual size from the address
/// range, resident and swapped sizes from the page counts at 4 kiB a page.
pub fn map_stats(start: u64, end: u64, rss_pages: usize, swap_pages: usize) -> (r: (u64, u64, u64))
    requires
        start <= end,
        rss_pages * 4 <= u64::MAX,
        swap_pages * 4 <= u64::MAX,
    ensures
        r.0 == (end - start) as int / 1024,
        r.1 == rss_pages * 4,
        r.2 == swap_pages * 4,
{
    ((end - start) / 1024, (rss_pages as u64) * 4, (swap_pages as u64) * 4)
}

/// Sum of the first components.
pub open spec fn sum_0(stats: Seq<(u64, u64, u64)>) -> int
    decreases stats.len(),
{
    if stats.len() == 0 {
        0
    } else {
        sum_0(stats.drop_last()) + stats.last().0
    }
}

/// Sum of the second components.
pub open spec fn sum_1(stats: Seq<(u64, u64, u64)>) -> int
    decreases stats.len(),
{
    if stats.len() == 0 {
        0
    } else {
        sum_1(stats.drop_last()) + stats.last().1
    }
}

/// Sum of the third components.
pub open spec fn sum_2(stats: Seq<(u64, u64, u64)>) -> int
    decreases stats.len(),
{
    if stats.len() == 0 {
        0
    } else {
        sum_2(stats.drop_last()) + stats.last().2
    }
}

/// Total the per-mapping figures, wide enough that no total can overflow:
/// (virtual, resident, swapped), in kiB.
pub fn totals(stats: &Vec<(u64, u64, u64)>) -> (t: (u128, u128, u128))
    ensures
        t.0 as int == sum_0(stats@),
        t.1 as int == sum_1(stats@),
        t.2 as int == sum_2(stats@),
{
    let n = stats.len();
    let mut a: u128 = 0;
    let mut b: u128 = 0;
    let mut c: u128 = 0;
    let mut i: usize = 0;
    proof {
        assert(stats@.take(0) =~= Seq::<(u64, u64, u64)>::empty());
    }
    while i < n
        invariant
            0 <= i <= n,
            n == stats@.len(),
            a as int == sum_0(stats@.take(i as int)),
            b as int == sum_1(stats@.take(i as int)),
            c as int == sum_2(stats@.take(i as int)),
            a as int <= (i as int) * 0xffff_ffff_ffff_ffffu64,
            b as int <= (i as int) * 0xffff_ffff_ffff_ffffu64,
            c as int <= (i as int) * 0xffff_ffff_ffff_ffffu64,
        decreases n - i,
    {
        proof {
            assert(stats@.take(i + 1).drop_last() =~= stats@.take(i as int));
            assert(stats@.take(i + 1).last() == stats@[i as int]);
            assert((i as int) * 0xffff_ffff_ffff_ffffu64 + 0xffff_ffff_ffff_ffffu64 == (i + 1)
                * 0xffff_ffff_ffff_ffffu64) by (nonlinear_arith);
            assert((i + 1) * 0xffff_ffff_ffff_ffffu64 <= 0xffff_ffff_ffff_ffffu64
                * 0xffff_ffff_ffff_ffffu64) by (nonlinear_arith)
                requires
                    0 <= i,
                    i + 1 <= 0xffff_ffff_ffff_ffffu64,
            ;
        }
        let s = stats[i];
        a = a + (s.0 as u128);
        b = b + (s.1 as u128);
        c = c + (s.2 as u128);
        i = i + 1;
    }
    proof {
        assert(stats@.take(n as int) =~= stats@);
    }
    (a, b, c)
}

} // verus!
