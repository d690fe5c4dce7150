//! The deduplication and reporting engine: for every group, its memory
//! figures against the union of all other groups, in MiB.
//!
//! For a group G against the other groups O: the effective frame set of a
//! group is its own resident frames plus the recorded frames of every
//! shared-memory segment it references; `resident` counts G's effective
//! frames, `unique` counts those in no other group's effective set; the swap
//! figures work the same way over swap slots (segments contribute nothing
//! there); the shared-memory figures sum the referenced segments' own
//! recorded byte totals, undeduplicated - a deliberate approximation.

use vstd::prelude::*;

use crate::vecset::{pfn_diff_count, pfn_union_into, slot_diff_count, slot_union_into};
use vstd::multiset::Multiset;
use crate::{ProcessGroupInfo, ShmSegment, ShmsMetadata};

verus! {

broadcast use vstd::seq_lib::group_seq_properties, vstd::set_lib::group_set_lib_default, vstd::set::group_set_axioms, vstd::seq_lib::group_to_multiset_ensures;

/// MiB figure for `pages` pages of `page_size` bytes, integer-truncated.
pub open spec fn pages_mib(pages: int, page_size: int) -> int {
    pages * page_size / 1024 / 1024
}

/// MiB figure for a byte total, integer-truncated.
pub open spec fn bytes_mib(bytes: int) -> int {
    bytes / 1024 / 1024
}

/// The union of the recorded frame sets of `segs`, read from the metadata
/// table.
pub open spec fn shm_pfns_union(meta: &ShmsMetadata, segs: Seq<ShmSegment>) -> Set<u64>
    decreases segs.len(),
{
    if segs.len() == 0 {
        Set::empty()
    } else {
        shm_pfns_union(meta, segs.drop_last()).union(meta.seg_pfns(segs.last()))
    }
}

/// A group's effective frame set: its own resident frames plus the recorded
/// frames of every segment it references.
pub open spec fn effective_pfns(meta: &ShmsMetadata, g: ProcessGroupInfo) -> Set<u64> {
    g.pfns@.to_set().union(shm_pfns_union(meta, g.referenced_shm@))
}

/// The union of the effective frame sets of the first `k` groups, leaving
/// group `i` out.
pub open spec fn others_pfns_up_to(
    groups: Seq<ProcessGroupInfo>,
    meta: &ShmsMetadata,
    i: int,
    k: int,
) -> Set<u64>
    decreases k,
{
    if k <= 0 {
        Set::empty()
    } else {
        others_pfns_up_to(groups, meta, i, k - 1).union(
            if k - 1 == i {
                Set::empty()
            } else {
                effective_pfns(meta, groups[k - 1])
            },
        )
    }
}

/// The union of the effective frame sets of every group but `i`.
pub open spec fn other_pfns(groups: Seq<ProcessGroupInfo>, meta: &ShmsMetadata, i: int) -> Set<
    u64,
> {
    others_pfns_up_to(groups, meta, i, groups.len() as int)
}

/// The union of the swap-slot sets of the first `k` groups, leaving group
/// `i` out.
pub open spec fn others_swap_up_to(groups: Seq<ProcessGroupInfo>, i: int, k: int) -> Set<
    crate::SwapSlot,
>
    decreases k,
{
    if k <= 0 {
        Set::empty()
    } else {
        others_swap_up_to(groups, i, k - 1).union(
            if k - 1 == i {
                Set::empty()
            } else {
                groups[k - 1].swap_pages@.to_set()
            },
        )
    }
}

/// The union of the swap-slot sets of every group but `i`.
pub open spec fn other_swap(groups: Seq<ProcessGroupInfo>, i: int) -> Set<crate::SwapSlot> {
    others_swap_up_to(groups, i, groups.len() as int)
}

/// Sum of the referenced segments' own recorded resident bytes.
pub open spec fn shm_rss_sum(segs: Seq<ShmSegment>) -> int
    decreases segs.len(),
{
    if segs.len() == 0 {
        0
    } else {
        shm_rss_sum(segs.drop_last()) + segs.last().rss
    }
}

/// Sum of the referenced segments' own recorded swapped bytes.
pub open spec fn shm_swap_sum(segs: Seq<ShmSegment>) -> int
    decreases segs.len(),
{
    if segs.len() == 0 {
        0
    } else {
        shm_swap_sum(segs.drop_last()) + segs.last().swap
    }
}

/// How many effective frames group `i` holds.
pub open spec fn resident_pages(groups: Seq<ProcessGroupInfo>, meta: &ShmsMetadata, i: int) -> int {
    effective_pfns(meta, groups[i]).len() as int
}

/// How many effective frames group `i` holds that no other group does.
pub open spec fn unique_pages(groups: Seq<ProcessGroupInfo>, meta: &ShmsMetadata, i: int) -> int {
    effective_pfns(meta, groups[i]).difference(other_pfns(groups, meta, i)).len() as int
}

/// How many swap slots group `i` occupies.
pub open spec fn swap_rss_pages(groups: Seq<ProcessGroupInfo>, i: int) -> int {
    groups[i].swap_pages@.to_set().len() as int
}

/// How many swap slots group `i` occupies that no other group does.
pub open spec fn swap_uss_pages(groups: Seq<ProcessGroupInfo>, i: int) -> int {
    groups[i].swap_pages@.to_set().difference(other_swap(groups, i)).len() as int
}

/// Every group aggregate in the sequence is well formed.
pub open spec fn groups_wf(groups: Seq<ProcessGroupInfo>) -> bool {
    forall|i: int| 0 <= i < groups.len() ==> (#[trigger] groups[i]).wf()
}

/// One line of the report: a group's name, how many processes it holds, and
/// its six memory figures in MiB. `group_index` is the group's position in
/// the splitter's group list.
#[derive(Clone, Debug)]
pub struct ReportRow {
    pub name: String,
    pub group_index: usize,
    pub processes_count: usize,
    pub mem_rss: u64,
    pub mem_uss: u64,
    pub swap_rss: u64,
    pub swap_uss: u64,
    pub shm_mem: u64,
    pub shm_swap: u64,
}

/// The row owed to group `i`.
pub open spec fn row_of(
    groups: Seq<ProcessGroupInfo>,
    meta: &ShmsMetadata,
    page_size: int,
    i: int,
) -> ReportRow {
    ReportRow {
        name: groups[i].name,
        group_index: i as usize,
        processes_count: groups[i].processes_info@.len() as usize,
        mem_rss: pages_mib(resident_pages(groups, meta, i), page_size) as u64,
        mem_uss: pages_mib(unique_pages(groups, meta, i), page_size) as u64,
        swap_rss: pages_mib(swap_rss_pages(groups, i), page_size) as u64,
        swap_uss: pages_mib(swap_uss_pages(groups, i), page_size) as u64,
        shm_mem: bytes_mib(shm_rss_sum(groups[i].referenced_shm@)) as u64,
        shm_swap: bytes_mib(shm_swap_sum(groups[i].referenced_shm@)) as u64,
    }
}

/// The rows owed to the groups, one each, in group order.
pub open spec fn spec_rows(groups: Seq<ProcessGroupInfo>, meta: &ShmsMetadata, page_size: int) -> Seq<
    ReportRow,
> {
    Seq::new(groups.len(), |i: int| row_of(groups, meta, page_size, i))
}

/// Group `i`'s figures stay within the machine's range: each MiB value fits
/// a `u64` and the byte sums do too.
pub open spec fn row_fits(
    groups: Seq<ProcessGroupInfo>,
    meta: &ShmsMetadata,
    page_size: int,
    i: int,
) -> bool {
    &&& pages_mib(resident_pages(groups, meta, i), page_size) <= u64::MAX
    &&& pages_mib(swap_rss_pages(groups, i), page_size) <= u64::MAX
    &&& shm_rss_sum(groups[i].referenced_shm@) <= u64::MAX
    &&& shm_swap_sum(groups[i].referenced_shm@) <= u64::MAX
}

/// Every group's figures stay within the machine's range.
pub open spec fn report_fits(groups: Seq<ProcessGroupInfo>, meta: &ShmsMetadata, page_size: int) -> bool {
    forall|i: int| 0 <= i < groups.len() ==> row_fits(groups, meta, page_size, i)
}

/// Build the vector of group `g`'s effective frames, duplicate-free.
fn effective_pfns_vec(meta: &ShmsMetadata, g: &ProcessGroupInfo) -> (v: Vec<u64>)
    ensures
        v@.no_duplicates(),
        v@.to_set() == effective_pfns(meta, *g),
{
    let mut v: Vec<u64> = Vec::new();
    pfn_union_into(&mut v, &g.pfns);
    proof {
        assert(v@.to_set() =~= g.pfns@.to_set());
    }
    let n = g.referenced_shm.len();
    let mut k: usize = 0;
    proof {
        assert(g.referenced_shm@.take(0) =~= Seq::<ShmSegment>::empty());
    }
    while k < n
        invariant
            0 <= k <= n,
            n == g.referenced_shm@.len(),
            v@.no_duplicates(),
            v@.to_set() == g.pfns@.to_set().union(
                shm_pfns_union(meta, g.referenced_shm@.take(k as int)),
            ),
        decreases n - k,
    {
        proof {
            assert(g.referenced_shm@.take(k + 1).drop_last() =~= g.referenced_shm@.take(k as int));
            assert(g.referenced_shm@.take(k + 1).last() == g.referenced_shm@[k as int]);
        }
        let seg = g.referenced_shm[k];
        match meta.lookup_pages(seg) {
            Some(p) => {
                pfn_union_into(&mut v, &p.pfns);
            },
            None => {
            },
        }
        proof {
            assert(v@.to_set() =~= g.pfns@.to_set().union(
                shm_pfns_union(meta, g.referenced_shm@.take(k + 1)),
            ));
        }
        k = k + 1;
    }
    proof {
        assert(g.referenced_shm@.take(n as int) =~= g.referenced_shm@);
    }
    v
}

/// Build the vector of the effective frames of every group but `i`,
/// duplicate-free.
fn other_pfns_vec(groups: &Vec<ProcessGroupInfo>, meta: &ShmsMetadata, i: usize) -> (v: Vec<u64>)
    ensures
        v@.no_duplicates(),
        v@.to_set() == other_pfns(groups@, meta, i as int),
{
    let mut v: Vec<u64> = Vec::new();
    let n = groups.len();
    let mut j: usize = 0;
    while j < n
        invariant
            0 <= j <= n,
            n == groups@.len(),
            v@.no_duplicates(),
            v@.to_set() == others_pfns_up_to(groups@, meta, i as int, j as int),
        decreases n - j,
    {
        if j != i {
            let ev = effective_pfns_vec(meta, &groups[j]);
            pfn_union_into(&mut v, &ev);
        }
        proof {
            assert(v@.to_set() =~= others_pfns_up_to(groups@, meta, i as int, j + 1));
        }
        j = j + 1;
    }
    v
}

/// Build the vector of the swap slots of every group but `i`,
/// duplicate-free.
fn other_swap_vec(groups: &Vec<ProcessGroupInfo>, i: usize) -> (v: Vec<crate::SwapSlot>)
    ensures
        v@.no_duplicates(),
        v@.to_set() == other_swap(groups@, i as int),
{
    let mut v: Vec<crate::SwapSlot> = Vec::new();
    let n = groups.len();
    let mut j: usize = 0;
    while j < n
        invariant
            0 <= j <= n,
            n == groups@.len(),
            v@.no_duplicates(),
            v@.to_set() == others_swap_up_to(groups@, i as int, j as int),
        decreases n - j,
    {
        if j != i {
            slot_union_into(&mut v, &groups[j].swap_pages);
        }
        proof {
            assert(v@.to_set() =~= others_swap_up_to(groups@, i as int, j + 1));
        }
        j = j + 1;
    }
    v
}

/// Sum the referenced segments' recorded resident bytes, wide enough that
/// no total can overflow.
fn sum_shm_rss(segs: &Vec<ShmSegment>) -> (s: u128)
    ensures
        s as int == shm_rss_sum(segs@),
{
    let n = segs.len();
    let mut s: u128 = 0;
    let mut k: usize = 0;
    proof {
        assert(segs@.take(0) =~= Seq::<ShmSegment>::empty());
    }
    while k < n
        invariant
            0 <= k <= n,
            n == segs@.len(),
            s as int == shm_rss_sum(segs@.take(k as int)),
            s as int <= (k as int) * 0xffff_ffff_ffff_ffffu64,
        decreases n - k,
    {
        proof {
            assert(segs@.take(k + 1).drop_last() =~= segs@.take(k as int));
            assert(segs@.take(k + 1).last() == segs@[k as int]);
            assert((k as int) * 0xffff_ffff_ffff_ffffu64 + 0xffff_ffff_ffff_ffffu64 == (k + 1)
                * 0xffff_ffff_ffff_ffffu64) by (nonlinear_arith);
            assert((k + 1) * 0xffff_ffff_ffff_ffffu64 <= 0xffff_ffff_ffff_ffffu64
                * 0xffff_ffff_ffff_ffffu64) by (nonlinear_arith)
                requires
                    0 <= k,
                    k + 1 <= 0xffff_ffff_ffff_ffffu64,
            ;
        }
        s = s + (segs[k].rss as u128);
        k = k + 1;
    }
    proof {
        assert(segs@.take(n as int) =~= segs@);
    }
    s
}

/// Sum the referenced segments' recorded swapped bytes, wide enough that no
/// total can overflow.
fn sum_shm_swap(segs: &Vec<ShmSegment>) -> (s: u128)
    ensures
        s as int == shm_swap_sum(segs@),
{
    let n = segs.len();
    let mut s: u128 = 0;
    let mut k: usize = 0;
    proof {
        assert(segs@.take(0) =~= Seq::<ShmSegment>::empty());
    }
    while k < n
        invariant
            0 <= k <= n,
            n == segs@.len(),
            s as int == shm_swap_sum(segs@.take(k as int)),
            s as int <= (k as int) * 0xffff_ffff_ffff_ffffu64,
        decreases n - k,
    {
        proof {
            assert(segs@.take(k + 1).drop_last() =~= segs@.take(k as int));
            assert(segs@.take(k + 1).last() == segs@[k as int]);
            assert((k as int) * 0xffff_ffff_ffff_ffffu64 + 0xffff_ffff_ffff_ffffu64 == (k + 1)
                * 0xffff_ffff_ffff_ffffu64) by (nonlinear_arith);
            assert((k + 1) * 0xffff_ffff_ffff_ffffu64 <= 0xffff_ffff_ffff_ffffu64
                * 0xffff_ffff_ffff_ffffu64) by (nonlinear_arith)
                requires
                    0 <= k,
                    k + 1 <= 0xffff_ffff_ffff_ffffu64,
            ;
        }
        s = s + (segs[k].swap as u128);
        k = k + 1;
    }
    proof {
        assert(segs@.take(n as int) =~= segs@);
    }
    s
}

/// One group's six figures, in MiB, wide enough that none can overflow.
pub struct GroupMetrics {
    pub mem_rss: u128,
    pub mem_uss: u128,
    pub swap_rss: u128,
    pub swap_uss: u128,
    pub shm_mem: u128,
    pub shm_swap: u128,
}

/// MiB from a page count, computed wide.
fn pages_mib_wide(pages: usize, page_size: u64) -> (r: u128)
    ensures
        r as int == pages_mib(pages as int, page_size as int),
{
    proof {
        assert((pages as int) * (page_size as int) <= 0xffff_ffff_ffff_ffffu64
            * 0xffff_ffff_ffff_ffffu64) by (nonlinear_arith)
            requires
                0 <= pages as int <= 0xffff_ffff_ffff_ffffu64,
                0 <= page_size as int <= 0xffff_ffff_ffff_ffffu64,
        ;
    }
    let prod: u128 = (pages as u128) * (page_size as u128);
    prod / 1024 / 1024
}

/// Compute group `i`'s figures against all the other groups.
pub fn group_metrics(
    groups: &Vec<ProcessGroupInfo>,
    meta: &ShmsMetadata,
    page_size: u64,
    i: usize,
) -> (m: GroupMetrics)
    requires
        groups_wf(groups@),
        i < groups@.len(),
    ensures
        m.mem_rss as int == pages_mib(resident_pages(groups@, meta, i as int), page_size as int),
        m.mem_uss as int == pages_mib(unique_pages(groups@, meta, i as int), page_size as int),
        m.swap_rss as int == pages_mib(swap_rss_pages(groups@, i as int), page_size as int),
        m.swap_uss as int == pages_mib(swap_uss_pages(groups@, i as int), page_size as int),
        m.shm_mem as int == bytes_mib(shm_rss_sum(groups@[i as int].referenced_shm@)),
        m.shm_swap as int == bytes_mib(shm_swap_sum(groups@[i as int].referenced_shm@)),
{
    let g = &groups[i];
    let eff = effective_pfns_vec(meta, g);
    let others = other_pfns_vec(groups, meta, i);
    let oswap = other_swap_vec(groups, i);

    let rss_pages = eff.len();
    proof {
        eff@.unique_seq_to_set();
    }
    let uss_pages = pfn_diff_count(&eff, &others);

    let srss_pages = g.swap_pages.len();
    proof {
        g.swap_pages@.unique_seq_to_set();
    }
    let suss_pages = slot_diff_count(&g.swap_pages, &oswap);

    let rss_bytes = sum_shm_rss(&g.referenced_shm);
    let swap_bytes = sum_shm_swap(&g.referenced_shm);
    proof {
        assert(shm_rss_sum(g.referenced_shm@) / 1024 / 1024 == bytes_mib(
            shm_rss_sum(g.referenced_shm@),
        ));
    }
    GroupMetrics {
        mem_rss: pages_mib_wide(rss_pages, page_size),
        mem_uss: pages_mib_wide(uss_pages, page_size),
        swap_rss: pages_mib_wide(srss_pages, page_size),
        swap_uss: pages_mib_wide(suss_pages, page_size),
        shm_mem: rss_bytes / 1024 / 1024,
        shm_swap: swap_bytes / 1024 / 1024,
    }
}


/// Row `a` may stand at or before row `b`: larger resident figure first,
/// ties by the groups' original order.
pub open spec fn row_le(a: ReportRow, b: ReportRow) -> bool {
    a.mem_rss > b.mem_rss || (a.mem_rss == b.mem_rss && a.group_index <= b.group_index)
}

/// The rows are non-increasing by resident figure, ties in original group
/// order.
pub open spec fn sorted_rows(rows: Seq<ReportRow>) -> bool {
    forall|k1: int, k2: int|
        0 <= k1 <= k2 < rows.len() ==> #[trigger] row_le(rows[k1], rows[k2])
}

/// Whether row `a` must stand strictly before row `b`.
fn row_before(a: &ReportRow, b: &ReportRow) -> (r: bool)
    ensures
        r == (a.mem_rss > b.mem_rss || (a.mem_rss == b.mem_rss && a.group_index < b.group_index)),
{
    a.mem_rss > b.mem_rss || (a.mem_rss == b.mem_rss && a.group_index < b.group_index)
}

/// The position of the row that may stand before every other one.
fn best_index(rows: &Vec<ReportRow>) -> (b: usize)
    requires
        rows@.len() > 0,
    ensures
        b < rows@.len(),
        forall|k: int| 0 <= k < rows@.len() ==> row_le(rows@[b as int], #[trigger] rows@[k]),
{
    let n = rows.len();
    let mut best: usize = 0;
    let mut k: usize = 1;
    while k < n
        invariant
            0 <= best < k <= n,
            n == rows@.len(),
            forall|m: int| 0 <= m < k ==> row_le(rows@[best as int], #[trigger] rows@[m]),
        decreases n - k,
    {
        if row_before(&rows[k], &rows[best]) {
            best = k;
        }
        k = k + 1;
    }
    best
}

/// Sort the rows: non-increasing by resident figure, ties in original group
/// order; a permutation of the input.
fn sort_rows(rows: Vec<ReportRow>) -> (out: Vec<ReportRow>)
    ensures
        out@.len() == rows@.len(),
        out@.to_multiset() == rows@.to_multiset(),
        sorted_rows(out@),
{
    broadcast use vstd::multiset::group_multiset_axioms;

    let ghost orig = rows@;
    let mut rem = rows;
    let mut out: Vec<ReportRow> = Vec::new();
    while rem.len() > 0
        invariant
            out@.len() + rem@.len() == orig.len(),
            out@.to_multiset().add(rem@.to_multiset()) == orig.to_multiset(),
            sorted_rows(out@),
            forall|a: int, b: int|
                0 <= a < out@.len() && 0 <= b < rem@.len() ==> #[trigger] row_le(
                    out@[a],
                    #[trigger] rem@[b],
                ),
        decreases rem@.len(),
    {
        let ghost pre_out = out@;
        let ghost pre_rem = rem@;
        let b = best_index(&rem);
        let x = rem.remove(b);
        out.push(x);
        proof {
            assert(pre_rem.contains(pre_rem[b as int]));
            assert(pre_rem.to_multiset().count(x) > 0);
            assert(out@.to_multiset() =~= pre_out.to_multiset().insert(x));
            assert(rem@.to_multiset() =~= pre_rem.to_multiset().remove(x));
            assert(out@.to_multiset().add(rem@.to_multiset()) =~= orig.to_multiset());
            assert(out@ == pre_out.push(x));
            assert(forall|a: int| 0 <= a < pre_out.len() ==> out@[a] == pre_out[a]);
            assert(forall|k1: int, k2: int|
                0 <= k1 <= k2 < out@.len() ==> #[trigger] row_le(out@[k1], out@[k2]));
            assert(forall|c: int|
                0 <= c < rem@.len() ==> #[trigger] rem@[c] == pre_rem[if c < b as int {
                    c
                } else {
                    c + 1
                }]);
        }
    }
    proof {
        assert(rem@.to_multiset() =~= Multiset::<ReportRow>::empty());
        assert(out@.to_multiset() =~= orig.to_multiset());
        assert(out@.to_multiset().len() == out@.len());
        assert(orig.to_multiset().len() == orig.len());
    }
    out
}

/// What the report owes: one row per group, each row the figures of the
/// group its `group_index` names, ordered by non-increasing resident figure
/// with ties in original group order, and as a whole a permutation of the
/// groups' rows.
pub open spec fn report_post(
    groups: Seq<ProcessGroupInfo>,
    meta: &ShmsMetadata,
    page_size: int,
    rows: Seq<ReportRow>,
) -> bool {
    &&& rows.len() == groups.len()
    &&& rows.to_multiset() == spec_rows(groups, meta, page_size).to_multiset()
    &&& sorted_rows(rows)
    &&& forall|k: int|
        0 <= k < rows.len() ==> 0 <= (#[trigger] rows[k]).group_index < groups.len() && rows[k]
            == row_of(groups, meta, page_size, rows[k].group_index as int)
}

/// The recorded frame set of any one segment is finite.
proof fn lemma_seg_pfns_of_finite(entries: Seq<crate::ShmEntry>, seg: ShmSegment)
    ensures
        crate::seg_pfns_of(entries, seg).finite(),
    decreases entries.len(),
{
    if entries.len() == 0 {
    } else if entries.last().segment == seg {
    } else {
        lemma_seg_pfns_of_finite(entries.drop_last(), seg);
    }
}

/// The union of the recorded frame sets of any segment list is finite.
proof fn lemma_shm_pfns_union_finite(meta: &ShmsMetadata, segs: Seq<ShmSegment>)
    ensures
        shm_pfns_union(meta, segs).finite(),
    decreases segs.len(),
{
    if segs.len() == 0 {
    } else {
        lemma_shm_pfns_union_finite(meta, segs.drop_last());
        lemma_seg_pfns_of_finite(meta.entries@, segs.last());
    }
}

/// A group's effective frame set is finite.
pub proof fn lemma_effective_pfns_finite(meta: &ShmsMetadata, g: ProcessGroupInfo)
    ensures
        effective_pfns(meta, g).finite(),
{
    lemma_shm_pfns_union_finite(meta, g.referenced_shm@);
}

/// MiB figures grow with the page count.
proof fn lemma_pages_mib_mono(a: int, b: int, page_size: int)
    requires
        0 <= a <= b,
        0 <= page_size,
    ensures
        pages_mib(a, page_size) <= pages_mib(b, page_size),
{
    vstd::arithmetic::mul::lemma_mul_inequality(a, b, page_size);
    vstd::arithmetic::div_mod::lemma_div_is_ordered(a * page_size, b * page_size, 1024);
    vstd::arithmetic::div_mod::lemma_div_is_ordered(a * page_size / 1024, b * page_size / 1024, 1024);
}

/// Compute the report: every group's figures against all the others, sorted
/// by non-increasing resident figure, ties in original group order.
pub fn report(groups: &Vec<ProcessGroupInfo>, meta: &ShmsMetadata, page_size: u64) -> (rows: Vec<
    ReportRow,
>)
    requires
        groups_wf(groups@),
        report_fits(groups@, meta, page_size as int),
    ensures
        report_post(groups@, meta, page_size as int, rows@),
{
    let ghost psz = page_size as int;
    let n = groups.len();
    let mut unsorted: Vec<ReportRow> = Vec::new();
    let mut i: usize = 0;
    while i < n
        invariant
            0 <= i <= n,
            n == groups@.len(),
            groups_wf(groups@),
            report_fits(groups@, meta, psz),
            psz == page_size as int,
            unsorted@.len() == i,
            forall|k: int| 0 <= k < i ==> #[trigger] unsorted@[k] == row_of(groups@, meta, psz, k),
        decreases n - i,
    {
        let m = group_metrics(groups, meta, page_size, i);
        proof {
            assert(row_fits(groups@, meta, psz, i as int));
            lemma_effective_pfns_finite(meta, groups@[i as int]);
            assert(effective_pfns(meta, groups@[i as int]).difference(
                other_pfns(groups@, meta, i as int),
            ).subset_of(effective_pfns(meta, groups@[i as int])));
            vstd::set_lib::lemma_len_subset(
                effective_pfns(meta, groups@[i as int]).difference(
                    other_pfns(groups@, meta, i as int),
                ),
                effective_pfns(meta, groups@[i as int]),
            );
            lemma_pages_mib_mono(
                unique_pages(groups@, meta, i as int),
                resident_pages(groups@, meta, i as int),
                psz,
            );
            assert(groups@[i as int].swap_pages@.to_set().difference(
                other_swap(groups@, i as int),
            ).subset_of(groups@[i as int].swap_pages@.to_set()));
            vstd::set_lib::lemma_len_subset(
                groups@[i as int].swap_pages@.to_set().difference(other_swap(groups@, i as int)),
                groups@[i as int].swap_pages@.to_set(),
            );
            lemma_pages_mib_mono(
                swap_uss_pages(groups@, i as int),
                swap_rss_pages(groups@, i as int),
                psz,
            );
            assert(m.shm_mem as int <= shm_rss_sum(groups@[i as int].referenced_shm@)) by {
                assert(shm_rss_sum(groups@[i as int].referenced_shm@) / 1024 / 1024 <= shm_rss_sum(
                    groups@[i as int].referenced_shm@,
                )) by (nonlinear_arith)
                    requires
                        shm_rss_sum(groups@[i as int].referenced_shm@) >= 0,
                ;
            }
            assert(m.shm_swap as int <= shm_swap_sum(groups@[i as int].referenced_shm@)) by {
                assert(shm_swap_sum(groups@[i as int].referenced_shm@) / 1024 / 1024
                    <= shm_swap_sum(groups@[i as int].referenced_shm@)) by (nonlinear_arith)
                    requires
                        shm_swap_sum(groups@[i as int].referenced_shm@) >= 0,
                ;
            }
        }
        let g = &groups[i];
        let row = ReportRow {
            name: g.name.clone(),
            group_index: i,
            processes_count: g.processes_info.len(),
            mem_rss: m.mem_rss as u64,
            mem_uss: m.mem_uss as u64,
            swap_rss: m.swap_rss as u64,
            swap_uss: m.swap_uss as u64,
            shm_mem: m.shm_mem as u64,
            shm_swap: m.shm_swap as u64,
        };
        unsorted.push(row);
        proof {
            assert(unsorted@[i as int] == row_of(groups@, meta, psz, i as int));
        }
        i = i + 1;
    }
    proof {
        assert(unsorted@ =~= spec_rows(groups@, meta, psz));
    }
    let rows = sort_rows(unsorted);
    proof {
        let srows = spec_rows(groups@, meta, psz);
        assert forall|k: int| 0 <= k < rows@.len() implies 0 <= (#[trigger] rows@[k]).group_index
            < groups@.len() && rows@[k] == row_of(groups@, meta, psz, rows@[k].group_index as int) by {
            let r = rows@[k];
            assert(rows@.contains(r));
            assert(rows@.to_multiset().count(r) > 0);
            assert(srows.to_multiset().count(r) > 0);
            assert(srows.contains(r));
            let j = choose|j: int| 0 <= j < srows.len() && srows[j] == r;
            assert(r == row_of(groups@, meta, psz, j));
            assert(r.group_index == j as usize);
        }
    }
    rows
}

/// Compute the report after checking that every figure fits the machine's
/// range; `None` exactly when one does not.
pub fn try_report(groups: &Vec<ProcessGroupInfo>, meta: &ShmsMetadata, page_size: u64) -> (r:
    Option<Vec<ReportRow>>)
    requires
        groups_wf(groups@),
    ensures
        match r {
            Some(rows) => report_fits(groups@, meta, page_size as int) && report_post(
                groups@,
                meta,
                page_size as int,
                rows@,
            ),
            None => !report_fits(groups@, meta, page_size as int),
        },
{
    let ghost psz = page_size as int;
    let n = groups.len();
    let mut i: usize = 0;
    while i < n
        invariant
            0 <= i <= n,
            n == groups@.len(),
            groups_wf(groups@),
            psz == page_size as int,
            forall|j: int| 0 <= j < i ==> row_fits(groups@, meta, psz, j),
        decreases n - i,
    {
        let m = group_metrics(groups, meta, page_size, i);
        let rss_bytes = sum_shm_rss(&groups[i].referenced_shm);
        let swap_bytes = sum_shm_swap(&groups[i].referenced_shm);
        let cap: u128 = 0xffff_ffff_ffff_ffffu64 as u128;
        if m.mem_rss > cap || m.swap_rss > cap || rss_bytes > cap || swap_bytes > cap {
            proof {
                assert(!row_fits(groups@, meta, psz, i as int));
            }
            return None;
        }
        i = i + 1;
    }
    Some(report(groups, meta, page_size))
}

/// A group whose effective frames no other group touches keeps them all as
/// unique: its unique figure equals its resident figure.
pub proof fn law_disjoint_dedup(groups: Seq<ProcessGroupInfo>, meta: &ShmsMetadata, i: int)
    requires
        0 <= i < groups.len(),
        effective_pfns(meta, groups[i]).disjoint(other_pfns(groups, meta, i)),
    ensures
        unique_pages(groups, meta, i) == resident_pages(groups, meta, i),
{
    assert(effective_pfns(meta, groups[i]).difference(other_pfns(groups, meta, i))
        =~= effective_pfns(meta, groups[i]));
}

/// Two groups with no effective frames in common: each keeps its whole
/// resident figure as unique.
pub proof fn law_disjoint_dedup_two_groups(groups: Seq<ProcessGroupInfo>, meta: &ShmsMetadata)
    requires
        groups.len() == 2,
        effective_pfns(meta, groups[0]).disjoint(effective_pfns(meta, groups[1])),
    ensures
        unique_pages(groups, meta, 0) == resident_pages(groups, meta, 0),
        unique_pages(groups, meta, 1) == resident_pages(groups, meta, 1),
{
    assert(others_pfns_up_to(groups, meta, 0, 0) =~= Set::<u64>::empty());
    assert(others_pfns_up_to(groups, meta, 0, 1) =~= Set::<u64>::empty());
    assert(other_pfns(groups, meta, 0) =~= effective_pfns(meta, groups[1]));
    assert(others_pfns_up_to(groups, meta, 1, 0) =~= Set::<u64>::empty());
    assert(others_pfns_up_to(groups, meta, 1, 1) =~= effective_pfns(meta, groups[0]));
    assert(other_pfns(groups, meta, 1) =~= effective_pfns(meta, groups[0]));
    law_disjoint_dedup(groups, meta, 0);
    assert(effective_pfns(meta, groups[1]).disjoint(effective_pfns(meta, groups[0])));
    law_disjoint_dedup(groups, meta, 1);
}

/// A group whose effective frames all lie in other groups' effective sets
/// has a unique figure of zero.
pub proof fn law_full_overlap(groups: Seq<ProcessGroupInfo>, meta: &ShmsMetadata, i: int)
    requires
        0 <= i < groups.len(),
        effective_pfns(meta, groups[i]).subset_of(other_pfns(groups, meta, i)),
    ensures
        unique_pages(groups, meta, i) == 0,
{
    assert(effective_pfns(meta, groups[i]).difference(other_pfns(groups, meta, i))
        =~= Set::<u64>::empty());
}

/// Two sorted row sequences over the same rows, each row pinned by its
/// group index, are identical.
proof fn lemma_sorted_unique(
    groups: Seq<ProcessGroupInfo>,
    meta: &ShmsMetadata,
    page_size: int,
    a: Seq<ReportRow>,
    b: Seq<ReportRow>,
)
    requires
        sorted_rows(a),
        sorted_rows(b),
        a.to_multiset() == b.to_multiset(),
        forall|k: int|
            0 <= k < a.len() ==> (#[trigger] a[k]) == row_of(
                groups,
                meta,
                page_size,
                a[k].group_index as int,
            ),
        forall|k: int|
            0 <= k < b.len() ==> (#[trigger] b[k]) == row_of(
                groups,
                meta,
                page_size,
                b[k].group_index as int,
            ),
    ensures
        a == b,
    decreases a.len(),
{
    broadcast use vstd::multiset::group_multiset_axioms;

    assert(a.to_multiset().len() == a.len());
    assert(b.to_multiset().len() == b.len());
    if a.len() == 0 {
        assert(a =~= b);
    } else {
        let x = a[0];
        assert(a.contains(x));
        assert(b.to_multiset().count(x) > 0);
        assert(b.contains(x));
        let j = choose|j: int| 0 <= j < b.len() && b[j] == x;
        assert(row_le(b[0], b[j]));
        let y = b[0];
        assert(b.contains(y));
        assert(a.to_multiset().count(y) > 0);
        assert(a.contains(y));
        let k = choose|k: int| 0 <= k < a.len() && a[k] == y;
        assert(row_le(a[0], a[k]));
        assert(row_le(x, y) && row_le(y, x));
        assert(x.mem_rss == y.mem_rss && x.group_index == y.group_index);
        assert(x == y);
        let at = a.drop_first();
        let bt = b.drop_first();
        assert(a.remove(0) =~= at);
        assert(b.remove(0) =~= bt);
        assert(at.to_multiset() == a.to_multiset().remove(x));
        assert(bt.to_multiset() == b.to_multiset().remove(x));
        assert(forall|k1: int, k2: int|
            0 <= k1 <= k2 < at.len() ==> #[trigger] row_le(at[k1], at[k2]));
        assert(forall|k1: int, k2: int|
            0 <= k1 <= k2 < bt.len() ==> #[trigger] row_le(bt[k1], bt[k2]));
        assert(forall|m: int| 0 <= m < at.len() ==> (#[trigger] at[m]) == a[m + 1]);
        assert(forall|m: int| 0 <= m < bt.len() ==> (#[trigger] bt[m]) == b[m + 1]);
        lemma_sorted_unique(groups, meta, page_size, at, bt);
        assert(a =~= b);
    }
}

/// Reporting is repeatable: any two row sequences the report contract
/// admits for the same splitter state are identical.
pub proof fn law_report_idempotent(
    groups: Seq<ProcessGroupInfo>,
    meta: &ShmsMetadata,
    page_size: int,
    a: Seq<ReportRow>,
    b: Seq<ReportRow>,
)
    requires
        report_post(groups, meta, page_size, a),
        report_post(groups, meta, page_size, b),
    ensures
        a == b,
{
    lemma_sorted_unique(groups, meta, page_size, a, b);
}

/// Sorting is stable: rows with equal resident figures keep the groups'
/// original order, strictly.
pub proof fn law_sort_stability(
    groups: Seq<ProcessGroupInfo>,
    meta: &ShmsMetadata,
    page_size: int,
    rows: Seq<ReportRow>,
    k1: int,
    k2: int,
)
    requires
        report_post(groups, meta, page_size, rows),
        groups.len() <= usize::MAX,
        0 <= k1 < k2 < rows.len(),
        rows[k1].mem_rss == rows[k2].mem_rss,
    ensures
        rows[k1].group_index < rows[k2].group_index,
{
    broadcast use vstd::multiset::group_multiset_axioms;

    assert(row_le(rows[k1], rows[k2]));
    if rows[k1].group_index == rows[k2].group_index {
        let r = rows[k1];
        assert(rows[k2] == r);
        let srows = spec_rows(groups, meta, page_size);
        assert forall|i: int, j: int|
            0 <= i < j < srows.len() implies (#[trigger] srows[i]).group_index != (
        #[trigger] srows[j]).group_index by {
            assert(srows[i].group_index == i as usize);
            assert(srows[j].group_index == j as usize);
        }
        assert(srows.no_duplicates());
        srows.lemma_multiset_has_no_duplicates();
        assert(srows.contains(r)) by {
            assert(rows.contains(r));
            assert(rows.to_multiset().count(r) > 0);
        }
        assert(srows.to_multiset().count(r) == 1);
        let removed = rows.remove(k1);
        assert(removed.to_multiset() == rows.to_multiset().remove(r));
        assert(removed[k2 - 1] == rows[k2]);
        assert(removed.contains(r));
        assert(removed.to_multiset().count(r) > 0);
        assert(rows.to_multiset().count(r) >= 2);
        assert(false);
    }
}

} // verus!
