//! Attributes physical-memory usage to named groups of processes, correcting
//! for page sharing: for each group it reports how much memory the group holds
//! exclusively versus in common with every other group, by set algebra over
//! physical frame numbers (PFNs) and swap slots.

use vstd::prelude::*;

pub mod filters;
pub mod process_tree;
pub mod procmaps;
pub mod report;
pub mod splitters;
pub mod sysapi;
pub mod text;
pub mod vecset;

use crate::vecset::{pfn_union_into, seg_union_into, slot_union_into};

verus! {

/// A swap slot: the (type, offset) pair naming a page's location in swap
/// storage.
#[derive(Clone, Copy, PartialEq, Eq, Structural, Debug)]
pub struct SwapSlot {
    pub kind: u64,
    pub offset: u64,
}

/// Identity and recorded byte totals of one SysV shared-memory segment.
/// The identity is the (key, shmid) pair; `rss` and `swap` are the segment's
/// own recorded resident and swapped byte totals, independent of any mapping
/// process.
#[derive(Clone, Copy, PartialEq, Eq, Structural, Debug)]
pub struct ShmSegment {
    pub key: i32,
    pub shmid: u64,
    pub rss: u64,
    pub swap: u64,
}

/// Page-level facts for one shared-memory segment: which physical frames and
/// swap slots it occupies, and how many small and huge pages it spans.
pub struct ShmPageData {
    pub pfns: Vec<u64>,
    pub swap_pages: Vec<SwapSlot>,
    pub pages_4k: usize,
    pub pages_2m: usize,
}

/// One row of the shared-memory metadata table. `pages` is `None` when the
/// segment's page table could not be read: its byte totals stay usable, but
/// the segment contributes nothing to PFN-level deduplication.
pub struct ShmEntry {
    pub segment: ShmSegment,
    pub pages: Option<ShmPageData>,
}

/// The shared-memory metadata table, captured once before any splitting:
/// one entry per segment on the host.
pub struct ShmsMetadata {
    pub entries: Vec<ShmEntry>,
}

/// Per-process facts captured from one point-in-time snapshot: identity,
/// owner, environment, resident frames, swap slots and referenced
/// shared-memory segments.
pub struct ProcessInfo {
    pub pid: i32,
    pub uid: u32,
    /// Environment as (variable, value) pairs; keys are unique (last write
    /// wins at capture time).
    pub environ: Vec<(String, String)>,
    /// Resident physical frames, deduplicated across the process's mappings.
    pub pfns: Vec<u64>,
    /// Occupied swap slots, deduplicated.
    pub swap_pages: Vec<SwapSlot>,
    /// Referenced shared-memory segments, deduplicated.
    pub referenced_shms: Vec<ShmSegment>,
}

/// A named group of processes together with the cached unions of their
/// resident frames, swap slots and referenced segments.
pub struct ProcessGroupInfo {
    pub name: String,
    pub processes_info: Vec<ProcessInfo>,
    pub pfns: Vec<u64>,
    pub swap_pages: Vec<SwapSlot>,
    pub referenced_shm: Vec<ShmSegment>,
}

impl ShmPageData {
    /// The page facts are well formed when the frame and slot lists carry no
    /// duplicates.
    pub open spec fn wf(&self) -> bool {
        &&& self.pfns@.no_duplicates()
        &&& self.swap_pages@.no_duplicates()
    }
}

impl ShmsMetadata {
    /// The table is well formed when no segment appears twice and every
    /// present page record is itself well formed.
    pub open spec fn wf(&self) -> bool {
        &&& forall|i: int, j: int|
            0 <= i < j < self.entries@.len() ==> #[trigger] self.entries@[i].segment != #[trigger] self.entries@[j].segment
        &&& forall|i: int|
            0 <= i < self.entries@.len() ==> match #[trigger] self.entries@[i].pages {
                Some(p) => p.wf(),
                None => true,
            }
    }

    /// The set of physical frames recorded for `seg`: empty when the segment
    /// is not in the table or its page record is absent.
    pub open spec fn seg_pfns(&self, seg: ShmSegment) -> Set<u64> {
        seg_pfns_of(self.entries@, seg)
    }

    /// Look the segment up in the table. Returns `None` when the segment is
    /// not listed or its page record is absent.
    pub fn lookup_pages(&self, seg: ShmSegment) -> (r: Option<&ShmPageData>)
        ensures
            match r {
                Some(p) => self.seg_pfns(seg) == p.pfns@.to_set(),
                None => self.seg_pfns(seg) == Set::<u64>::empty(),
            },
    {
        let n = self.entries.len();
        let mut i: usize = n;
        proof {
            assert(self.entries@.take(n as int) =~= self.entries@);
        }
        while i > 0
            invariant
                0 <= i <= n,
                n == self.entries@.len(),
                seg_pfns_of(self.entries@.take(i as int), seg) == seg_pfns_of(self.entries@, seg),
            decreases i,
        {
            proof {
                assert(self.entries@.take(i as int).drop_last() =~= self.entries@.take(i - 1));
                assert(self.entries@.take(i as int).last() == self.entries@[i - 1]);
            }
            i = i - 1;
            let e = &self.entries[i];
            if e.segment == seg {
                match &e.pages {
                    Some(p) => {
                        return Some(p);
                    },
                    None => {
                        return None;
                    },
                }
            }
        }
        proof {
            assert(self.entries@.take(0) =~= Seq::<ShmEntry>::empty());
        }
        None
    }
}

/// The set of physical frames that `entries` records for `seg`, searching
/// from the end of the table.
pub open spec fn seg_pfns_of(entries: Seq<ShmEntry>, seg: ShmSegment) -> Set<u64>
    decreases entries.len(),
{
    if entries.len() == 0 {
        Set::empty()
    } else if entries.last().segment == seg {
        match entries.last().pages {
            Some(p) => p.pfns@.to_set(),
            None => Set::empty(),
        }
    } else {
        seg_pfns_of(entries.drop_last(), seg)
    }
}

impl ProcessInfo {
    /// A snapshot is well formed when its three page-fact lists carry no
    /// duplicates and its environment binds each variable once.
    pub open spec fn wf(&self) -> bool {
        &&& self.pfns@.no_duplicates()
        &&& self.swap_pages@.no_duplicates()
        &&& self.referenced_shms@.no_duplicates()
        &&& forall|i: int, j: int|
            0 <= i < j < self.environ@.len() ==> #[trigger] self.environ@[i].0@ != #[trigger] self.environ@[j].0@
    }

    /// The value bound to `var` in this process's environment, if any.
    pub open spec fn spec_env_value(&self, var: Seq<char>) -> Option<Seq<char>> {
        env_lookup(self.environ@, var)
    }

    /// Look `var` up in the environment.
    pub fn env_value(&self, var: &String) -> (r: Option<&String>)
        ensures
            match r {
                Some(v) => self.spec_env_value(var@) == Some(v@),
                None => self.spec_env_value(var@) is None,
            },
    {
        let n = self.environ.len();
        let mut i: usize = n;
        proof {
            assert(self.environ@.take(n as int) =~= self.environ@);
        }
        while i > 0
            invariant
                0 <= i <= n,
                n == self.environ@.len(),
                env_lookup(self.environ@.take(i as int), var@) == env_lookup(self.environ@, var@),
            decreases i,
        {
            proof {
                assert(self.environ@.take(i as int).drop_last() =~= self.environ@.take(i - 1));
                assert(self.environ@.take(i as int).last() == self.environ@[i - 1]);
            }
            i = i - 1;
            let pair = &self.environ[i];
            if pair.0.eq(var) {
                return Some(&pair.1);
            }
        }
        proof {
            assert(self.environ@.take(0) =~= Seq::<(String, String)>::empty());
        }
        None
    }
}

/// The last-bound value of `var` among the (variable, value) pairs.
pub open spec fn env_lookup(pairs: Seq<(String, String)>, var: Seq<char>) -> Option<Seq<char>>
    decreases pairs.len(),
{
    if pairs.len() == 0 {
        None
    } else if pairs.last().0@ == var {
        Some(pairs.last().1@)
    } else {
        env_lookup(pairs.drop_last(), var)
    }
}

/// The union of the members' resident-frame sets.
pub open spec fn members_pfn_set(members: Seq<ProcessInfo>) -> Set<u64>
    decreases members.len(),
{
    if members.len() == 0 {
        Set::empty()
    } else {
        members_pfn_set(members.drop_last()).union(members.last().pfns@.to_set())
    }
}

/// The union of the members' swap-slot sets.
pub open spec fn members_swap_set(members: Seq<ProcessInfo>) -> Set<SwapSlot>
    decreases members.len(),
{
    if members.len() == 0 {
        Set::empty()
    } else {
        members_swap_set(members.drop_last()).union(members.last().swap_pages@.to_set())
    }
}

/// The union of the members' referenced-segment sets.
pub open spec fn members_shm_set(members: Seq<ProcessInfo>) -> Set<ShmSegment>
    decreases members.len(),
{
    if members.len() == 0 {
        Set::empty()
    } else {
        members_shm_set(members.drop_last()).union(members.last().referenced_shms@.to_set())
    }
}

impl ProcessGroupInfo {
    /// A group aggregate is well formed when its cached unions carry no
    /// duplicates and are exactly the unions over its members.
    pub open spec fn wf(&self) -> bool {
        &&& self.pfns@.no_duplicates()
        &&& self.swap_pages@.no_duplicates()
        &&& self.referenced_shm@.no_duplicates()
        &&& self.pfns@.to_set() == members_pfn_set(self.processes_info@)
        &&& self.swap_pages@.to_set() == members_swap_set(self.processes_info@)
        &&& self.referenced_shm@.to_set() == members_shm_set(self.processes_info@)
    }
}

/// Build the aggregate for one named group: the member list together with the
/// unions of the members' resident frames, swap slots and referenced
/// segments, each computed once and cached.
pub fn processes_group_info(processes_info: Vec<ProcessInfo>, name: String) -> (g: ProcessGroupInfo)
    ensures
        g.wf(),
        g.name@ == name@,
        g.processes_info@ == processes_info@,
{
    let mut pfns: Vec<u64> = Vec::new();
    let mut swap_pages: Vec<SwapSlot> = Vec::new();
    let mut referenced_shm: Vec<ShmSegment> = Vec::new();
    let n = processes_info.len();
    let mut i: usize = 0;
    while i < n
        invariant
            0 <= i <= n,
            n == processes_info@.len(),
            pfns@.no_duplicates(),
            swap_pages@.no_duplicates(),
            referenced_shm@.no_duplicates(),
            pfns@.to_set() == members_pfn_set(processes_info@.take(i as int)),
            swap_pages@.to_set() == members_swap_set(processes_info@.take(i as int)),
            referenced_shm@.to_set() == members_shm_set(processes_info@.take(i as int)),
        decreases n - i,
    {
        proof {
            assert(processes_info@.take(i + 1).drop_last() =~= processes_info@.take(i as int));
            assert(processes_info@.take(i + 1).last() == processes_info@[i as int]);
        }
        let p = &processes_info[i];
        pfn_union_into(&mut pfns, &p.pfns);
        slot_union_into(&mut swap_pages, &p.swap_pages);
        seg_union_into(&mut referenced_shm, &p.referenced_shms);
        i = i + 1;
    }
    proof {
        assert(processes_info@.take(n as int) =~= processes_info@);
    }
    ProcessGroupInfo { name, processes_info, pfns, swap_pages, referenced_shm }
}


/// Build a process record, deduplicating the three page-fact lists as
/// capture leaves them: the result is well formed whenever the environment
/// binds each variable once.
pub fn process_info_new(
    pid: i32,
    uid: u32,
    environ: Vec<(String, String)>,
    pfns: Vec<u64>,
    swap_pages: Vec<SwapSlot>,
    referenced_shms: Vec<ShmSegment>,
) -> (p: ProcessInfo)
    ensures
        p.pid == pid,
        p.uid == uid,
        p.environ@ == environ@,
        p.pfns@.no_duplicates(),
        p.pfns@.to_set() == pfns@.to_set(),
        p.swap_pages@.no_duplicates(),
        p.swap_pages@.to_set() == swap_pages@.to_set(),
        p.referenced_shms@.no_duplicates(),
        p.referenced_shms@.to_set() == referenced_shms@.to_set(),
        (forall|i: int, j: int|
            0 <= i < j < environ@.len() ==> #[trigger] environ@[i].0@ != #[trigger] environ@[j].0@)
            ==> p.wf(),
{
    let mut unique_pfns: Vec<u64> = Vec::new();
    pfn_union_into(&mut unique_pfns, &pfns);
    let mut unique_swap: Vec<SwapSlot> = Vec::new();
    slot_union_into(&mut unique_swap, &swap_pages);
    let mut unique_shms: Vec<ShmSegment> = Vec::new();
    seg_union_into(&mut unique_shms, &referenced_shms);
    proof {
        assert(unique_pfns@.to_set() =~= pfns@.to_set());
        assert(unique_swap@.to_set() =~= swap_pages@.to_set());
        assert(unique_shms@.to_set() =~= referenced_shms@.to_set());
    }
    ProcessInfo {
        pid,
        uid,
        environ,
        pfns: unique_pfns,
        swap_pages: unique_swap,
        referenced_shms: unique_shms,
    }
}

} // verus!
