use snap::report::report;
use snap::splitters::{ProcessSplitter, ProcessSplitterPids};
use snap::process_tree::ProcessTree;
use snap::{
    processes_group_info, ProcessGroupInfo, ProcessInfo, ShmEntry, ShmPageData, ShmSegment,
    ShmsMetadata, SwapSlot,
};

const MIB: u64 = 1024 * 1024;

fn proc_with_pages(pid: i32, pfns: Vec<u64>) -> ProcessInfo {
    ProcessInfo {
        pid,
        uid: 0,
        environ: Vec::new(),
        pfns,
        swap_pages: Vec::new(),
        referenced_shms: Vec::new(),
    }
}

fn empty_meta() -> ShmsMetadata {
    ShmsMetadata { entries: Vec::new() }
}

fn empty_tree() -> ProcessTree {
    ProcessTree { parents: Vec::new() }
}

#[test]
fn scenario_pid_split_dedup() {
    // Three processes: {1,2,3}, {3,4}, {5}; split by the PID list [1].
    let procs = vec![
        proc_with_pages(1, vec![1, 2, 3]),
        proc_with_pages(2, vec![3, 4]),
        proc_with_pages(3, vec![5]),
    ];
    let mut sp = ProcessSplitterPids::new(&vec![1]);
    sp.split(&empty_tree(), &empty_meta(), procs);
    let rows = report(sp.iter_groups(), &empty_meta(), MIB);
    assert_eq!(rows.len(), 2);
    // Both groups hold 3 distinct pages; ties keep group order.
    assert_eq!(rows[0].group_index, 0);
    assert_eq!(rows[1].group_index, 1);
    assert_eq!(rows[0].mem_rss, 3);
    assert_eq!(rows[1].mem_rss, 3);
    // Page 3 is shared, so it counts for neither group's unique figure.
    assert_eq!(rows[0].mem_uss, 2);
    assert_eq!(rows[1].mem_uss, 2);
    assert_eq!(rows[0].processes_count, 1);
    assert_eq!(rows[1].processes_count, 2);
    assert_eq!(rows[1].name, "Others PIDs");
}

#[test]
fn scenario_shared_segment_dedup() {
    // A segment with pages {10,11} referenced by both groups: both show it
    // as resident, neither as unique.
    let seg = ShmSegment { key: 7, shmid: 9, rss: 0, swap: 0 };
    let meta = ShmsMetadata {
        entries: vec![ShmEntry {
            segment: seg,
            pages: Some(ShmPageData {
                pfns: vec![10, 11],
                swap_pages: Vec::new(),
                pages_4k: 2,
                pages_2m: 0,
            }),
        }],
    };
    let mut x = proc_with_pages(1, vec![1]);
    x.referenced_shms = vec![seg];
    let mut y = proc_with_pages(2, vec![2]);
    y.referenced_shms = vec![seg];
    let mut sp = ProcessSplitterPids::new(&vec![1]);
    sp.split(&empty_tree(), &meta, vec![x, y]);
    let rows = report(sp.iter_groups(), &meta, MIB);
    assert_eq!(rows.len(), 2);
    // Each group: own page + the segment's two pages.
    assert_eq!(rows[0].mem_rss, 3);
    assert_eq!(rows[1].mem_rss, 3);
    // The segment's pages sit in the other group's union too.
    assert_eq!(rows[0].mem_uss, 1);
    assert_eq!(rows[1].mem_uss, 1);
}

#[test]
fn unreadable_segment_keeps_byte_totals() {
    // A segment whose page record is absent: no PFN-level dedup, but its
    // recorded bytes still enter the shared-memory figures.
    let seg = ShmSegment { key: 1, shmid: 2, rss: 3 * MIB + 5, swap: 2 * MIB };
    let meta = ShmsMetadata { entries: vec![ShmEntry { segment: seg, pages: None }] };
    let mut p = proc_with_pages(1, vec![1]);
    p.referenced_shms = vec![seg];
    let mut sp = ProcessSplitterPids::new(&vec![1]);
    sp.split(&empty_tree(), &meta, vec![p]);
    let rows = report(sp.iter_groups(), &meta, MIB);
    assert_eq!(rows[0].mem_rss, 1); // segment contributes no pages
    assert_eq!(rows[0].shm_mem, 3); // bytes still counted, truncated to MiB
    assert_eq!(rows[0].shm_swap, 2);
}

#[test]
fn disjoint_groups_unique_equals_resident() {
    let procs = vec![proc_with_pages(1, vec![1, 2]), proc_with_pages(2, vec![3, 4, 5])];
    let mut sp = ProcessSplitterPids::new(&vec![1]);
    sp.split(&empty_tree(), &empty_meta(), procs);
    let rows = report(sp.iter_groups(), &empty_meta(), MIB);
    for row in &rows {
        assert_eq!(row.mem_uss, row.mem_rss);
    }
}

#[test]
fn fully_overlapped_group_unique_zero() {
    let procs = vec![proc_with_pages(1, vec![1, 2]), proc_with_pages(2, vec![1, 2, 3])];
    let mut sp = ProcessSplitterPids::new(&vec![1]);
    sp.split(&empty_tree(), &empty_meta(), procs);
    let rows = report(sp.iter_groups(), &empty_meta(), MIB);
    let first = rows.iter().find(|r| r.group_index == 0).unwrap();
    assert_eq!(first.mem_rss, 2);
    assert_eq!(first.mem_uss, 0);
}

#[test]
fn report_twice_identical() {
    let procs = vec![
        proc_with_pages(1, vec![1, 2, 3]),
        proc_with_pages(2, vec![3, 4]),
        proc_with_pages(3, vec![5]),
    ];
    let mut sp = ProcessSplitterPids::new(&vec![2]);
    sp.split(&empty_tree(), &empty_meta(), procs);
    let a = report(sp.iter_groups(), &empty_meta(), 4096);
    let b = report(sp.iter_groups(), &empty_meta(), 4096);
    assert_eq!(a.len(), b.len());
    for (x, y) in a.iter().zip(b.iter()) {
        assert_eq!(x.name, y.name);
        assert_eq!(x.group_index, y.group_index);
        assert_eq!(x.processes_count, y.processes_count);
        assert_eq!(x.mem_rss, y.mem_rss);
        assert_eq!(x.mem_uss, y.mem_uss);
        assert_eq!(x.swap_rss, y.swap_rss);
        assert_eq!(x.swap_uss, y.swap_uss);
        assert_eq!(x.shm_mem, y.shm_mem);
        assert_eq!(x.shm_swap, y.shm_swap);
    }
}

#[test]
fn rows_sorted_nonincreasing_stable() {
    // Groups with resident sizes 1, 3, 1 (in group order): sorted rows come
    // 3,1,1 and the equal pair keeps its original order.
    let g0 = processes_group_info(vec![proc_with_pages(1, vec![1])], "g0".to_string());
    let g1 = processes_group_info(vec![proc_with_pages(2, vec![2, 3, 4])], "g1".to_string());
    let g2 = processes_group_info(vec![proc_with_pages(3, vec![5])], "g2".to_string());
    let groups = vec![g0, g1, g2];
    let rows = report(&groups, &empty_meta(), MIB);
    assert_eq!(rows[0].name, "g1");
    assert_eq!(rows[1].name, "g0");
    assert_eq!(rows[2].name, "g2");
    assert!(rows[0].mem_rss >= rows[1].mem_rss && rows[1].mem_rss >= rows[2].mem_rss);
    assert!(rows[1].group_index < rows[2].group_index);
}

#[test]
fn mib_figures_truncate() {
    // 1000 pages of 4096 bytes = 4096000 bytes = 3.9 MiB, truncated to 3.
    let pfns: Vec<u64> = (0..1000).collect();
    let groups = vec![processes_group_info(vec![proc_with_pages(1, pfns)], "g".to_string())];
    let rows = report(&groups, &empty_meta(), 4096);
    assert_eq!(rows[0].mem_rss, 3);
}

#[test]
fn swap_figures_dedup() {
    let slot = |o: u64| SwapSlot { kind: 0, offset: o };
    let mut p1 = proc_with_pages(1, vec![]);
    p1.swap_pages = vec![slot(1), slot(2)];
    let mut p2 = proc_with_pages(2, vec![]);
    p2.swap_pages = vec![slot(2), slot(3)];
    let mut sp = ProcessSplitterPids::new(&vec![1]);
    sp.split(&empty_tree(), &empty_meta(), vec![p1, p2]);
    let rows = report(sp.iter_groups(), &empty_meta(), MIB);
    let first: &snap::report::ReportRow = rows.iter().find(|r| r.group_index == 0).unwrap();
    let second = rows.iter().find(|r| r.group_index == 1).unwrap();
    assert_eq!(first.swap_rss, 2);
    assert_eq!(first.swap_uss, 1); // slot 2 shared
    assert_eq!(second.swap_rss, 2);
    assert_eq!(second.swap_uss, 1);
}

#[test]
fn group_aggregate_unions_dedup() {
    let g: ProcessGroupInfo = processes_group_info(
        vec![proc_with_pages(1, vec![1, 2]), proc_with_pages(2, vec![2, 3])],
        "g".to_string(),
    );
    let mut pfns = g.pfns.clone();
    pfns.sort();
    assert_eq!(pfns, vec![1, 2, 3]);
    assert_eq!(g.name, "g");
    assert_eq!(g.processes_info.len(), 2);
}
