use snap::procmaps::{collect_pages, map_stats, totals, PageEntry};
use snap::process_tree::ProcessTree;
use snap::{ProcessInfo, ShmEntry, ShmPageData, ShmSegment, ShmsMetadata, SwapSlot};

#[test]
fn zero_frames_are_dropped() {
    let pages = vec![
        PageEntry::Ram { pfn: 0 },
        PageEntry::Ram { pfn: 42 },
        PageEntry::Swap { kind: 1, offset: 8 },
        PageEntry::Ram { pfn: 0 },
    ];
    let (pfns, slots) = collect_pages(&pages);
    assert_eq!(pfns, vec![42]);
    assert_eq!(slots, vec![SwapSlot { kind: 1, offset: 8 }]);
}

#[test]
fn mapping_stats_in_kib() {
    let (vsz, rss, swap) = map_stats(0x1000, 0x5000, 3, 1);
    assert_eq!(vsz, 16); // 0x4000 bytes
    assert_eq!(rss, 12); // 3 pages at 4 kiB
    assert_eq!(swap, 4);
}

#[test]
fn totals_sum_mappings() {
    let stats = vec![(16, 12, 4), (8, 0, 0)];
    let (v, r, s) = totals(&stats);
    assert_eq!(v, 24);
    assert_eq!(r, 12);
    assert_eq!(s, 4);
}

#[test]
fn environment_lookup() {
    let p = ProcessInfo {
        pid: 1,
        uid: 0,
        environ: vec![
            ("A".to_string(), "1".to_string()),
            ("B".to_string(), "2".to_string()),
        ],
        pfns: Vec::new(),
        swap_pages: Vec::new(),
        referenced_shms: Vec::new(),
    };
    assert_eq!(p.env_value(&"B".to_string()), Some(&"2".to_string()));
    assert_eq!(p.env_value(&"C".to_string()), None);
}

#[test]
fn metadata_lookup() {
    let seg = ShmSegment { key: 1, shmid: 2, rss: 0, swap: 0 };
    let dark = ShmSegment { key: 3, shmid: 4, rss: 0, swap: 0 };
    let meta = ShmsMetadata {
        entries: vec![
            ShmEntry {
                segment: seg,
                pages: Some(ShmPageData {
                    pfns: vec![10],
                    swap_pages: Vec::new(),
                    pages_4k: 1,
                    pages_2m: 0,
                }),
            },
            ShmEntry { segment: dark, pages: None },
        ],
    };
    assert_eq!(meta.lookup_pages(seg).map(|p| p.pfns.clone()), Some(vec![10]));
    assert!(meta.lookup_pages(dark).is_none());
    let absent = ShmSegment { key: 9, shmid: 9, rss: 0, swap: 0 };
    assert!(meta.lookup_pages(absent).is_none());
}

#[test]
fn ancestry_lookup() {
    let tree = ProcessTree { parents: vec![(2, 1), (3, 2)] };
    assert_eq!(tree.parent(3), Some(2));
    assert_eq!(tree.parent(2), Some(1));
    assert_eq!(tree.parent(1), None);
}

#[test]
fn snapshot_builder_dedups() {
    let p = snap::process_info_new(
        5,
        7,
        vec![("A".to_string(), "1".to_string())],
        vec![1, 2, 2, 1],
        vec![SwapSlot { kind: 0, offset: 3 }, SwapSlot { kind: 0, offset: 3 }],
        Vec::new(),
    );
    assert_eq!(p.pid, 5);
    assert_eq!(p.uid, 7);
    let mut pfns = p.pfns.clone();
    pfns.sort();
    assert_eq!(pfns, vec![1, 2]);
    assert_eq!(p.swap_pages.len(), 1);
}
