use snap::report::ReportRow;
use snap::text::{i32_to_string, join_strings, pad_left, pad_right, render_table, u64_to_string};

#[test]
fn decimal_renderings() {
    assert_eq!(u64_to_string(0), "0");
    assert_eq!(u64_to_string(1234567890), "1234567890");
    assert_eq!(i32_to_string(-45), "-45");
    assert_eq!(i32_to_string(7), "7");
}

#[test]
fn joining_strings() {
    let parts = vec!["a".to_string(), "b".to_string(), "c".to_string()];
    assert_eq!(join_strings(&parts, ", "), "a, b, c");
    assert_eq!(join_strings(&vec!["x".to_string()], ", "), "x");
    assert_eq!(join_strings(&Vec::new(), ", "), "");
}

#[test]
fn padding() {
    assert_eq!(pad_left(&"ab".to_string(), 5), "   ab");
    assert_eq!(pad_right(&"ab".to_string(), 5), "ab   ");
    assert_eq!(pad_left(&"abcdef".to_string(), 5), "abcdef");
}

#[test]
fn table_lines() {
    let row = ReportRow {
        name: "g".to_string(),
        group_index: 0,
        processes_count: 1,
        mem_rss: 3,
        mem_uss: 2,
        swap_rss: 0,
        swap_uss: 0,
        shm_mem: 0,
        shm_swap: 0,
    };
    let lines = render_table(&"PID list".to_string(), &vec![row]);
    assert_eq!(lines.len(), 4);
    assert_eq!(lines[0], "Process groups by PID list (MiB)");
    assert_eq!(
        lines[1],
        "group_name                     #procs         RSS         USS   SWAP RSS   SWAP USS    SHM MEM   SHM SWAP"
    );
    assert_eq!(
        lines[2],
        "========================================================================================================="
    );
    assert_eq!(
        lines[3],
        "g                                   1           3           2          0          0          0          0"
    );
}
