//! Group names and the rendered report table: decimal renderings, padding,
//! joining, and the fixed-column table lines.

use itertools::Itertools;
use vstd::prelude::*;

use crate::report::ReportRow;

verus! {

broadcast use vstd::seq_lib::group_seq_properties;

/// The decimal digits of `n`, most significant first.
pub open spec fn decimal_digits(n: nat) -> Seq<char>
    decreases n,
{
    if n < 10 {
        seq![((48 + n) as u8) as char]
    } else {
        decimal_digits(n / 10).push(((48 + n % 10) as u8) as char)
    }
}

/// The decimal rendering of a signed number.
pub open spec fn decimal_i32(n: int) -> Seq<char> {
    if n < 0 {
        seq!['-'] + decimal_digits((-n) as nat)
    } else {
        decimal_digits(n as nat)
    }
}

/// The parts joined with the separator between each two.
pub open spec fn join_seqs(parts: Seq<Seq<char>>, sep: Seq<char>) -> Seq<char>
    decreases parts.len(),
{
    if parts.len() == 0 {
        Seq::empty()
    } else if parts.len() == 1 {
        parts[0]
    } else {
        join_seqs(parts.drop_last(), sep) + sep + parts.last()
    }
}

/// `n` spaces.
pub open spec fn spaces(n: nat) -> Seq<char>
    decreases n,
{
    if n == 0 {
        Seq::empty()
    } else {
        spaces((n - 1) as nat).push(' ')
    }
}

/// `s` padded with spaces on the left to `w` columns; unchanged when
/// already as wide.
pub open spec fn pad_left_spec(s: Seq<char>, w: nat) -> Seq<char> {
    if s.len() >= w {
        s
    } else {
        spaces((w - s.len()) as nat) + s
    }
}

/// `s` padded with spaces on the right to `w` columns; unchanged when
/// already as wide.
pub open spec fn pad_right_spec(s: Seq<char>, w: nat) -> Seq<char> {
    if s.len() >= w {
        s
    } else {
        s + spaces((w - s.len()) as nat)
    }
}

/// Relies on `u64::to_string` (std): the decimal digits of the value.
#[verifier::external_body]
pub fn u64_to_string(n: u64) -> (r: String)
    ensures
        r@ == decimal_digits(n as nat),
{
    n.to_string()
}

/// Relies on `i32::to_string` (std): the decimal digits of the value, with
/// a leading minus sign when negative.
#[verifier::external_body]
pub fn i32_to_string(n: i32) -> (r: String)
    ensures
        r@ == decimal_i32(n as int),
{
    n.to_string()
}

/// Relies on `itertools::Itertools::join`: the elements' renderings with
/// the separator between each two.
#[verifier::external_body]
pub fn join_strings(parts: &Vec<String>, sep: &str) -> (r: String)
    ensures
        r@ == join_seqs(parts@.map_values(|s: String| s@), sep@),
{
    parts.iter().map(|s| s.as_str()).join(sep)
}

/// Build `n` spaces.
fn make_spaces(n: usize) -> (r: String)
    ensures
        r@ == spaces(n as nat),
{
    let mut r = String::new();
    let mut k: usize = 0;
    proof {
        reveal_strlit(" ");
    }
    while k < n
        invariant
            0 <= k <= n,
            r@ == spaces(k as nat),
            " "@ == seq![' '],
        decreases n - k,
    {
        r.append(" ");
        k = k + 1;
    }
    r
}

/// Pad on the left to `w` columns.
pub fn pad_left(s: &String, w: usize) -> (r: String)
    ensures
        r@ == pad_left_spec(s@, w as nat),
{
    let len = s.as_str().unicode_len();
    if len >= w {
        s.clone()
    } else {
        let mut r = make_spaces(w - len);
        r.append(s.as_str());
        r
    }
}

/// Pad on the right to `w` columns.
pub fn pad_right(s: &String, w: usize) -> (r: String)
    ensures
        r@ == pad_right_spec(s@, w as nat),
{
    let len = s.as_str().unicode_len();
    if len >= w {
        s.clone()
    } else {
        let pad = make_spaces(w - len);
        let mut r = s.clone();
        r.append(pad.as_str());
        r
    }
}

/// The rendering of one report line: the group name left-aligned, then the
/// process count and the six MiB figures right-aligned, as fixed columns.
pub open spec fn row_line_spec(row: ReportRow) -> Seq<char> {
    pad_right_spec(row.name@, 30) + "  "@ + pad_left_spec(
        decimal_digits(row.processes_count as nat),
        5,
    ) + "  "@ + pad_left_spec(decimal_digits(row.mem_rss as nat), 10) + "  "@ + pad_left_spec(
        decimal_digits(row.mem_uss as nat),
        10,
    ) + " "@ + pad_left_spec(decimal_digits(row.swap_rss as nat), 10) + " "@ + pad_left_spec(
        decimal_digits(row.swap_uss as nat),
        10,
    ) + " "@ + pad_left_spec(decimal_digits(row.shm_mem as nat), 10) + " "@ + pad_left_spec(
        decimal_digits(row.shm_swap as nat),
        10,
    )
}

/// Render one report line.
pub fn render_row(row: &ReportRow) -> (line: String)
    ensures
        line@ == row_line_spec(*row),
{
    let mut line = pad_right(&row.name, 30);
    line.append("  ");
    let procs = u64_to_string(row.processes_count as u64);
    line.append(pad_left(&procs, 5).as_str());
    line.append("  ");
    let v = u64_to_string(row.mem_rss);
    line.append(pad_left(&v, 10).as_str());
    line.append("  ");
    let v = u64_to_string(row.mem_uss);
    line.append(pad_left(&v, 10).as_str());
    line.append(" ");
    let v = u64_to_string(row.swap_rss);
    line.append(pad_left(&v, 10).as_str());
    line.append(" ");
    let v = u64_to_string(row.swap_uss);
    line.append(pad_left(&v, 10).as_str());
    line.append(" ");
    let v = u64_to_string(row.shm_mem);
    line.append(pad_left(&v, 10).as_str());
    line.append(" ");
    let v = u64_to_string(row.shm_swap);
    line.append(pad_left(&v, 10).as_str());
    line
}

/// The rendered table: a title naming the split, the column headers, a
/// ruler, then one line per row in row order.
pub open spec fn table_lines_spec(split_name: Seq<char>, rows: Seq<ReportRow>) -> Seq<Seq<char>> {
    seq![
        "Process groups by "@ + split_name + " (MiB)"@,
        "group_name                     #procs         RSS         USS   SWAP RSS   SWAP USS    SHM MEM   SHM SWAP"@,
        "========================================================================================================="@,
    ] + rows.map_values(|r: ReportRow| row_line_spec(r))
}

/// Render the whole table.
pub fn render_table(split_name: &String, rows: &Vec<ReportRow>) -> (lines: Vec<String>)
    ensures
        lines@.map_values(|s: String| s@) == table_lines_spec(split_name@, rows@),
{
    let mut lines: Vec<String> = Vec::new();
    let mut title = String::from_str("Process groups by ");
    title.append(split_name.as_str());
    title.append(" (MiB)");
    lines.push(title);
    lines.push(
        String::from_str(
            "group_name                     #procs         RSS         USS   SWAP RSS   SWAP USS    SHM MEM   SHM SWAP",
        ),
    );
    lines.push(
        String::from_str(
            "=========================================================================================================",
        ),
    );
    let n = rows.len();
    let mut i: usize = 0;
    while i < n
        invariant
            0 <= i <= n,
            n == rows@.len(),
            lines@.len() == 3 + i,
            lines@[0]@ == "Process groups by "@ + split_name@ + " (MiB)"@,
            lines@[1]@
                == "group_name                     #procs         RSS         USS   SWAP RSS   SWAP USS    SHM MEM   SHM SWAP"@,
            lines@[2]@
                == "========================================================================================================="@,
            forall|k: int| 0 <= k < i ==> (#[trigger] lines@[3 + k])@ == row_line_spec(rows@[k]),
        decreases n - i,
    {
        lines.push(render_row(&rows[i]));
        i = i + 1;
    }
    proof {
        let actual = lines@.map_values(|s: String| s@);
        let expected = table_lines_spec(split_name@, rows@);
        assert(actual.len() == expected.len());
        assert forall|k: int| 0 <= k < actual.len() implies actual[k] == expected[k] by {
            assert(actual[k] == lines@[k]@);
            if k >= 3 {
                assert(expected[k] == rows@.map_values(|r: ReportRow| row_line_spec(r))[k - 3]);
                assert(expected[k] == row_line_spec(rows@[k - 3]));
                assert(lines@[3 + (k - 3)]@ == row_line_spec(rows@[k - 3]));
            }
        }
        assert(actual =~= expected);
    }
    lines
}

} // verus!
