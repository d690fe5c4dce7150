//! The splitter abstraction and its four variants: partition a process
//! snapshot collection into named group aggregates, by filter expression,
//! environment variable, PID list or owner id.
//!
//! Every variant's partition is total: each input process lands in exactly
//! one group, and flattening recovers exactly the input collection.

use vstd::multiset::Multiset;
use vstd::prelude::*;

use crate::filters::Filter;
use crate::process_tree::ProcessTree;
use crate::report::{groups_wf, report_fits, report_post, ReportRow};
use crate::sysapi::os_page_size;
use crate::text::{decimal_i32, i32_to_string, join_seqs, join_strings};
use crate::{processes_group_info, ProcessGroupInfo, ProcessInfo, ShmsMetadata};

verus! {

broadcast use vstd::seq_lib::group_seq_properties, vstd::seq_lib::group_seq_lib_default, vstd::seq_lib::group_to_multiset_ensures, vstd::seq_lib::lemma_multiset_commutative, vstd::prelude::Seq::lemma_filter_push, vstd::multiset::group_multiset_axioms;

/// The members of all the groups, in group order.
pub open spec fn group_members(groups: Seq<ProcessGroupInfo>) -> Seq<ProcessInfo>
    decreases groups.len(),
{
    if groups.len() == 0 {
        Seq::empty()
    } else {
        group_members(groups.drop_last()) + groups.last().processes_info@
    }
}

/// The negation of a predicate, as one shared term.
pub open spec fn spec_not(pred: spec_fn(ProcessInfo) -> bool) -> spec_fn(ProcessInfo) -> bool {
    |p: ProcessInfo| !pred(p)
}

/// Adding a group appends its members.
proof fn lemma_group_members_push(groups: Seq<ProcessGroupInfo>, g: ProcessGroupInfo)
    ensures
        group_members(groups.push(g)) == group_members(groups) + g.processes_info@,
{
    assert(groups.push(g).drop_last() =~= groups);
    assert(groups.push(g).last() == g);
}

/// A predicate splits a sequence into its matches and its rejects: together
/// they carry exactly the original elements.
proof fn lemma_filter_partition_multiset(s: Seq<ProcessInfo>, pred: spec_fn(ProcessInfo) -> bool)
    ensures
        s.filter(pred).to_multiset().add(s.filter(spec_not(pred)).to_multiset())
            == s.to_multiset(),
    decreases s.len(),
{
    reveal(Seq::filter);
    if s.len() == 0 {
        assert(s.filter(pred) =~= Seq::<ProcessInfo>::empty());
        assert(s.filter(spec_not(pred)) =~= Seq::<ProcessInfo>::empty());
        assert(s.filter(pred).to_multiset().add(s.filter(spec_not(pred)).to_multiset())
            =~= s.to_multiset());
    } else {
        let pre = s.drop_last();
        let x = s.last();
        lemma_filter_partition_multiset(pre, pred);
        assert(s =~= pre.push(x));
        assert(pre.push(x).filter(pred) == if pred(x) {
            pre.filter(pred).push(x)
        } else {
            pre.filter(pred)
        });
        assert(pre.push(x).filter(spec_not(pred)) == if spec_not(pred)(x) {
            pre.filter(spec_not(pred)).push(x)
        } else {
            pre.filter(spec_not(pred))
        });
        assert(s.filter(pred).to_multiset().add(s.filter(spec_not(pred)).to_multiset())
            =~= s.to_multiset());
    }
}

/// Move every process the predicate accepts out of `procs`, keeping the
/// rest, both in their original order.
fn drain_where<P: Fn(&ProcessInfo) -> bool>(
    procs: &mut Vec<ProcessInfo>,
    pred: P,
    Ghost(spec_pred): Ghost<spec_fn(ProcessInfo) -> bool>,
) -> (matched: Vec<ProcessInfo>)
    requires
        forall|p: &ProcessInfo| #[trigger] call_requires(pred, (p,)),
        forall|p: &ProcessInfo, r: bool| #[trigger] call_ensures(pred, (p,), r) ==> r
            == spec_pred(*p),
    ensures
        matched@ == old(procs)@.filter(spec_pred),
        final(procs)@ == old(procs)@.filter(spec_not(spec_pred)),
{
    let ghost orig = procs@;
    let mut matched: Vec<ProcessInfo> = Vec::new();
    let mut rest: Vec<ProcessInfo> = Vec::new();
    let ghost mut k: int = 0;
    proof {
        reveal(Seq::filter);
        assert(orig.take(0) =~= Seq::<ProcessInfo>::empty());
        assert(orig.skip(0) =~= orig);
    }
    while procs.len() > 0
        invariant
            0 <= k <= orig.len(),
            procs@ == orig.skip(k),
            matched@ == orig.take(k).filter(spec_pred),
            rest@ == orig.take(k).filter(spec_not(spec_pred)),
            forall|p: &ProcessInfo| #[trigger] call_requires(pred, (p,)),
            forall|p: &ProcessInfo, r: bool| #[trigger] call_ensures(pred, (p,), r) ==> r
                == spec_pred(*p),
        decreases procs@.len(),
    {
        let p = procs.remove(0);
        proof {
            assert(orig.skip(k).remove(0) =~= orig.skip(k + 1));
            assert(p == orig[k]);
            assert(orig.take(k + 1).drop_last() =~= orig.take(k));
            assert(orig.take(k + 1).last() == orig[k]);
            assert(orig.take(k + 1) =~= orig.take(k).push(orig[k]));
        }
        let b = pred(&p);
        if b {
            matched.push(p);
        } else {
            rest.push(p);
        }
        proof {
            k = k + 1;
        }
    }
    proof {
        assert(orig.take(k) =~= orig);
    }
    *procs = rest;
    matched
}

/// Recover the processes of all the groups, consuming them; order is not
/// kept, the collection is.
fn flatten_groups(groups: Vec<ProcessGroupInfo>) -> (procs: Vec<ProcessInfo>)
    ensures
        procs@.to_multiset() == group_members(groups@).to_multiset(),
{
    let ghost orig = groups@;
    let mut groups = groups;
    let mut out: Vec<ProcessInfo> = Vec::new();
    while groups.len() > 0
        invariant
            out@.to_multiset().add(group_members(groups@).to_multiset()) == group_members(
                orig,
            ).to_multiset(),
        decreases groups@.len(),
    {
        let ghost pre = groups@;
        let g = match groups.pop() {
            Some(g) => g,
            None => {
                proof {
                    assert(false);
                }
                unreached()
            },
        };
        proof {
            assert(pre.drop_last() =~= groups@);
            assert(group_members(pre) == group_members(groups@) + g.processes_info@);
        }
        let mut members = g.processes_info;
        let ghost mems = members@;
        while members.len() > 0
            invariant
                out@.to_multiset().add(members@.to_multiset()).add(
                    group_members(groups@).to_multiset(),
                ) == group_members(orig).to_multiset(),
            decreases members@.len(),
        {
            let ghost mpre = members@;
            let p = match members.pop() {
                Some(p) => p,
                None => {
                    proof {
                        assert(false);
                    }
                    unreached()
                },
            };
            proof {
                assert(mpre.drop_last() =~= members@);
                assert(mpre =~= members@.push(p));
            }
            out.push(p);
            proof {
                assert(out@.to_multiset().add(members@.to_multiset()).add(
                    group_members(groups@).to_multiset(),
                ) =~= group_members(orig).to_multiset());
            }
        }
        proof {
            assert(members@.to_multiset() =~= Multiset::<ProcessInfo>::empty());
            assert(out@.to_multiset().add(group_members(groups@).to_multiset())
                =~= group_members(orig).to_multiset());
        }
    }
    proof {
        assert(group_members(groups@) =~= Seq::<ProcessInfo>::empty());
        assert(group_members(groups@).to_multiset() =~= Multiset::<ProcessInfo>::empty());
        assert(out@.to_multiset() =~= group_members(orig).to_multiset());
    }
    out
}

/// A splitter: partitions a process collection into named group aggregates,
/// lists the groups, reports on them, and can flatten them back into one
/// collection.
///
/// Whatever the variant, the partition is total: the members of all groups
/// together are exactly the processes handed to `split`.
pub trait ProcessSplitter: Sized {
    /// The groups this splitter holds, in order.
    spec fn groups_view(&self) -> Seq<ProcessGroupInfo>;

    /// The split's name, as the report title shows it.
    spec fn spec_name(&self) -> Seq<char>;

    /// A short human name for the split.
    fn name(&self) -> (r: String)
        ensures
            r@ == self.spec_name(),
    ;

    /// Partition the processes into this splitter's groups. Pure
    /// rearrangement: no metric is computed here.
    fn __split(
        &mut self,
        tree: &ProcessTree,
        shms_metadata: &ShmsMetadata,
        processes: Vec<ProcessInfo>,
    )
        requires
            old(self).groups_view().len() == 0,
        ensures
            groups_wf(final(self).groups_view()),
            group_members(final(self).groups_view()).to_multiset() == processes@.to_multiset(),
    ;

    /// Partition the processes: what `__split` does (the original wraps it
    /// only in timing diagnostics).
    fn split(
        &mut self,
        tree: &ProcessTree,
        shms_metadata: &ShmsMetadata,
        processes: Vec<ProcessInfo>,
    )
        requires
            old(self).groups_view().len() == 0,
        ensures
            groups_wf(final(self).groups_view()),
            group_members(final(self).groups_view()).to_multiset() == processes@.to_multiset(),
    {
        self.__split(tree, shms_metadata, processes);
    }

    /// The groups, for reporting.
    fn iter_groups(&self) -> (groups: &Vec<ProcessGroupInfo>)
        ensures
            groups@ == self.groups_view(),
    ;

    /// Consume the splitter and recover the processes of all its groups.
    fn collect_processes(self) -> (procs: Vec<ProcessInfo>)
        ensures
            procs@.to_multiset() == group_members(self.groups_view()).to_multiset(),
    ;

    /// Render this splitter's report with the machine's page size: the
    /// figures of every group against all the others, as table lines.
    /// `None` when a figure overflows the table's range.
    fn display(&self, shm_metadata: &ShmsMetadata) -> (r: Option<Vec<String>>)
        requires
            groups_wf(self.groups_view()),
        ensures
            match r {
                Some(lines) => exists|page_size: u64, rows: Seq<ReportRow>|
                    report_fits(self.groups_view(), shm_metadata, page_size as int)
                        && #[trigger] report_post(
                        self.groups_view(),
                        shm_metadata,
                        page_size as int,
                        rows,
                    ) && lines@.map_values(|s: String| s@) == crate::text::table_lines_spec(
                        self.spec_name(),
                        rows,
                    ),
                None => exists|page_size: u64|
                    !report_fits(self.groups_view(), shm_metadata, page_size as int),
            },
    {
        let page_size = os_page_size();
        let groups = self.iter_groups();
        match crate::report::try_report(groups, shm_metadata, page_size) {
            Some(rows) => {
                let name = self.name();
                let lines = crate::text::render_table(&name, &rows);
                proof {
                    assert(report_post(
                        self.groups_view(),
                        shm_metadata,
                        page_size as int,
                        rows@,
                    ));
                }
                Some(lines)
            },
            None => None,
        }
    }
}


/// The predicate "the pid list names this process".
pub open spec fn pid_matches(pids: Seq<i32>) -> spec_fn(ProcessInfo) -> bool {
    |p: ProcessInfo| pids.contains(p.pid)
}

/// The predicate "the variable has this value in the process's
/// environment" (`None`: the variable is absent).
pub open spec fn env_matches(var: Seq<char>, val: Option<Seq<char>>) -> spec_fn(
    ProcessInfo,
) -> bool {
    |p: ProcessInfo| p.spec_env_value(var) == val
}

/// The predicate "the variable's value in the process's environment is one
/// of these".
pub open spec fn env_in(var: Seq<char>, vals: Seq<Option<Seq<char>>>) -> spec_fn(
    ProcessInfo,
) -> bool {
    |p: ProcessInfo| vals.contains(p.spec_env_value(var))
}

/// The predicate "this user owns the process".
pub open spec fn uid_matches(uid: u32) -> spec_fn(ProcessInfo) -> bool {
    |p: ProcessInfo| p.uid == uid
}

/// The predicate "the owner is one of these".
pub open spec fn uid_in(uids: Seq<u32>) -> spec_fn(ProcessInfo) -> bool {
    |p: ProcessInfo| uids.contains(p.uid)
}

/// The predicate "the filter accepts this process".
pub open spec fn filter_matches<F: Filter>(f: F, tree: &ProcessTree) -> spec_fn(
    ProcessInfo,
) -> bool {
    |p: ProcessInfo| f.matches(&p, tree)
}

/// Filtering twice is filtering by the conjunction.
proof fn lemma_filter_compose(
    s: Seq<ProcessInfo>,
    a: spec_fn(ProcessInfo) -> bool,
    b: spec_fn(ProcessInfo) -> bool,
    c: spec_fn(ProcessInfo) -> bool,
)
    requires
        forall|p: ProcessInfo| #[trigger] c(p) <==> a(p) && b(p),
    ensures
        s.filter(a).filter(b) == s.filter(c),
    decreases s.len(),
{
    reveal(Seq::filter);
    if s.len() == 0 {
        assert(s.filter(a) =~= Seq::<ProcessInfo>::empty());
        assert(s.filter(a).filter(b) =~= Seq::<ProcessInfo>::empty());
        assert(s.filter(c) =~= Seq::<ProcessInfo>::empty());
    } else {
        let pre = s.drop_last();
        let x = s.last();
        lemma_filter_compose(pre, a, b, c);
        assert(s =~= pre.push(x));
        assert(pre.push(x).filter(a) == if a(x) {
            pre.filter(a).push(x)
        } else {
            pre.filter(a)
        });
        if a(x) {
            assert(pre.filter(a).push(x).filter(b) == if b(x) {
                pre.filter(a).filter(b).push(x)
            } else {
                pre.filter(a).filter(b)
            });
        }
        assert(pre.push(x).filter(c) == if c(x) {
            pre.filter(c).push(x)
        } else {
            pre.filter(c)
        });
        assert(s.filter(a).filter(b) == s.filter(c));
    }
}

/// Dropping the rejects of a predicate true of the first element leaves a
/// strictly shorter sequence.
proof fn lemma_filter_out_first(s: Seq<ProcessInfo>, pred: spec_fn(ProcessInfo) -> bool)
    requires
        s.len() > 0,
        pred(s[0]),
    ensures
        s.filter(spec_not(pred)).len() < s.len(),
{
    reveal(Seq::filter);
    assert(s =~= seq![s[0]] + s.drop_first());
    assert(seq![s[0]].filter(spec_not(pred)) =~= Seq::<ProcessInfo>::empty()) by {
        assert(seq![s[0]].drop_last() =~= Seq::<ProcessInfo>::empty());
        assert(Seq::<ProcessInfo>::empty().filter(spec_not(pred))
            =~= Seq::<ProcessInfo>::empty());
    }
    assert((seq![s[0]] + s.drop_first()).filter(spec_not(pred)) == seq![s[0]].filter(
        spec_not(pred),
    ) + s.drop_first().filter(spec_not(pred)));
    assert(s.filter(spec_not(pred)) =~= s.drop_first().filter(spec_not(pred)));
    s.drop_first().lemma_filter_len(spec_not(pred));
}

/// Whether `x` occurs in the pid list.
fn pid_in(v: &Vec<i32>, x: i32) -> (r: bool)
    ensures
        r == v@.contains(x),
{
    let n = v.len();
    let mut i: usize = 0;
    while i < n
        invariant
            0 <= i <= n,
            n == v@.len(),
            forall|j: int| 0 <= j < i ==> v@[j] != x,
        decreases n - i,
    {
        if v[i] == x {
            return true;
        }
        i = i + 1;
    }
    false
}

/// The PID-list group's name: the pids' decimal renderings joined by
/// commas.
pub open spec fn joined_pids(pids: Seq<i32>) -> Seq<char> {
    join_seqs(pids.map_values(|p: i32| decimal_i32(p as int)), ", "@)
}

/// Splits a process collection in two: the processes whose pid a fixed
/// caller-supplied list names, and all the others.
pub struct ProcessSplitterPids {
    pub pids: Vec<i32>,
    pub groups: Vec<ProcessGroupInfo>,
}

impl ProcessSplitterPids {
    /// A splitter for this pid list, with no groups yet.
    pub fn new(pids: &Vec<i32>) -> (r: Self)
        ensures
            r.pids@ == pids@,
            r.groups@.len() == 0,
    {
        let n = pids.len();
        let mut owned: Vec<i32> = Vec::new();
        let mut i: usize = 0;
        while i < n
            invariant
                0 <= i <= n,
                n == pids@.len(),
                owned@ == pids@.take(i as int),
            decreases n - i,
        {
            owned.push(pids[i]);
            proof {
                assert(pids@.take(i + 1).drop_last() =~= pids@.take(i as int));
                assert(owned@ =~= pids@.take(i + 1));
            }
            i = i + 1;
        }
        proof {
            assert(pids@.take(n as int) =~= pids@);
        }
        ProcessSplitterPids { pids: owned, groups: Vec::new() }
    }
}

impl ProcessSplitter for ProcessSplitterPids {
    open spec fn groups_view(&self) -> Seq<ProcessGroupInfo> {
        self.groups@
    }

    open spec fn spec_name(&self) -> Seq<char> {
        "PID list"@
    }

    fn name(&self) -> (r: String) {
        String::from_str("PID list")
    }

    /// Always exactly two groups: the named pids (named by the joined
    /// list), then everything else as "Others PIDs".
    fn __split(
        &mut self,
        tree: &ProcessTree,
        shms_metadata: &ShmsMetadata,
        processes: Vec<ProcessInfo>,
    )
        ensures
            final(self).pids == old(self).pids,
            final(self).groups@.len() == 2,
            final(self).groups@[0].processes_info@ == processes@.filter(
                pid_matches(old(self).pids@),
            ),
            final(self).groups@[1].processes_info@ == processes@.filter(
                spec_not(pid_matches(old(self).pids@)),
            ),
            final(self).groups@[0].name@ == joined_pids(old(self).pids@),
            final(self).groups@[1].name@ == "Others PIDs"@,
    {
        let ghost pidseq = self.pids@;
        let mut procs = processes;
        let ghost orig = procs@;
        let pids_ref = &self.pids;
        let pred = (|p: &ProcessInfo| -> (r: bool)
            ensures
                r == pids_ref@.contains(p.pid),
            {
                pid_in(pids_ref, p.pid)
            });
        let matched = drain_where(&mut procs, pred, Ghost(pid_matches(pidseq)));

        let n = self.pids.len();
        let mut parts: Vec<String> = Vec::new();
        let mut i: usize = 0;
        while i < n
            invariant
                0 <= i <= n,
                n == self.pids@.len(),
                self.pids@ == pidseq,
                parts@.len() == i,
                forall|k: int|
                    0 <= k < i ==> (#[trigger] parts@[k])@ == decimal_i32(pidseq[k] as int),
            decreases n - i,
        {
            parts.push(i32_to_string(self.pids[i]));
            i = i + 1;
        }
        let name_0 = join_strings(&parts, ", ");
        proof {
            assert(parts@.map_values(|s: String| s@) =~= pidseq.map_values(
                |p: i32| decimal_i32(p as int),
            ));
        }
        let name_1 = String::from_str("Others PIDs");
        let group_0 = processes_group_info(matched, name_0);
        let group_1 = processes_group_info(procs, name_1);
        self.groups.push(group_0);
        self.groups.push(group_1);
        proof {
            let gs = self.groups@;
            let e = Seq::<ProcessGroupInfo>::empty();
            assert(gs =~= seq![group_0, group_1]);
            assert(seq![group_0, group_1].drop_last() =~= seq![group_0]);
            assert(seq![group_0].drop_last() =~= e);
            assert(group_members(e) == Seq::<ProcessInfo>::empty());
            assert(seq![group_0].last() == group_0);
            assert(group_members(seq![group_0]) =~= group_0.processes_info@);
            assert(seq![group_0, group_1].last() == group_1);
            assert(group_members(gs) =~= group_0.processes_info@ + group_1.processes_info@);
            lemma_filter_partition_multiset(orig, pid_matches(pidseq));
            assert(group_members(gs).to_multiset() =~= processes@.to_multiset());
            assert(groups_wf(gs));
        }
    }

    fn iter_groups(&self) -> (groups: &Vec<ProcessGroupInfo>) {
        &self.groups
    }

    fn collect_processes(self) -> (procs: Vec<ProcessInfo>) {
        flatten_groups(self.groups)
    }
}



/// A sequence membership fact: pushing adds exactly one possible witness.
proof fn lemma_push_contains<A>(s: Seq<A>, x: A, y: A)
    ensures
        s.push(x).contains(y) <==> s.contains(y) || y == x,
{
    if s.push(x).contains(y) {
        let i = choose|i: int| 0 <= i < s.push(x).len() && s.push(x)[i] == y;
        if i < s.len() {
            assert(s[i] == y);
        }
    }
    if s.contains(y) {
        let i = choose|i: int| 0 <= i < s.len() && s[i] == y;
        assert(s.push(x)[i] == y);
    }
    if y == x {
        assert(s.push(x)[s.len() as int] == y);
    }
}

/// Filtering by a predicate true everywhere keeps the sequence.
proof fn lemma_filter_true(s: Seq<ProcessInfo>, pred: spec_fn(ProcessInfo) -> bool)
    requires
        forall|p: ProcessInfo| #[trigger] pred(p),
    ensures
        s.filter(pred) == s,
    decreases s.len(),
{
    reveal(Seq::filter);
    if s.len() == 0 {
        assert(s.filter(pred) =~= s);
    } else {
        let pre = s.drop_last();
        lemma_filter_true(pre, pred);
        assert(s =~= pre.push(s.last()));
        assert(pre.push(s.last()).filter(pred) == pre.filter(pred).push(s.last()));
        assert(s.filter(pred) =~= s);
    }
}

/// An `Option<String>` seen at the view level.
pub open spec fn opt_string_view(s: Option<String>) -> Option<Seq<char>> {
    match s {
        Some(x) => Some(x@),
        None => None,
    }
}

/// The group name for one environment value: an explicit rendering with a
/// distinguished form for the absent case.
pub open spec fn env_name_spec(v: Option<Seq<char>>) -> Seq<char> {
    match v {
        Some(s) => "Some(\""@ + s + "\")"@,
        None => "None"@,
    }
}

/// Render the group name for one environment value.
pub fn env_group_name(sid: &Option<String>) -> (name: String)
    ensures
        name@ == env_name_spec(opt_string_view(*sid)),
{
    match sid {
        Some(s) => {
            let mut name = String::from_str("Some(\"");
            name.append(s.as_str());
            name.append("\")");
            name
        },
        None => String::from_str("None"),
    }
}

/// The group name for a uid: the account name where resolution succeeded,
/// else the numeric id's digits.
pub open spec fn uid_name_spec(uid: u32, resolved: Option<Seq<char>>) -> Seq<char> {
    match resolved {
        Some(n) => n,
        None => crate::text::decimal_digits(uid as nat),
    }
}

/// Build the group name for a uid from the resolution outcome, whatever it
/// was.
pub fn uid_group_name_from(uid: u32, resolved: Option<String>) -> (name: String)
    ensures
        name@ == uid_name_spec(uid, opt_string_view(resolved)),
{
    match resolved {
        Some(n) => n,
        None => crate::text::u64_to_string(uid as u64),
    }
}

/// Whether the variable has the given value in the process's environment.
fn env_value_matches(p: &ProcessInfo, var: &String, sid: &Option<String>) -> (r: bool)
    ensures
        r == (p.spec_env_value(var@) == opt_string_view(*sid)),
{
    match (p.env_value(var), sid) {
        (Some(a), Some(b)) => a.eq(b),
        (None, None) => true,
        _ => false,
    }
}

/// The owner ids of the groups, one per group, read from each group's
/// first member.
pub open spec fn group_uids(groups: Seq<ProcessGroupInfo>) -> Seq<u32> {
    groups.map_values(|g: ProcessGroupInfo| g.processes_info@[0].uid)
}

/// Splits a process collection by owner: one group per distinct owner id
/// observed, named by the resolved account name with the numeric id as the
/// fallback.
pub struct ProcessSplitterUid {
    pub groups: Vec<ProcessGroupInfo>,
}

impl ProcessSplitterUid {
    /// A splitter with no groups yet.
    pub fn new() -> (r: Self)
        ensures
            r.groups@.len() == 0,
    {
        ProcessSplitterUid { groups: Vec::new() }
    }
}

impl ProcessSplitter for ProcessSplitterUid {
    open spec fn groups_view(&self) -> Seq<ProcessGroupInfo> {
        self.groups@
    }

    open spec fn spec_name(&self) -> Seq<char> {
        "UID"@
    }

    fn name(&self) -> (r: String) {
        String::from_str("UID")
    }

    /// One group per distinct owner id, in order of first occurrence; each
    /// group holds exactly the processes that owner owns. The names come
    /// from the host's user database, so nothing is promised of them.
    fn __split(
        &mut self,
        tree: &ProcessTree,
        shms_metadata: &ShmsMetadata,
        processes: Vec<ProcessInfo>,
    )
        ensures
            forall|k: int|
                0 <= k < final(self).groups@.len() ==> {
                    let gm = (#[trigger] final(self).groups@[k]).processes_info@;
                    gm.len() > 0 && gm == processes@.filter(uid_matches(gm[0].uid))
                },
            forall|k1: int, k2: int|
                0 <= k1 < k2 < final(self).groups@.len()
                    ==> (#[trigger] final(self).groups@[k1]).processes_info@[0].uid != (
                #[trigger] final(self).groups@[k2]).processes_info@[0].uid,
    {
        let mut procs = processes;
        let ghost orig = procs@;
        proof {
            assert(group_members(self.groups@) =~= Seq::<ProcessInfo>::empty());
            assert(group_members(self.groups@).to_multiset() =~= Multiset::<
                ProcessInfo,
            >::empty());
            assert(group_uids(self.groups@) =~= Seq::<u32>::empty());
            assert forall|p: ProcessInfo| #[trigger] spec_not(uid_in(group_uids(self.groups@)))(
                p,
            ) by {
                assert(!group_uids(self.groups@).contains(p.uid));
            }
            lemma_filter_true(orig, spec_not(uid_in(group_uids(self.groups@))));
        }
        while procs.len() > 0
            invariant
                forall|k: int|
                    0 <= k < self.groups@.len() ==> {
                        let gm = (#[trigger] self.groups@[k]).processes_info@;
                        gm.len() > 0 && gm == orig.filter(uid_matches(gm[0].uid))
                            && self.groups@[k].wf()
                    },
                forall|k1: int, k2: int|
                    0 <= k1 < k2 < self.groups@.len()
                        ==> (#[trigger] self.groups@[k1]).processes_info@[0].uid != (
                    #[trigger] self.groups@[k2]).processes_info@[0].uid,
                procs@ == orig.filter(spec_not(uid_in(group_uids(self.groups@)))),
                group_members(self.groups@).to_multiset().add(procs@.to_multiset())
                    == orig.to_multiset(),
            decreases procs@.len(),
        {
            let ghost pre = procs@;
            let ghost gpre = self.groups@;
            let ghost vals = group_uids(gpre);
            let uid = procs[0].uid;
            proof {
                orig.lemma_filter_pred(spec_not(uid_in(vals)), 0);
                assert(spec_not(uid_in(vals))(pre[0]));
                assert(!vals.contains(uid));
            }
            let pred = (|p: &ProcessInfo| -> (r: bool)
                ensures
                    r == (p.uid == uid),
                {
                    p.uid == uid
                });
            let matched = drain_where(&mut procs, pred, Ghost(uid_matches(uid)));
            proof {
                assert forall|p: ProcessInfo| #[trigger] uid_matches(uid)(p) <==> (spec_not(
                    uid_in(vals),
                )(p) && uid_matches(uid)(p)) by {
                    if uid_matches(uid)(p) {
                        assert(p.uid == uid);
                        assert(!vals.contains(p.uid));
                    }
                }
                lemma_filter_compose(
                    orig,
                    spec_not(uid_in(vals)),
                    uid_matches(uid),
                    uid_matches(uid),
                );
                assert(matched@ == orig.filter(uid_matches(uid)));
                assert(uid_matches(uid)(pre[0]));
                pre.lemma_filter_contains(uid_matches(uid), 0);
                assert(matched@.len() > 0);
                pre.lemma_filter_pred(uid_matches(uid), 0);
                assert(matched@[0].uid == uid);
                lemma_filter_out_first(pre, uid_matches(uid));
                lemma_filter_partition_multiset(pre, uid_matches(uid));
            }
            let resolved = crate::sysapi::lookup_username(uid);
            let name = uid_group_name_from(uid, resolved);
            let g = processes_group_info(matched, name);
            self.groups.push(g);
            proof {
                let gs = self.groups@;
                assert(gs.drop_last() =~= gpre);
                assert(gs.last() == g);
                lemma_group_members_push(gpre, g);
                assert(g.processes_info@[0].uid == uid);
                assert(group_uids(gs) =~= vals.push(uid)) by {
                    assert forall|k: int| 0 <= k < gs.len() implies group_uids(gs)[k]
                        == vals.push(uid)[k] by {
                        if k < gpre.len() {
                            assert(gs[k] == gpre[k]);
                        }
                    }
                }
                assert forall|p: ProcessInfo| #[trigger] spec_not(uid_in(vals.push(uid)))(p)
                    <==> (spec_not(uid_in(vals))(p) && spec_not(uid_matches(uid))(p)) by {
                    lemma_push_contains(vals, uid, p.uid);
                }
                lemma_filter_compose(
                    orig,
                    spec_not(uid_in(vals)),
                    spec_not(uid_matches(uid)),
                    spec_not(uid_in(vals.push(uid))),
                );
                assert(procs@ == orig.filter(spec_not(uid_in(group_uids(gs)))));
                assert forall|k1: int, k2: int|
                    0 <= k1 < k2 < gs.len() implies (#[trigger] gs[k1]).processes_info@[0].uid
                    != (#[trigger] gs[k2]).processes_info@[0].uid by {
                    if k2 == gs.len() - 1 {
                        assert(gs[k1] == gpre[k1]);
                        assert(vals[k1] == gpre[k1].processes_info@[0].uid);
                        assert(vals.contains(vals[k1]));
                    }
                }
                assert(group_members(gs).to_multiset().add(procs@.to_multiset())
                    =~= orig.to_multiset());
            }
        }
        proof {
            assert(procs@.to_multiset() =~= Multiset::<ProcessInfo>::empty());
            assert(group_members(self.groups@).to_multiset() =~= processes@.to_multiset());
        }
    }

    fn iter_groups(&self) -> (groups: &Vec<ProcessGroupInfo>) {
        &self.groups
    }

    fn collect_processes(self) -> (procs: Vec<ProcessInfo>) {
        flatten_groups(self.groups)
    }
}


/// The environment values of the groups, one per group, read from each
/// group's first member.
pub open spec fn group_env_values(groups: Seq<ProcessGroupInfo>, var: Seq<char>) -> Seq<
    Option<Seq<char>>,
> {
    groups.map_values(|g: ProcessGroupInfo| g.processes_info@[0].spec_env_value(var))
}

/// Splits a process collection by the value of one environment variable:
/// one group per distinct value observed, plus a distinguished group for
/// the processes where the variable is absent.
pub struct ProcessSplitterEnvVariable {
    pub var: String,
    pub groups: Vec<ProcessGroupInfo>,
}

impl ProcessSplitterEnvVariable {
    /// A splitter for this variable, with no groups yet.
    pub fn new(var: String) -> (r: Self)
        ensures
            r.var == var,
            r.groups@.len() == 0,
    {
        ProcessSplitterEnvVariable { var, groups: Vec::new() }
    }
}

impl ProcessSplitter for ProcessSplitterEnvVariable {
    open spec fn groups_view(&self) -> Seq<ProcessGroupInfo> {
        self.groups@
    }

    open spec fn spec_name(&self) -> Seq<char> {
        "environment variable "@ + self.var@
    }

    fn name(&self) -> (r: String) {
        let mut r = String::from_str("environment variable ");
        r.append(self.var.as_str());
        r
    }

    /// One group per distinct value of the variable, in order of first
    /// occurrence; each group holds exactly the processes carrying that
    /// value, and is named by the value's rendering, the absent case with
    /// its own explicit form.
    fn __split(
        &mut self,
        tree: &ProcessTree,
        shms_metadata: &ShmsMetadata,
        processes: Vec<ProcessInfo>,
    )
        ensures
            final(self).var == old(self).var,
            forall|k: int|
                0 <= k < final(self).groups@.len() ==> {
                    let gm = (#[trigger] final(self).groups@[k]).processes_info@;
                    gm.len() > 0 && gm == processes@.filter(
                        env_matches(old(self).var@, gm[0].spec_env_value(old(self).var@)),
                    ) && final(self).groups@[k].name@ == env_name_spec(
                        gm[0].spec_env_value(old(self).var@),
                    )
                },
            forall|k1: int, k2: int|
                0 <= k1 < k2 < final(self).groups@.len()
                    ==> (#[trigger] final(self).groups@[k1]).processes_info@[0].spec_env_value(
                    old(self).var@,
                ) != (#[trigger] final(self).groups@[k2]).processes_info@[0].spec_env_value(
                    old(self).var@,
                ),
    {
        let var = self.var.clone();
        let ghost vw = var@;
        let mut procs = processes;
        let ghost orig = procs@;
        proof {
            assert(group_members(self.groups@) =~= Seq::<ProcessInfo>::empty());
            assert(group_members(self.groups@).to_multiset() =~= Multiset::<
                ProcessInfo,
            >::empty());
            assert(group_env_values(self.groups@, vw) =~= Seq::<Option<Seq<char>>>::empty());
            assert forall|p: ProcessInfo| #[trigger] spec_not(
                env_in(vw, group_env_values(self.groups@, vw)),
            )(p) by {
                assert(!group_env_values(self.groups@, vw).contains(p.spec_env_value(vw)));
            }
            lemma_filter_true(orig, spec_not(env_in(vw, group_env_values(self.groups@, vw))));
        }
        while procs.len() > 0
            invariant
                vw == var@,
                self.var == old(self).var,
                forall|k: int|
                    0 <= k < self.groups@.len() ==> {
                        let gm = (#[trigger] self.groups@[k]).processes_info@;
                        gm.len() > 0 && gm == orig.filter(
                            env_matches(vw, gm[0].spec_env_value(vw)),
                        ) && self.groups@[k].name@ == env_name_spec(gm[0].spec_env_value(vw))
                            && self.groups@[k].wf()
                    },
                forall|k1: int, k2: int|
                    0 <= k1 < k2 < self.groups@.len()
                        ==> (#[trigger] self.groups@[k1]).processes_info@[0].spec_env_value(vw)
                        != (#[trigger] self.groups@[k2]).processes_info@[0].spec_env_value(vw),
                procs@ == orig.filter(spec_not(env_in(vw, group_env_values(self.groups@, vw)))),
                group_members(self.groups@).to_multiset().add(procs@.to_multiset())
                    == orig.to_multiset(),
            decreases procs@.len(),
        {
            let ghost pre = procs@;
            let ghost gpre = self.groups@;
            let ghost vals = group_env_values(gpre, vw);
            let sid: Option<String> = match procs[0].env_value(&var) {
                Some(s) => Some(s.clone()),
                None => None,
            };
            let ghost v = opt_string_view(sid);
            proof {
                assert(v == pre[0].spec_env_value(vw));
                orig.lemma_filter_pred(spec_not(env_in(vw, vals)), 0);
                assert(spec_not(env_in(vw, vals))(pre[0]));
                assert(!vals.contains(v));
            }
            let var_ref = &var;
            let sid_ref = &sid;
            let pred = (|p: &ProcessInfo| -> (r: bool)
                ensures
                    r == (p.spec_env_value(var_ref@) == opt_string_view(*sid_ref)),
                {
                    env_value_matches(p, var_ref, sid_ref)
                });
            let matched = drain_where(&mut procs, pred, Ghost(env_matches(vw, v)));
            proof {
                assert forall|p: ProcessInfo| #[trigger] env_matches(vw, v)(p) <==> (spec_not(
                    env_in(vw, vals),
                )(p) && env_matches(vw, v)(p)) by {
                    if env_matches(vw, v)(p) {
                        assert(p.spec_env_value(vw) == v);
                        assert(!vals.contains(p.spec_env_value(vw)));
                    }
                }
                lemma_filter_compose(
                    orig,
                    spec_not(env_in(vw, vals)),
                    env_matches(vw, v),
                    env_matches(vw, v),
                );
                assert(matched@ == orig.filter(env_matches(vw, v)));
                assert(env_matches(vw, v)(pre[0]));
                pre.lemma_filter_contains(env_matches(vw, v), 0);
                assert(matched@.len() > 0);
                pre.lemma_filter_pred(env_matches(vw, v), 0);
                assert(matched@[0].spec_env_value(vw) == v);
                lemma_filter_out_first(pre, env_matches(vw, v));
                lemma_filter_partition_multiset(pre, env_matches(vw, v));
            }
            let name = env_group_name(&sid);
            let g = processes_group_info(matched, name);
            self.groups.push(g);
            proof {
                let gs = self.groups@;
                assert(gs.drop_last() =~= gpre);
                assert(gs.last() == g);
                lemma_group_members_push(gpre, g);
                assert(g.processes_info@[0].spec_env_value(vw) == v);
                assert(group_env_values(gs, vw) =~= vals.push(v)) by {
                    assert forall|k: int| 0 <= k < gs.len() implies group_env_values(gs, vw)[k]
                        == vals.push(v)[k] by {
                        if k < gpre.len() {
                            assert(gs[k] == gpre[k]);
                        }
                    }
                }
                assert forall|p: ProcessInfo| #[trigger] spec_not(env_in(vw, vals.push(v)))(p)
                    <==> (spec_not(env_in(vw, vals))(p) && spec_not(env_matches(vw, v))(p)) by {
                    lemma_push_contains(vals, v, p.spec_env_value(vw));
                }
                lemma_filter_compose(
                    orig,
                    spec_not(env_in(vw, vals)),
                    spec_not(env_matches(vw, v)),
                    spec_not(env_in(vw, vals.push(v))),
                );
                assert(procs@ == orig.filter(spec_not(env_in(vw, group_env_values(gs, vw)))));
                assert forall|k1: int, k2: int|
                    0 <= k1 < k2 < gs.len() implies (
                #[trigger] gs[k1]).processes_info@[0].spec_env_value(vw) != (
                #[trigger] gs[k2]).processes_info@[0].spec_env_value(vw) by {
                    if k2 == gs.len() - 1 {
                        assert(gs[k1] == gpre[k1]);
                        assert(vals[k1] == gpre[k1].processes_info@[0].spec_env_value(vw));
                        assert(vals.contains(vals[k1]));
                    }
                }
                assert(group_members(gs).to_multiset().add(procs@.to_multiset())
                    =~= orig.to_multiset());
            }
        }
        proof {
            assert(procs@.to_multiset() =~= Multiset::<ProcessInfo>::empty());
            assert(group_members(self.groups@).to_multiset() =~= processes@.to_multiset());
        }
    }

    fn iter_groups(&self) -> (groups: &Vec<ProcessGroupInfo>) {
        &self.groups
    }

    fn collect_processes(self) -> (procs: Vec<ProcessInfo>) {
        flatten_groups(self.groups)
    }
}


/// What remains of the processes after the first `i` filters each took
/// their matches, in order: first match wins, a process is never retested.
pub open spec fn remaining_after<F: Filter>(
    procs: Seq<ProcessInfo>,
    filters: Seq<F>,
    tree: &ProcessTree,
    i: int,
) -> Seq<ProcessInfo>
    decreases i,
{
    if i <= 0 {
        procs
    } else {
        remaining_after(procs, filters, tree, i - 1).filter(
            spec_not(filter_matches(filters[i - 1], tree)),
        )
    }
}

/// Why a filter splitter could not be built.
#[derive(Debug)]
pub enum FilterError {
    /// The filter text was not ASCII.
    NotAscii,
    /// The collaborator parser refused this remainder of the text.
    InvalidFilter { remainder: String },
}

/// The chunks, each followed by one separator character, pack the input
/// exactly from its start to `end`.
pub open spec fn chunks_prefix(input: Seq<char>, names: Seq<Seq<char>>, end: int) -> bool
    decreases names.len(),
{
    if names.len() == 0 {
        end == 0
    } else {
        let last = names.last();
        &&& last.len() + 1 <= end <= input.len()
        &&& input.subrange(end - 1 - last.len(), end - 1) == last
        &&& chunks_prefix(input, names.drop_last(), end - 1 - last.len())
    }
}

/// The chunks cover the whole input: every chunk but the last is followed
/// by one separator character, and the last ends the input.
pub open spec fn split_shape(input: Seq<char>, names: Seq<Seq<char>>) -> bool {
    &&& names.len() >= 1
    &&& names.last().len() <= input.len()
    &&& input.subrange(input.len() - names.last().len(), input.len() as int) == names.last()
    &&& chunks_prefix(input, names.drop_last(), input.len() - names.last().len())
}

/// The position where chunk `k` begins: each earlier chunk plus its one
/// separator character.
pub open spec fn chunk_start(names: Seq<Seq<char>>, k: int) -> int
    decreases k,
{
    if k <= 0 {
        0
    } else {
        chunk_start(names, k - 1) + names[k - 1].len() + 1
    }
}

/// The parser, called on the input's suffix at `start`, returned exactly
/// this filter and consumed exactly `consumed` characters.
pub open spec fn parser_accepted<F: Filter, P: Fn(&str) -> Option<(F, usize)>>(
    parser: P,
    input: Seq<char>,
    start: int,
    f: F,
    consumed: int,
) -> bool {
    exists|s: &str|
        s@ == input.subrange(start, input.len() as int) && #[trigger] call_ensures(
            parser,
            (s,),
            Some((f, consumed as usize)),
        )
}

/// Chunk starts depend only on the earlier chunks.
proof fn lemma_chunk_start_prefix(a: Seq<Seq<char>>, b: Seq<Seq<char>>, k: int)
    requires
        0 <= k <= a.len(),
        k <= b.len(),
        forall|j: int| 0 <= j < k ==> a[j] == b[j],
    ensures
        chunk_start(a, k) == chunk_start(b, k),
    decreases k,
{
    if k > 0 {
        lemma_chunk_start_prefix(a, b, k - 1);
    }
}

/// Splits a process collection by an ordered list of named filter
/// predicates, parsed from one ASCII string: the first matching filter
/// claims the process, and the leftover processes form an "Other" group.
pub struct ProcessSplitterCustomFilter<F: Filter> {
    pub name: String,
    pub filters: Vec<F>,
    pub names: Vec<String>,
    pub groups: Vec<ProcessGroupInfo>,
}

impl<F: Filter> ProcessSplitterCustomFilter<F> {
    /// Build the splitter from the filter text, calling the collaborator
    /// parser on each comma-separated piece. Fails fast: on non-ASCII text,
    /// or when the parser refuses what remains, naming that remainder.
    pub fn new<P: Fn(&str) -> Option<(F, usize)>>(input: &str, parser: P) -> (r: Result<
        Self,
        FilterError,
    >)
        requires
            forall|s: &str| #[trigger] call_requires(parser, (s,)),
            forall|s: &str, ret: Option<(F, usize)>|
                #[trigger] call_ensures(parser, (s,), ret) ==> (ret matches Some(p) ==> p.1
                    <= s@.len()),
        ensures
            !input.is_ascii() ==> r matches Err(FilterError::NotAscii),
            match r {
                Ok(sp) => {
                    &&& sp.name@ == input@
                    &&& sp.filters@.len() == sp.names@.len()
                    &&& sp.groups@.len() == 0
                    &&& split_shape(input@, sp.names@.map_values(|n: String| n@))
                    &&& forall|k: int|
                        0 <= k < sp.names@.len() ==> parser_accepted(
                            parser,
                            input@,
                            chunk_start(sp.names@.map_values(|n: String| n@), k),
                            #[trigger] sp.filters@[k],
                            sp.names@[k]@.len() as int,
                        )
                },
                Err(FilterError::NotAscii) => !input.is_ascii(),
                Err(FilterError::InvalidFilter { remainder }) => {
                    &&& input.is_ascii()
                    &&& exists|c: int|
                        0 <= c <= input@.len() && remainder@ == input@.subrange(
                            c,
                            input@.len() as int,
                        )
                    &&& exists|s: &str|
                        s@ == remainder@ && #[trigger] call_ensures(
                            parser,
                            (s,),
                            None::<(F, usize)>,
                        )
                },
            },
    {
        if !input.is_ascii() {
            return Err(FilterError::NotAscii);
        }
        let len = input.unicode_len();
        let mut filters: Vec<F> = Vec::new();
        let mut names: Vec<String> = Vec::new();
        let mut counter: usize = 0;
        loop
            invariant_except_break
                chunks_prefix(input@, names@.map_values(|n: String| n@), counter as int),
                counter as int == chunk_start(
                    names@.map_values(|n: String| n@),
                    names@.len() as int,
                ),
            invariant
                input.is_ascii(),
                len == input@.len(),
                0 <= counter <= len,
                filters@.len() == names@.len(),
                forall|k: int|
                    0 <= k < names@.len() ==> parser_accepted(
                        parser,
                        input@,
                        chunk_start(names@.map_values(|n: String| n@), k),
                        #[trigger] filters@[k],
                        names@[k]@.len() as int,
                    ),
                forall|s: &str| #[trigger] call_requires(parser, (s,)),
                forall|s: &str, ret: Option<(F, usize)>|
                    #[trigger] call_ensures(parser, (s,), ret) ==> (ret matches Some(p) ==> p.1
                        <= s@.len()),
            ensures
                split_shape(input@, names@.map_values(|n: String| n@)),
                forall|k: int|
                    0 <= k < names@.len() ==> parser_accepted(
                        parser,
                        input@,
                        chunk_start(names@.map_values(|n: String| n@), k),
                        #[trigger] filters@[k],
                        names@[k]@.len() as int,
                    ),
            decreases len - counter,
        {
            let rest = input.substring_ascii(counter, len);
            match parser(rest) {
                None => {
                    let remainder = rest.to_owned();
                    proof {
                        assert(0 <= counter as int <= input@.len() && remainder@
                            == input@.subrange(counter as int, input@.len() as int));
                        assert(rest@ == remainder@ && call_ensures(
                            parser,
                            (rest,),
                            None::<(F, usize)>,
                        ));
                    }
                    return Err(FilterError::InvalidFilter { remainder });
                },
                Some((f, ate)) => {
                    let ghost start = counter as int;
                    let ghost old_map = names@.map_values(|n: String| n@);
                    let ghost old_filters = filters@;
                    let chunk = input.substring_ascii(counter, counter + ate);
                    let owned_chunk = chunk.to_owned();
                    filters.push(f);
                    names.push(owned_chunk);
                    counter = counter + ate;
                    proof {
                        let new_map = names@.map_values(|n: String| n@);
                        assert(new_map.drop_last() =~= old_map);
                        assert(new_map.last() == input@.subrange(start, start + ate));
                        assert(new_map.len() == old_map.len() + 1);
                        let old_len = old_map.len() as int;
                        assert(forall|j: int|
                            0 <= j < old_len ==> #[trigger] new_map[j] == old_map[j]);
                        lemma_chunk_start_prefix(new_map, old_map, old_len);
                        assert(chunk_start(new_map, old_len) == start);
                        assert(parser_accepted(parser, input@, start, f, ate as int)) by {
                            assert(rest@ == input@.subrange(start, input@.len() as int));
                            assert(call_ensures(parser, (rest,), Some((f, ate))));
                            assert((ate as int) as usize == ate);
                        }
                        assert forall|k: int| 0 <= k < names@.len() implies parser_accepted(
                            parser,
                            input@,
                            chunk_start(new_map, k),
                            #[trigger] filters@[k],
                            names@[k]@.len() as int,
                        ) by {
                            if k < old_len {
                                lemma_chunk_start_prefix(new_map, old_map, k);
                                assert(filters@[k] == old_filters[k]);
                                assert(names@[k]@ == old_map[k]);
                            } else {
                                assert(filters@[k] == f);
                                assert(names@[k]@.len() == ate);
                            }
                        }
                        assert(chunk_start(new_map, new_map.len() as int) == chunk_start(
                            new_map,
                            old_len,
                        ) + ate + 1);
                    }
                    if counter >= len {
                        proof {
                            let new_map = names@.map_values(|n: String| n@);
                            assert(counter == len);
                            assert(new_map.last().len() == ate);
                            assert(input@.subrange(input@.len() - ate, input@.len() as int)
                                == new_map.last());
                            assert(split_shape(input@, new_map));
                        }
                        break;
                    }
                    counter = counter + 1;
                    proof {
                        let new_map = names@.map_values(|n: String| n@);
                        let end = counter as int;
                        assert(new_map.last().len() + 1 <= end <= input@.len());
                        assert(input@.subrange(end - 1 - ate, end - 1) == new_map.last());
                        assert(chunks_prefix(input@, new_map, end));
                    }
                },
            }
        }
        Ok(
            ProcessSplitterCustomFilter {
                name: input.to_owned(),
                filters,
                names,
                groups: Vec::new(),
            },
        )
    }
}

impl<F: Filter> ProcessSplitter for ProcessSplitterCustomFilter<F> {
    open spec fn groups_view(&self) -> Seq<ProcessGroupInfo> {
        self.groups@
    }

    open spec fn spec_name(&self) -> Seq<char> {
        "Custom splitter"@
    }

    fn name(&self) -> (r: String) {
        String::from_str("Custom splitter")
    }

    /// One group per filter, in filter order: each takes, from what the
    /// earlier filters left, exactly the processes its predicate accepts -
    /// first match wins. What no filter took forms the final "Other"
    /// group.
    fn __split(
        &mut self,
        tree: &ProcessTree,
        shms_metadata: &ShmsMetadata,
        processes: Vec<ProcessInfo>,
    )
        ensures
            final(self).name@ == old(self).name@,
            final(self).names@ == old(self).names@,
            final(self).filters@ == old(self).filters@,
            final(self).groups@.len() == vstd::math::min(
                old(self).names@.len() as int,
                old(self).filters@.len() as int,
            ) + 1,
            forall|k: int|
                0 <= k < vstd::math::min(
                    old(self).names@.len() as int,
                    old(self).filters@.len() as int,
                ) ==> {
                    let g = #[trigger] final(self).groups@[k];
                    g.processes_info@ == remaining_after(
                        processes@,
                        old(self).filters@,
                        tree,
                        k,
                    ).filter(filter_matches(old(self).filters@[k], tree)) && g.name@ == old(
                        self,
                    ).names@[k]@
                },
            ({
                let m = vstd::math::min(
                    old(self).names@.len() as int,
                    old(self).filters@.len() as int,
                );
                final(self).groups@[m].processes_info@ == remaining_after(
                    processes@,
                    old(self).filters@,
                    tree,
                    m,
                ) && final(self).groups@[m].name@ == "Other"@
            }),
    {
        let ghost fseq = self.filters@;
        let ghost nseq = self.names@;
        let mut procs = processes;
        let ghost orig = procs@;
        let m = if self.names.len() <= self.filters.len() {
            self.names.len()
        } else {
            self.filters.len()
        };
        proof {
            assert(group_members(self.groups@) =~= Seq::<ProcessInfo>::empty());
            assert(group_members(self.groups@).to_multiset() =~= Multiset::<
                ProcessInfo,
            >::empty());
        }
        let mut idx: usize = 0;
        while idx < m
            invariant
                0 <= idx <= m,
                m == vstd::math::min(nseq.len() as int, fseq.len() as int),
                self.name == old(self).name,
                self.names@ == nseq,
                self.filters@ == fseq,
                nseq == old(self).names@,
                fseq == old(self).filters@,
                procs@ == remaining_after(orig, fseq, tree, idx as int),
                self.groups@.len() == idx,
                forall|k: int|
                    0 <= k < idx ==> {
                        let g = #[trigger] self.groups@[k];
                        g.processes_info@ == remaining_after(orig, fseq, tree, k).filter(
                            filter_matches(fseq[k], tree),
                        ) && g.name@ == nseq[k]@ && g.wf()
                    },
                group_members(self.groups@).to_multiset().add(procs@.to_multiset())
                    == orig.to_multiset(),
            decreases m - idx,
        {
            let ghost pre = procs@;
            let ghost gpre = self.groups@;
            let fref = &self.filters[idx];
            let pred = (|p: &ProcessInfo| -> (r: bool)
                ensures
                    r == fref.matches(p, tree),
                {
                    fref.eval(p, tree)
                });
            let matched = drain_where(&mut procs, pred, Ghost(filter_matches(fseq[idx as int], tree)));
            proof {
                lemma_filter_partition_multiset(pre, filter_matches(fseq[idx as int], tree));
            }
            let g = processes_group_info(matched, self.names[idx].clone());
            self.groups.push(g);
            proof {
                let gs = self.groups@;
                assert(gs.drop_last() =~= gpre);
                assert(gs.last() == g);
                lemma_group_members_push(gpre, g);
                assert(procs@ == remaining_after(orig, fseq, tree, idx + 1));
                assert forall|k: int| 0 <= k < idx + 1 implies {
                    let gk = #[trigger] gs[k];
                    gk.processes_info@ == remaining_after(orig, fseq, tree, k).filter(
                        filter_matches(fseq[k], tree),
                    ) && gk.name@ == nseq[k]@ && gk.wf()
                } by {
                    if k < idx {
                        assert(gs[k] == gpre[k]);
                    }
                }
                assert(group_members(gs).to_multiset().add(procs@.to_multiset())
                    =~= orig.to_multiset());
            }
            idx = idx + 1;
        }
        let ghost gpre = self.groups@;
        let other = processes_group_info(procs, String::from_str("Other"));
        self.groups.push(other);
        proof {
            let gs = self.groups@;
            assert(gs.drop_last() =~= gpre);
            assert(gs.last() == other);
            lemma_group_members_push(gpre, other);
            assert(group_members(gs).to_multiset() =~= processes@.to_multiset());
            assert forall|k: int| 0 <= k < gs.len() implies (#[trigger] gs[k]).wf() by {
                if k < gs.len() - 1 {
                    assert(gs[k] == gpre[k]);
                }
            }
        }
    }

    fn iter_groups(&self) -> (groups: &Vec<ProcessGroupInfo>) {
        &self.groups
    }

    fn collect_processes(self) -> (procs: Vec<ProcessInfo>) {
        flatten_groups(self.groups)
    }
}

} // verus!

