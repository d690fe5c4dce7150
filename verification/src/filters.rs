//! The filter boundary: a filter is an opaque boolean predicate over a
//! process plus its ancestry. The grammar and parsing of filter text belong
//! to a collaborator; this module only fixes the predicate interface and
//! offers one simple predicate.

use vstd::prelude::*;

use crate::process_tree::ProcessTree;
use crate::ProcessInfo;

verus! {

/// A boolean predicate over a process and the ancestry tree. `matches` is
/// the predicate's meaning; `eval` computes it.
pub trait Filter: Sized {
    spec fn matches(&self, p: &ProcessInfo, tree: &ProcessTree) -> bool;

    fn eval(&self, p: &ProcessInfo, tree: &ProcessTree) -> (r: bool)
        ensures
            r == self.matches(p, tree),
    ;
}

/// Matches exactly the process with the given pid.
pub struct PidEqFilter {
    pub pid: i32,
}

impl Filter for PidEqFilter {
    open spec fn matches(&self, p: &ProcessInfo, tree: &ProcessTree) -> bool {
        p.pid == self.pid
    }

    fn eval(&self, p: &ProcessInfo, tree: &ProcessTree) -> (r: bool) {
        p.pid == self.pid
    }
}

/// Matches the processes owned by the given user.
pub struct UidEqFilter {
    pub uid: u32,
}

impl Filter for UidEqFilter {
    open spec fn matches(&self, p: &ProcessInfo, tree: &ProcessTree) -> bool {
        p.uid == self.uid
    }

    fn eval(&self, p: &ProcessInfo, tree: &ProcessTree) -> (r: bool) {
        p.uid == self.uid
    }
}

} // verus!
