//! The process ancestry tree, consumed as a lookup service keyed by process
//! id. Only filter predicates read it.

use vstd::prelude::*;

verus! {

/// Parent links of the processes on the host: (child pid, parent pid) pairs.
pub struct ProcessTree {
    pub parents: Vec<(i32, i32)>,
}

impl ProcessTree {
    /// The parent recorded for `pid`, if any.
    pub open spec fn spec_parent(&self, pid: i32) -> Option<i32> {
        parent_lookup(self.parents@, pid)
    }

    /// Look up the parent of `pid`.
    pub fn parent(&self, pid: i32) -> (r: Option<i32>)
        ensures
            r == self.spec_parent(pid),
    {
        let n = self.parents.len();
        let mut i: usize = n;
        proof {
            assert(self.parents@.take(n as int) =~= self.parents@);
        }
        while i > 0
            invariant
                0 <= i <= n,
                n == self.parents@.len(),
                parent_lookup(self.parents@.take(i as int), pid) == parent_lookup(
                    self.parents@,
                    pid,
                ),
            decreases i,
        {
            proof {
                assert(self.parents@.take(i as int).drop_last() =~= self.parents@.take(i - 1));
                assert(self.parents@.take(i as int).last() == self.parents@[i - 1]);
            }
            i = i - 1;
            let pair = self.parents[i];
            if pair.0 == pid {
                return Some(pair.1);
            }
        }
        proof {
            assert(self.parents@.take(0) =~= Seq::<(i32, i32)>::empty());
        }
        None
    }
}

/// The last parent link recorded for `pid` among the (child, parent) pairs.
pub open spec fn parent_lookup(pairs: Seq<(i32, i32)>, pid: i32) -> Option<i32>
    decreases pairs.len(),
{
    if pairs.len() == 0 {
        None
    } else if pairs.last().0 == pid {
        Some(pairs.last().1)
    } else {
        parent_lookup(pairs.drop_last(), pid)
    }
}

} // verus!
