//! The pure part of the inputs-log analyzer: parsing one record of the
//! inputs log. Reading the log and the coverage artifacts it names stays
//! in the unverified edge; the artifacts decode through the coverage
//! module.

use crate::coverage::Branch;
use crate::strutil::{
    all_dec_digits, dec_value, split_chars, split_on, trim_chars, trim_spaces,
};
use vstd::prelude::*;
use vstd::string::*;

verus! {

/// Parses one inputs-log record: `time,fuzzer_id,input_path,
/// coverage_path`. Fails exactly when the line does not have four
/// comma-separated columns or the first is not a decimal time.
pub fn parse_line(line: &String) -> (r: Result<(u64, String, String, String), String>)
    ensures
        ({
            let cols = split_chars(line@, ',');
            match r {
                Ok((time_millis, fuzzer_id, input_path, coverage_path)) => {
                    &&& cols.len() == 4
                    &&& cols[0].len() > 0
                    &&& all_dec_digits(cols[0])
                    &&& time_millis == dec_value(cols[0])
                    &&& fuzzer_id@ == trim_chars(cols[1])
                    &&& input_path@ == trim_chars(cols[2])
                    &&& coverage_path@ == trim_chars(cols[3])
                },
                Err(_) => cols.len() != 4 || cols[0].len() == 0 || !all_dec_digits(cols[0])
                    || dec_value(cols[0]) > u64::MAX,
            }
        }),
{
    let cols = split_on(line.as_str(), ',');
    if cols.len() != 4 {
        let mut e = String::new();
        e.append("line '");
        e.append(line.as_str());
        e.append("' has not 4 columns");
        return Err(e);
    }
    let time_millis = match crate::strutil::parse_u64(cols[0].as_str()) {
        Some(v) => v,
        None => {
            let mut e = String::new();
            e.append("failed parsing time from '");
            e.append(line.as_str());
            e.append("'");
            return Err(e);
        },
    };
    let fuzzer_id = trim_spaces(cols[1].as_str());
    let input_path = trim_spaces(cols[2].as_str());
    let coverage_path = trim_spaces(cols[3].as_str());
    Ok((time_millis, fuzzer_id, input_path, coverage_path))
}

/// A set of distinct observed branches, in order of first appearance.
/// Its size is the distinct-branch count the coverage columns report.
pub struct BranchSet {
    pub items: Vec<Branch>,
}

/// Whether the set holds this branch.
pub open spec fn branch_in(items: Seq<Branch>, b: Branch) -> bool {
    exists|i: int| 0 <= i < items.len() && items[i] == b
}

impl BranchSet {
    /// No branch is held twice.
    pub open spec fn wf(self) -> bool {
        forall|i: int, j: int|
            0 <= i < j < self.items@.len() ==> (#[trigger] self.items@[i])
                != (#[trigger] self.items@[j])
    }

    pub fn new() -> (s: BranchSet)
        ensures
            s.wf(),
            s.items@.len() == 0,
    {
        BranchSet { items: Vec::new() }
    }

    /// The distinct-branch count.
    pub fn len(&self) -> (r: usize)
        ensures
            r == self.items@.len(),
    {
        self.items.len()
    }

    /// Adds a branch: the set afterwards holds exactly the old branches
    /// and this one, and grows only when the branch is new.
    pub fn insert(&mut self, b: Branch)
        requires
            old(self).wf(),
            old(self).items@.len() < usize::MAX,
        ensures
            final(self).wf(),
            forall|x: Branch|
                #[trigger] branch_in(final(self).items@, x) <==> branch_in(old(self).items@, x)
                    || x == b,
            final(self).items@.len() == old(self).items@.len() + (if branch_in(
                old(self).items@,
                b,
            ) {
                0int
            } else {
                1int
            }),
    {
        let mut seen = false;
        let mut i: usize = 0;
        while i < self.items.len()
            invariant
                0 <= i <= self.items@.len(),
                seen ==> branch_in(self.items@, b),
                !seen ==> forall|k: int| 0 <= k < i ==> (#[trigger] self.items@[k]) != b,
            decreases self.items@.len() - i,
        {
            if self.items[i] == b {
                seen = true;
                proof {
                    assert(branch_in(self.items@, b)) by {
                        assert(self.items@[i as int] == b);
                    }
                }
                i = self.items.len();
            } else {
                i = i + 1;
            }
        }
        let ghost pre = self.items@;
        if !seen {
            self.items.push(b);
        }
        proof {
            if seen {
                assert forall|x: Branch| #[trigger] branch_in(self.items@, x) implies branch_in(
                    pre,
                    x,
                ) || x == b by {}
            } else {
                assert(!branch_in(pre, b));
                assert forall|x: Branch|
                    branch_in(pre, x) || x == b implies #[trigger] branch_in(
                    self.items@,
                    x,
                ) by {
                    if branch_in(pre, x) {
                        let k = choose|k: int| 0 <= k < pre.len() && pre[k] == x;
                        assert(self.items@[k] == x);
                    } else {
                        assert(self.items@[self.items@.len() - 1] == x);
                    }
                }
                assert forall|x: Branch| #[trigger] branch_in(self.items@, x) implies branch_in(
                    pre,
                    x,
                ) || x == b by {
                    let k = choose|k: int| 0 <= k < self.items@.len() && self.items@[k] == x;
                    if k < pre.len() {
                        assert(pre[k] == x);
                        assert(branch_in(pre, x));
                    }
                }
            }
        }
    }
}

} // verus!
