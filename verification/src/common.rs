//! Constants shared by the master and the log analyzers, and the small
//! formatting helpers of the analyzers' output files.

use crate::strutil::dec_digits;
use vstd::prelude::*;
use vstd::string::*;

verus! {

/// Separator between the fields of one record in the master's log files.
/// It is a domain constant of the log format, independent from the wire
/// separator, and downstream analyzers depend on it.
pub const LOG_LINE_SEPARATOR: &'static str = ",";

/// Separator between the fields of the analyzers' output files.
pub const SEPARATOR: &'static str = " ";

/// Working directory that holds per-driver configuration, the drivers'
/// working subdirectories and the master's log files.
pub const WORK_PATH: &'static str = "./work";

/// `n` zeros joined by single spaces.
pub open spec fn zeros_joined(n: nat) -> Seq<char>
    decreases n,
{
    if n == 0 {
        Seq::empty()
    } else if n == 1 {
        seq!['0']
    } else {
        zeros_joined((n - 1) as nat) + seq![' ', '0']
    }
}

/// The all-zero first row of an analyzer output file: two zeros for the
/// time columns, one per fuzzer, space separated, newline terminated.
pub fn get_zeros(n: usize) -> (r: String)
    ensures
        r@ == seq!['0', ' ', '0', ' '] + zeros_joined(n as nat) + seq!['\n'],
{
    proof {
        reveal_strlit("0");
        reveal_strlit(" ");
        reveal_strlit("0 0 ");
        reveal_strlit("\n");
    }
    let mut r = String::from_str("0 0 ");
    let mut i: usize = 0;
    while i < n
        invariant
            0 <= i <= n,
            r@ == seq!['0', ' ', '0', ' '] + zeros_joined(i as nat),
        decreases n - i,
    {
        if i > 0 {
            r.append(" ");
        }
        r.append("0");
        proof {
            reveal_strlit("0");
            reveal_strlit(" ");
            if i == 0 {
                assert(zeros_joined(1) =~= seq!['0']);
            } else {
                assert(zeros_joined((i + 1) as nat) =~= zeros_joined(i as nat) + seq![' ', '0']);
            }
            assert(r@ =~= seq!['0', ' ', '0', ' '] + zeros_joined((i + 1) as nat));
        }
        i = i + 1;
    }
    r.append("\n");
    proof {
        assert(r@ =~= seq!['0', ' ', '0', ' '] + zeros_joined(n as nat) + seq!['\n']);
    }
    r
}

/// The leading time columns of an analyzer output row: the sample unit
/// (or the raw milliseconds when no unit is used) and the milliseconds,
/// each followed by a space.
pub fn get_time_part(this_time_unit: Option<u64>, time_millis: u64) -> (r: String)
    ensures
        r@ == dec_digits(this_time_unit.unwrap_or(time_millis) as nat) + seq![' '] + dec_digits(
            time_millis as nat,
        ) + seq![' '],
{
    proof {
        reveal_strlit(" ");
    }
    let unit = match this_time_unit {
        Some(u) => u,
        None => time_millis,
    };
    let mut r = crate::strutil::u64_to_string(unit);
    r.append(" ");
    let time_str = crate::strutil::u64_to_string(time_millis);
    r.append(time_str.as_str());
    r.append(" ");
    proof {
        assert(r@ =~= dec_digits(this_time_unit.unwrap_or(time_millis) as nat) + seq![' ']
            + dec_digits(time_millis as nat) + seq![' ']);
    }
    r
}

} // verus!
