//! The pure part of the interval reporter: resampling a coverage series
//! onto a fixed timestep grid, carrying the last seen value forward.
//! Reading the files and the floating-point statistics stay in the
//! unverified edge.

use crate::strutil::{all_dec_digits, dec_value, split_chars, split_on};
use vstd::prelude::*;
use vstd::string::*;

verus! {

/// The pairs `(time, count)` read from the first two columns of each
/// line, once every line parsed, with the time scaled down by `divisor`.
pub open spec fn series_records(lines: Seq<Seq<char>>, first: int, divisor: u64) -> Seq<
    (u64, u64),
> {
    lines.skip(first).map_values(
        |l: Seq<char>|
            (
                (dec_value(split_chars(l, ' ')[0]) as u64 / divisor) as u64,
                dec_value(split_chars(l, ' ')[1]) as u64,
            ),
    )
}

/// Whether a series line is usable: at least two space-separated
/// columns, the first two decimal numbers that fit.
pub open spec fn series_line_ok(l: Seq<char>) -> bool {
    let cols = split_chars(l, ' ');
    &&& cols.len() >= 2
    &&& cols[0].len() > 0
    &&& all_dec_digits(cols[0])
    &&& dec_value(cols[0]) <= u64::MAX
    &&& cols[1].len() > 0
    &&& all_dec_digits(cols[1])
    &&& dec_value(cols[1]) <= u64::MAX
}

/// The count of the last record in the given bucket, if any.
pub open spec fn bucket_value(records: Seq<(u64, u64)>, b: u64) -> Option<u64>
    decreases records.len(),
{
    if records.len() == 0 {
        None
    } else if records.last().0 == b {
        Some(records.last().1)
    } else {
        bucket_value(records.drop_last(), b)
    }
}

/// The resampled value at timestep `x`: the last record of the largest
/// bucket at or below `x`, or zero before any record.
pub open spec fn sample_at(records: Seq<(u64, u64)>, x: u64) -> u64
    decreases x,
{
    match bucket_value(records, x) {
        Some(v) => v,
        None => if x == 0 {
            0
        } else {
            sample_at(records, (x - 1) as u64)
        },
    }
}

/// Parses one series line: the first two space-separated decimal
/// columns, with the time scaled down by `divisor`.
fn parse_series_line(line: &String, divisor: u64) -> (r: Result<(u64, u64), String>)
    requires
        divisor >= 1,
    ensures
        match r {
            Ok((t, cov)) => series_line_ok(line@) && t == dec_value(
                split_chars(line@, ' ')[0],
            ) as u64 / divisor && cov == dec_value(split_chars(line@, ' ')[1]),
            Err(_) => !series_line_ok(line@),
        },
{
    let cols = split_on(line.as_str(), ' ');
    if cols.len() < 2 {
        let mut e = String::new();
        e.append("line '");
        e.append(line.as_str());
        e.append("' contains less than 2 items");
        return Err(e);
    }
    let t = match crate::strutil::parse_u64(cols[0].as_str()) {
        Some(v) => v,
        None => {
            let mut e = String::new();
            e.append("failed parsing time from '");
            e.append(line.as_str());
            e.append("'");
            return Err(e);
        },
    };
    let cov = match crate::strutil::parse_u64(cols[1].as_str()) {
        Some(v) => v,
        None => {
            let mut e = String::new();
            e.append("failed parsing count from '");
            e.append(line.as_str());
            e.append("'");
            return Err(e);
        },
    };
    Ok((t / divisor, cov))
}

/// Resamples a raw per-driver series onto the timestep grid: each line's
/// time is bucketed into minutes, the last line of a bucket wins, and
/// the value carries forward over empty buckets. Fails exactly when some
/// line is unusable.
pub fn parse_raw_data(lines: &Vec<String>, timesteps: usize) -> (r: Result<Vec<u64>, String>)
    requires
        timesteps < usize::MAX,
    ensures
        ({
            let records = series_records(lines@.map_values(|l: String| l@), 0, 60000);
            match r {
                Ok(v) => {
                    &&& forall|k: int| 0 <= k < lines@.len() ==> series_line_ok(
                        (#[trigger] lines@[k])@,
                    )
                    &&& v@.len() == timesteps + 1
                    &&& forall|x: int|
                        0 <= x <= timesteps ==> #[trigger] v@[x] == sample_at(records, x as u64)
                },
                Err(_) => exists|k: int|
                    0 <= k < lines@.len() && !series_line_ok((#[trigger] lines@[k])@),
            }
        }),
{
    let ghost line_views = lines@.map_values(|l: String| l@);
    let ghost records = series_records(line_views, 0, 60000);
    // The last count seen per bucket, for the buckets on the grid.
    let mut buckets: Vec<Option<u64>> = Vec::new();
    let mut b: usize = 0;
    while b < timesteps + 1
        invariant
            0 <= b <= timesteps + 1,
            timesteps < usize::MAX,
            buckets@.len() == b,
            forall|x: int| 0 <= x < b ==> #[trigger] buckets@[x] is None,
        decreases timesteps + 1 - b,
    {
        buckets.push(None);
        b = b + 1;
    }
    proof {
        assert forall|x: int| 0 <= x <= timesteps implies #[trigger] buckets@[x] == bucket_value(
            records.take(0),
            x as u64,
        ) by {
            assert(records.take(0) =~= Seq::<(u64, u64)>::empty());
        }
    }
    let mut k: usize = 0;
    while k < lines.len()
        invariant
            0 <= k <= lines@.len(),
            timesteps < usize::MAX,
            line_views == lines@.map_values(|l: String| l@),
            records == series_records(line_views, 0, 60000),
            records.len() == lines@.len(),
            buckets@.len() == timesteps + 1,
            forall|k2: int| 0 <= k2 < k ==> series_line_ok((#[trigger] lines@[k2])@),
            forall|x: int|
                0 <= x <= timesteps ==> #[trigger] buckets@[x] == bucket_value(
                    records.take(k as int),
                    x as u64,
                ),
        decreases lines@.len() - k,
    {
        let (t, cov) = match parse_series_line(&lines[k], 60000) {
            Ok(p) => p,
            Err(e) => {
                return Err(e);
            },
        };
        proof {
            assert(records[k as int] == (t, cov)) by {
                assert(line_views[k as int] == lines@[k as int]@);
            }
        }
        let ghost pre = buckets@;
        if t <= timesteps as u64 {
            buckets.set(t as usize, Some(cov));
        }
        proof {
            assert forall|x: int| 0 <= x <= timesteps implies #[trigger] buckets@[x]
                == bucket_value(records.take(k + 1), x as u64) by {
                assert(records.take(k + 1).drop_last() =~= records.take(k as int));
                assert(records.take(k + 1).last() == records[k as int]);
                if x == t {
                    assert(buckets@[x] == Some(cov));
                } else {
                    assert(buckets@[x] == pre[x]);
                }
            }
        }
        k = k + 1;
    }
    proof {
        assert(records.take(records.len() as int) =~= records);
    }

    // Carry the last seen value forward over empty buckets.
    let mut vector: Vec<u64> = Vec::new();
    let mut carry: u64 = 0;
    let mut i: usize = 0;
    while i < timesteps + 1
        invariant
            0 <= i <= timesteps + 1,
            timesteps < usize::MAX,
            buckets@.len() == timesteps + 1,
            records == series_records(line_views, 0, 60000),
            forall|x: int|
                0 <= x <= timesteps ==> #[trigger] buckets@[x] == bucket_value(records, x as u64),
            vector@.len() == i,
            forall|x: int| 0 <= x < i ==> #[trigger] vector@[x] == sample_at(records, x as u64),
            i == 0 ==> carry == 0,
            i > 0 ==> carry == sample_at(records, (i - 1) as u64),
        decreases timesteps + 1 - i,
    {
        match buckets[i] {
            Some(x) => {
                vector.push(x);
                carry = x;
            },
            None => {
                vector.push(carry);
            },
        }
        proof {
            assert(vector@.last() == sample_at(records, i as u64));
        }
        i = i + 1;
    }
    Ok(vector)
}

/// Resamples a master coverage series onto the timestep grid: the first
/// line is the header, each remaining line's first column is already a
/// timestep, the last line of a timestep wins, and the value carries
/// forward over empty timesteps. Fails exactly when some data line is
/// unusable.
pub fn parse_master_data(lines: &Vec<String>, timesteps: usize) -> (r: Result<Vec<u64>, String>)
    requires
        timesteps < usize::MAX,
    ensures
        ({
            let records = series_records(lines@.map_values(|l: String| l@), 1, 1);
            match r {
                Ok(v) => {
                    &&& v@.len() == timesteps + 1
                    &&& (lines@.len() == 0 ==> forall|x: int|
                        0 <= x <= timesteps ==> #[trigger] v@[x] == 0)
                    &&& (lines@.len() > 0 ==> {
                        &&& forall|k: int| 1 <= k < lines@.len() ==> series_line_ok(
                            (#[trigger] lines@[k])@,
                        )
                        &&& forall|x: int|
                            0 <= x <= timesteps ==> #[trigger] v@[x] == sample_at(
                                records,
                                x as u64,
                            )
                    })
                },
                Err(_) => lines@.len() > 0 && exists|k: int|
                    1 <= k < lines@.len() && !series_line_ok((#[trigger] lines@[k])@),
            }
        }),
{
    let mut buckets: Vec<Option<u64>> = Vec::new();
    let mut b: usize = 0;
    while b < timesteps + 1
        invariant
            0 <= b <= timesteps + 1,
            timesteps < usize::MAX,
            buckets@.len() == b,
            forall|x: int| 0 <= x < b ==> #[trigger] buckets@[x] is None,
        decreases timesteps + 1 - b,
    {
        buckets.push(None);
        b = b + 1;
    }
    if lines.len() == 0 {
        let mut vector: Vec<u64> = Vec::new();
        let mut i: usize = 0;
        while i < timesteps + 1
            invariant
                0 <= i <= timesteps + 1,
                timesteps < usize::MAX,
                vector@.len() == i,
                forall|x: int| 0 <= x < i ==> #[trigger] vector@[x] == 0,
            decreases timesteps + 1 - i,
        {
            vector.push(0);
            i = i + 1;
        }
        return Ok(vector);
    }
    let ghost line_views = lines@.map_values(|l: String| l@);
    let ghost records = series_records(line_views, 1, 1);
    proof {
        assert forall|x: int| 0 <= x <= timesteps implies #[trigger] buckets@[x] == bucket_value(
            records.take(0),
            x as u64,
        ) by {
            assert(records.take(0) =~= Seq::<(u64, u64)>::empty());
        }
    }
    let mut k: usize = 1;
    while k < lines.len()
        invariant
            1 <= k <= lines@.len(),
            lines@.len() >= 1,
            timesteps < usize::MAX,
            line_views == lines@.map_values(|l: String| l@),
            records == series_records(line_views, 1, 1),
            records.len() == lines@.len() - 1,
            buckets@.len() == timesteps + 1,
            forall|k2: int| 1 <= k2 < k ==> series_line_ok((#[trigger] lines@[k2])@),
            forall|x: int|
                0 <= x <= timesteps ==> #[trigger] buckets@[x] == bucket_value(
                    records.take(k - 1),
                    x as u64,
                ),
        decreases lines@.len() - k,
    {
        let (t, cov) = match parse_series_line(&lines[k], 1) {
            Ok(p) => p,
            Err(e) => {
                return Err(e);
            },
        };
        proof {
            assert(records[k - 1] == (t, cov)) by {
                assert(line_views[k as int] == lines@[k as int]@);
                assert(line_views.skip(1)[k - 1] == line_views[k as int]);
            }
        }
        let ghost pre = buckets@;
        if t <= timesteps as u64 {
            buckets.set(t as usize, Some(cov));
        }
        proof {
            assert forall|x: int| 0 <= x <= timesteps implies #[trigger] buckets@[x]
                == bucket_value(records.take(k as int), x as u64) by {
                assert(records.take(k as int).drop_last() =~= records.take(k - 1));
                assert(records.take(k as int).last() == records[k - 1]);
                if x == t {
                    assert(buckets@[x] == Some(cov));
                } else {
                    assert(buckets@[x] == pre[x]);
                }
            }
        }
        k = k + 1;
    }
    proof {
        assert(records.take(records.len() as int) =~= records);
    }

    let mut vector: Vec<u64> = Vec::new();
    let mut carry: u64 = 0;
    let mut i: usize = 0;
    while i < timesteps + 1
        invariant
            0 <= i <= timesteps + 1,
            timesteps < usize::MAX,
            buckets@.len() == timesteps + 1,
            records == series_records(line_views, 1, 1),
            forall|x: int|
                0 <= x <= timesteps ==> #[trigger] buckets@[x] == bucket_value(records, x as u64),
            vector@.len() == i,
            forall|x: int| 0 <= x < i ==> #[trigger] vector@[x] == sample_at(records, x as u64),
            i == 0 ==> carry == 0,
            i > 0 ==> carry == sample_at(records, (i - 1) as u64),
        decreases timesteps + 1 - i,
    {
        match buckets[i] {
            Some(x) => {
                vector.push(x);
                carry = x;
            },
            None => {
                vector.push(carry);
            },
        }
        proof {
            assert(vector@.last() == sample_at(records, i as u64));
        }
        i = i + 1;
    }
    Ok(vector)
}

} // verus!
