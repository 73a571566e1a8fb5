//! The pure parts of the winning-log analyzer: parsing one record of the
//! winning log, collecting the distinct fuzzer identifiers, and
//! formatting one row of the per-fuzzer counter files. Reading and
//! writing the files stays in the unverified edge.

use crate::master::id_in;
use crate::strutil::{
    all_dec_digits, dec_value, split_chars, split_on, str_eq, trim_chars, trim_spaces,
    u64_to_string,
};
use vstd::prelude::*;
use vstd::string::*;

verus! {

/// Parses one winning-log record: `time,source,winner_ids`. Fails
/// exactly when the line does not have three comma-separated columns or
/// the first is not a decimal time.
pub fn parse_line(line: &String) -> (r: Result<(u64, String, Vec<String>), String>)
    ensures
        ({
            let cols = split_chars(line@, ',');
            match r {
                Ok((time_millis, fuzzer_id, winning_ids)) => {
                    &&& cols.len() == 3
                    &&& cols[0].len() > 0
                    &&& all_dec_digits(cols[0])
                    &&& time_millis == dec_value(cols[0])
                    &&& fuzzer_id@ == trim_chars(cols[1])
                    &&& winning_ids@.len() == split_chars(trim_chars(cols[2]), '_').len()
                    &&& forall|k: int|
                        0 <= k < winning_ids@.len() ==> (#[trigger] winning_ids@[k])@
                            == split_chars(trim_chars(cols[2]), '_')[k]
                },
                Err(_) => cols.len() != 3 || cols[0].len() == 0 || !all_dec_digits(cols[0])
                    || dec_value(cols[0]) > u64::MAX,
            }
        }),
{
    let cols = split_on(line.as_str(), ',');
    if cols.len() != 3 {
        let mut e = String::new();
        e.append("line '");
        e.append(line.as_str());
        e.append("' does not have 3 columns");
        return Err(e);
    }
    let time_millis = match crate::strutil::parse_u64(cols[0].as_str()) {
        Some(v) => v,
        None => {
            let mut e = String::new();
            e.append("failed parsing time from '");
            e.append(line.as_str());
            e.append("'");
            return Err(e);
        },
    };
    let fuzzer_id = trim_spaces(cols[1].as_str());
    let winners_field = trim_spaces(cols[2].as_str());
    let winning_ids = split_on(winners_field.as_str(), '_');
    Ok((time_millis, fuzzer_id, winning_ids))
}

/// The distinct identifiers, in order of first appearance.
pub fn unique_fuzzer_ids(ids: &Vec<String>) -> (r: Vec<String>)
    ensures
        forall|a: int, b: int|
            0 <= a < b < r@.len() ==> (#[trigger] r@[a])@ != (#[trigger] r@[b])@,
        forall|a: int| 0 <= a < r@.len() ==> id_in(ids@, (#[trigger] r@[a])@),
        forall|k: int| 0 <= k < ids@.len() ==> id_in(r@, (#[trigger] ids@[k])@),
{
    let mut r: Vec<String> = Vec::new();
    let mut k: usize = 0;
    while k < ids.len()
        invariant
            0 <= k <= ids@.len(),
            forall|a: int, b: int|
                0 <= a < b < r@.len() ==> (#[trigger] r@[a])@ != (#[trigger] r@[b])@,
            forall|a: int| 0 <= a < r@.len() ==> id_in(ids@, (#[trigger] r@[a])@),
            forall|k2: int| 0 <= k2 < k ==> id_in(r@, (#[trigger] ids@[k2])@),
        decreases ids@.len() - k,
    {
        let id = &ids[k];
        let mut seen = false;
        let mut a: usize = 0;
        while a < r.len()
            invariant
                0 <= a <= r@.len(),
                id@ == ids@[k as int]@,
                k < ids@.len(),
                seen ==> id_in(r@, id@),
                !seen ==> forall|a2: int| 0 <= a2 < a ==> (#[trigger] r@[a2])@ != id@,
            decreases r@.len() - a,
        {
            if str_eq(r[a].as_str(), id.as_str()) {
                seen = true;
                proof {
                    assert(id_in(r@, id@)) by {
                        assert(r@[a as int]@ == id@);
                    }
                }
                a = r.len();
            } else {
                a = a + 1;
            }
        }
        let ghost pre = r@;
        if !seen {
            r.push(id.clone());
        }
        proof {
            assert forall|a2: int| 0 <= a2 < r@.len() implies id_in(
                ids@,
                (#[trigger] r@[a2])@,
            ) by {
                if a2 < pre.len() {
                    assert(r@[a2] == pre[a2]);
                    assert(id_in(ids@, pre[a2]@));
                } else {
                    assert(id_in(ids@, r@[a2]@)) by {
                        assert(ids@[k as int]@ == r@[a2]@);
                    }
                }
            }
            assert forall|k2: int| 0 <= k2 < k + 1 implies id_in(
                r@,
                (#[trigger] ids@[k2])@,
            ) by {
                if k2 < k {
                    let a2 = choose|a2: int|
                        0 <= a2 < pre.len() && (#[trigger] pre[a2])@ == ids@[k2]@;
                    assert(r@[a2] == pre[a2]);
                    assert(id_in(r@, ids@[k2]@)) by {
                        assert(r@[a2]@ == ids@[k2]@);
                    }
                } else {
                    if seen {
                        let a2 = choose|a2: int|
                            0 <= a2 < pre.len() && (#[trigger] pre[a2])@ == ids@[k as int]@;
                        assert(r@[a2] == pre[a2]);
                        assert(id_in(r@, ids@[k2]@)) by {
                            assert(r@[a2]@ == ids@[k2]@);
                        }
                    } else {
                        assert(id_in(r@, ids@[k2]@)) by {
                            assert(r@[r@.len() - 1]@ == ids@[k2]@);
                        }
                    }
                }
            }
        }
        k = k + 1;
    }
    r
}

/// Formats one row of a counter file: the time columns followed by one
/// counter per fuzzer, space separated, newline terminated.
pub fn log_line(time_str: &String, counts: &Vec<u64>) -> (r: String)
    ensures
        r@ == time_str@ + crate::strutil::join_chars(
            counts@.map_values(|v: u64| crate::strutil::dec_digits(v as nat)),
            seq![' '],
        ) + seq!['\n'],
{
    proof {
        reveal_strlit(" ");
        reveal_strlit("\n");
    }
    let mut rendered: Vec<String> = Vec::new();
    let mut k: usize = 0;
    while k < counts.len()
        invariant
            0 <= k <= counts@.len(),
            rendered@.len() == k,
            forall|k2: int|
                0 <= k2 < k ==> (#[trigger] rendered@[k2])@ == crate::strutil::dec_digits(
                    counts@[k2] as nat,
                ),
        decreases counts@.len() - k,
    {
        rendered.push(u64_to_string(counts[k]));
        k = k + 1;
    }
    let joined = crate::strutil::join_with(&rendered, " ");
    proof {
        assert(rendered@.map_values(|t: String| t@) =~= counts@.map_values(
            |v: u64| crate::strutil::dec_digits(v as nat),
        ));
    }
    let mut r = time_str.clone();
    r.append(joined.as_str());
    r.append("\n");
    proof {
        assert((" ")@ =~= seq![' ']);
        assert(("\n")@ =~= seq!['\n']);
        assert(joined@ == crate::strutil::join_chars(
            counts@.map_values(|v: u64| crate::strutil::dec_digits(v as nat)),
            seq![' '],
        ));
        assert(r@ =~= time_str@ + crate::strutil::join_chars(
            counts@.map_values(|v: u64| crate::strutil::dec_digits(v as nat)),
            seq![' '],
        ) + seq!['\n']);
    }
    r
}

/// Applies one winning-log record to the per-fuzzer counters: the
/// source's accepted count and each listed winner's won count grow by
/// one; every other counter is unchanged.
pub fn tally_line(
    fuzzer_ids: &Vec<String>,
    accepted: &mut Vec<u64>,
    won: &mut Vec<u64>,
    source: &String,
    winning_ids: &Vec<String>,
)
    requires
        old(accepted)@.len() == fuzzer_ids@.len(),
        old(won)@.len() == fuzzer_ids@.len(),
        forall|p: int| 0 <= p < fuzzer_ids@.len() ==> #[trigger] old(accepted)@[p] < u64::MAX,
        forall|p: int| 0 <= p < fuzzer_ids@.len() ==> #[trigger] old(won)@[p] < u64::MAX,
    ensures
        final(accepted)@.len() == fuzzer_ids@.len(),
        final(won)@.len() == fuzzer_ids@.len(),
        forall|p: int|
            0 <= p < fuzzer_ids@.len() ==> #[trigger] final(accepted)@[p] == old(accepted)@[p] + (
            if (#[trigger] fuzzer_ids@[p])@ == source@ {
                1u64
            } else {
                0u64
            }),
        forall|p: int|
            0 <= p < fuzzer_ids@.len() ==> #[trigger] final(won)@[p] == old(won)@[p] + (if id_in(
                winning_ids@,
                (#[trigger] fuzzer_ids@[p])@,
            ) {
                1u64
            } else {
                0u64
            }),
{
    let mut p: usize = 0;
    while p < fuzzer_ids.len()
        invariant
            0 <= p <= fuzzer_ids@.len(),
            accepted@.len() == fuzzer_ids@.len(),
            won@.len() == fuzzer_ids@.len(),
            forall|q: int| p <= q < fuzzer_ids@.len() ==> #[trigger] accepted@[q] == old(
                accepted,
            )@[q] && accepted@[q] < u64::MAX,
            forall|q: int| p <= q < fuzzer_ids@.len() ==> #[trigger] won@[q] == old(won)@[q]
                && won@[q] < u64::MAX,
            forall|q: int|
                0 <= q < p ==> #[trigger] accepted@[q] == old(accepted)@[q] + (if (
                #[trigger] fuzzer_ids@[q])@ == source@ {
                    1u64
                } else {
                    0u64
                }),
            forall|q: int|
                0 <= q < p ==> #[trigger] won@[q] == old(won)@[q] + (if id_in(
                    winning_ids@,
                    (#[trigger] fuzzer_ids@[q])@,
                ) {
                    1u64
                } else {
                    0u64
                }),
        decreases fuzzer_ids@.len() - p,
    {
        if str_eq(fuzzer_ids[p].as_str(), source.as_str()) {
            let bumped = accepted[p] + 1;
            accepted.set(p, bumped);
        }
        let mut hit = false;
        let mut w: usize = 0;
        while w < winning_ids.len()
            invariant
                0 <= w <= winning_ids@.len(),
                p < fuzzer_ids@.len(),
                hit ==> id_in(winning_ids@, fuzzer_ids@[p as int]@),
                !hit ==> forall|w2: int|
                    0 <= w2 < w ==> (#[trigger] winning_ids@[w2])@ != fuzzer_ids@[p as int]@,
            decreases winning_ids@.len() - w,
        {
            if str_eq(winning_ids[w].as_str(), fuzzer_ids[p].as_str()) {
                hit = true;
                proof {
                    assert(id_in(winning_ids@, fuzzer_ids@[p as int]@)) by {
                        assert(winning_ids@[w as int]@ == fuzzer_ids@[p as int]@);
                    }
                }
                w = winning_ids.len();
            } else {
                w = w + 1;
            }
        }
        if hit {
            let bumped = won[p] + 1;
            won.set(p, bumped);
        }
        p = p + 1;
    }
}

} // verus!
