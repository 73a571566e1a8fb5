//! The wire messages exchanged with drivers, with their codec.
//!
//! Fields are separated by a single space on the wire. The use-input
//! assignment carries the literal topic prefix `A` that subscribing
//! drivers filter on.

use crate::metric::Metric;
use crate::strutil::{
    join_chars, join_with, lemma_split_concat, lemma_split_no_sep, split_chars, split_on,
};
use vstd::prelude::*;
use vstd::string::*;

verus! {

/// Wire message: driver `fuzzer_id` produced an interesting input stored
/// at `input_path` whose serialized coverage artifact lives at
/// `coverage_path`.
#[derive(Debug)]
pub struct InterestingInput {
    pub fuzzer_id: String,
    pub input_path: String,
    pub coverage_path: String,
}

impl Clone for InterestingInput {
    /// A clone carries the same three fields.
    fn clone(&self) -> (r: Self)
        ensures
            r.fuzzer_id@ == self.fuzzer_id@,
            r.input_path@ == self.input_path@,
            r.coverage_path@ == self.coverage_path@,
    {
        InterestingInput {
            fuzzer_id: self.fuzzer_id.clone(),
            input_path: self.input_path.clone(),
            coverage_path: self.coverage_path.clone(),
        }
    }
}

/// The wire rendering of an interesting-input message: the three fields
/// separated by single spaces.
pub open spec fn interesting_wire(
    fuzzer_id: Seq<char>,
    input_path: Seq<char>,
    coverage_path: Seq<char>,
) -> Seq<char> {
    fuzzer_id + seq![' '] + input_path + seq![' '] + coverage_path
}

impl InterestingInput {
    /// Builds the use-input assignment that hands this input to the listed
    /// winners.
    pub fn use_for(&self, fuzzer_ids: &[String]) -> (u: UseInput)
        ensures
            u.fuzzer_ids@.map_values(|t: String| t@) == fuzzer_ids@.map_values(|t: String| t@),
            u.input_path@ == self.input_path@,
            u.coverage_path@ == self.coverage_path@,
    {
        let mut ids: Vec<String> = Vec::new();
        let mut i: usize = 0;
        while i < fuzzer_ids.len()
            invariant
                0 <= i <= fuzzer_ids@.len(),
                ids@.len() == i,
                forall|k: int| 0 <= k < i ==> (#[trigger] ids@[k])@ == fuzzer_ids@[k]@,
            decreases fuzzer_ids@.len() - i,
        {
            ids.push(fuzzer_ids[i].clone());
            i = i + 1;
        }
        proof {
            assert(ids@.map_values(|t: String| t@) =~= fuzzer_ids@.map_values(|t: String| t@));
        }
        UseInput {
            fuzzer_ids: ids,
            input_path: self.input_path.clone(),
            coverage_path: self.coverage_path.clone(),
        }
    }

    /// Parses the wire form: the first three space-separated tokens, extra
    /// tokens ignored. Fails exactly when fewer than three tokens are
    /// present, naming the first missing field.
    pub fn from_str(s: &str) -> (r: Result<InterestingInput, String>)
        ensures
            match r {
                Ok(m) => {
                    &&& split_chars(s@, ' ').len() >= 3
                    &&& m.fuzzer_id@ == split_chars(s@, ' ')[0]
                    &&& m.input_path@ == split_chars(s@, ' ')[1]
                    &&& m.coverage_path@ == split_chars(s@, ' ')[2]
                },
                Err(_) => split_chars(s@, ' ').len() < 3,
            },
    {
        let mut tokens = split_on(s, ' ');
        if tokens.len() < 2 {
            return Err(parse_failure("input_path", s));
        }
        if tokens.len() < 3 {
            return Err(parse_failure("coverage_path", s));
        }
        // Take the first three tokens out, last first.
        tokens.truncate(3);
        let coverage_path = match tokens.pop() {
            Some(t) => t,
            None => unreached(),
        };
        let input_path = match tokens.pop() {
            Some(t) => t,
            None => unreached(),
        };
        let fuzzer_id = match tokens.pop() {
            Some(t) => t,
            None => unreached(),
        };
        Ok(InterestingInput { fuzzer_id, input_path, coverage_path })
    }

    /// The wire rendering of this message.
    pub fn to_string(&self) -> (r: String)
        ensures
            r@ == interesting_wire(self.fuzzer_id@, self.input_path@, self.coverage_path@),
    {
        proof {
            reveal_strlit(" ");
        }
        let r = self.fuzzer_id.clone();
        let r = r.concat(" ");
        let r = r.concat(self.input_path.as_str());
        let r = r.concat(" ");
        let r = r.concat(self.coverage_path.as_str());
        r
    }
}

fn parse_failure(field_name: &str, s: &str) -> (r: String) {
    let mut r = String::new();
    r.append("unable to parse ");
    r.append(field_name);
    r.append(" from '");
    r.append(s);
    r.append("'");
    r
}

/// Parsing the wire rendering of an interesting-input message yields the
/// three fields back, for non-empty space-free fields.
pub proof fn lemma_interesting_round_trip(id: Seq<char>, ip: Seq<char>, cp: Seq<char>)
    requires
        id.len() > 0 && (forall|i: int| 0 <= i < id.len() ==> id[i] != ' '),
        ip.len() > 0 && (forall|i: int| 0 <= i < ip.len() ==> ip[i] != ' '),
        cp.len() > 0 && (forall|i: int| 0 <= i < cp.len() ==> cp[i] != ' '),
    ensures
        split_chars(interesting_wire(id, ip, cp), ' ') == seq![id, ip, cp],
{
    let wire = interesting_wire(id, ip, cp);
    let tail = ip + seq![' '] + cp;
    assert(wire =~= id + seq![' '] + tail);
    lemma_split_concat(id, tail, ' ');
    lemma_split_concat(ip, cp, ' ');
    lemma_split_no_sep(id, ' ');
    lemma_split_no_sep(ip, ' ');
    lemma_split_no_sep(cp, ' ');
    assert(split_chars(wire, ' ') =~~= seq![id, ip, cp]);
}

/// Wire message: the master assigns an input to the listed winning
/// drivers.
#[derive(Debug)]
pub struct UseInput {
    pub fuzzer_ids: Vec<String>,
    pub input_path: String,
    pub coverage_path: String,
}

/// The wire rendering of a use-input assignment: the subscription topic
/// `A`, the winner ids joined by underscores, then the two paths.
pub open spec fn use_wire(ids: Seq<Seq<char>>, ip: Seq<char>, cp: Seq<char>) -> Seq<char> {
    seq!['A', ' '] + join_chars(ids, seq!['_']) + seq![' '] + ip + seq![' '] + cp
}

impl UseInput {
    /// The wire rendering of this assignment. It always begins with the
    /// topic `A` and a space, so subscribers can filter on it.
    pub fn to_string(&self) -> (r: String)
        ensures
            r@ == use_wire(
                self.fuzzer_ids@.map_values(|t: String| t@),
                self.input_path@,
                self.coverage_path@,
            ),
            r@.len() >= 2 && r@[0] == 'A' && r@[1] == ' ',
    {
        proof {
            reveal_strlit("A ");
            reveal_strlit("_");
            reveal_strlit(" ");
        }
        let joined = join_with(&self.fuzzer_ids, "_");
        let r = String::from_str("A ");
        let r = r.concat(joined.as_str());
        let r = r.concat(" ");
        let r = r.concat(self.input_path.as_str());
        let r = r.concat(" ");
        let r = r.concat(self.coverage_path.as_str());
        proof {
            assert(("A ")@ =~= seq!['A', ' ']);
            assert(("_")@ =~= seq!['_']);
            assert((" ")@ =~= seq![' ']);
            assert(r@ =~= use_wire(
                self.fuzzer_ids@.map_values(|t: String| t@),
                self.input_path@,
                self.coverage_path@,
            ));
        }
        r
    }
}

/// Wire message: asks a peer driver for its metric of the coverage
/// artifact at this path.
#[derive(Debug)]
pub struct ReqMetric {
    pub coverage_path: String,
}

impl ReqMetric {
    /// The wire rendering: the bare coverage path.
    pub fn to_string(&self) -> (r: String)
        ensures
            r@ == self.coverage_path@,
    {
        self.coverage_path.clone()
    }
}

/// Wire message: a peer driver's scalar evaluation of an input, already
/// decoded into the library's rank model by the edge.
#[derive(Debug, Clone, Copy, PartialEq, Eq, Structural)]
pub struct RepMetric {
    pub metric: Metric,
}

} // verus!
