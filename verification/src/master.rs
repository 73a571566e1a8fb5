//! The master's orchestration state: drivers, winner-selection strategy,
//! throttling state for slow drivers, and the models of the two log
//! files.
//!
//! The unverified edge owns the sockets, the spawned processes, the
//! filesystem watcher and the clock; it drives one `Master` value through
//! the methods here, writes the returned log lines to the log files and
//! publishes the returned wire messages. The state invariant `wf` ties
//! every winning-log record to an earlier inputs-log record, keeps winner
//! lists duplicate-free and self-free, and arms a slow driver only after
//! its stats file was seen modified twice.

use crate::common::LOG_LINE_SEPARATOR;
use crate::driver::{Driver, FuzzerType};
use crate::messages::{InterestingInput, RepMetric, UseInput};
use crate::metric::Metric;
use crate::strutil::{
    contains_seq, dec_digits, join_chars, join_with, sort_strings, sorted_lex, split_chars,
    split_on, str_contains, str_eq, u64_to_string,
};
use rand::seq::SliceRandom;
use vstd::pervasive::VecAdditionalExecFns;
use vstd::prelude::*;
use vstd::string::*;

verus! {

/// Port the pull socket for interesting-input notifications binds to.
pub const INTERESTING_PORT: u32 = 1337;

/// Port the publish socket for use-input assignments binds to.
pub const USE_PORT: u32 = INTERESTING_PORT + 1;

/// First metric request port; each driver takes the next one in
/// registration order.
pub const METRIC_PORT_START: u32 = USE_PORT + 1;

/// Winner-selection policy: a single winner by best metric, or every
/// driver whose metric is strictly on the preferred side of a threshold.
/// The boolean is the prefer-high flag.
#[derive(Debug, Clone, Copy, PartialEq, Eq, Structural)]
pub enum WinningStrategy {
    SingleWinner(bool),
    MultipleWinners(Metric, bool),
}

/// An interesting input together with the time it was observed, in
/// milliseconds from the master start instant.
pub struct InterestingWithTime {
    pub input_message: InterestingInput,
    pub elapsed_millis: u64,
}

/// One inputs-log record: elapsed milliseconds, originating driver, input
/// path and coverage path, separated by the log separator.
pub open spec fn inputs_line(
    elapsed_millis: nat,
    fuzzer_id: Seq<char>,
    input_path: Seq<char>,
    coverage_path: Seq<char>,
) -> Seq<char> {
    dec_digits(elapsed_millis) + LOG_LINE_SEPARATOR@ + fuzzer_id + LOG_LINE_SEPARATOR@ + input_path
        + LOG_LINE_SEPARATOR@ + coverage_path
}

/// One winning-log record: elapsed milliseconds, source driver, then the
/// winner ids already joined by underscores.
pub open spec fn winning_line(
    elapsed_millis: nat,
    source: Seq<char>,
    winners_joined: Seq<char>,
) -> Seq<char> {
    dec_digits(elapsed_millis) + LOG_LINE_SEPARATOR@ + source + LOG_LINE_SEPARATOR@
        + winners_joined + "\n"@
}

impl InterestingWithTime {
    /// Renders the inputs-log record, without the trailing newline.
    pub fn to_string(&self) -> (r: String)
        ensures
            r@ == inputs_line(
                self.elapsed_millis as nat,
                self.input_message.fuzzer_id@,
                self.input_message.input_path@,
                self.input_message.coverage_path@,
            ),
    {
        let mut r = u64_to_string(self.elapsed_millis);
        r.append(LOG_LINE_SEPARATOR);
        r.append(self.input_message.fuzzer_id.as_str());
        r.append(LOG_LINE_SEPARATOR);
        r.append(self.input_message.input_path.as_str());
        r.append(LOG_LINE_SEPARATOR);
        r.append(self.input_message.coverage_path.as_str());
        proof {
            assert(r@ =~= inputs_line(
                self.elapsed_millis as nat,
                self.input_message.fuzzer_id@,
                self.input_message.input_path@,
                self.input_message.coverage_path@,
            ));
        }
        r
    }
}

/// Watch state of one slow driver: how often its stats file was seen
/// modified, and whether it is ready to receive a deferred batch. The
/// first modification is the driver's startup touch, so readiness needs
/// at least two.
pub struct WatchDescriptorData {
    pub fuzzer_id: String,
    pub modified: usize,
    pub ready: bool,
}

/// One winning-log record as the master appended it: the source driver
/// and the winner ids exactly as logged.
pub struct WinningRecord {
    pub elapsed_millis: u64,
    pub source: String,
    pub winners: Vec<String>,
}

/// Outcome of routing one interesting input: the winning driver
/// identifiers, the assignment to publish, and the winning-log line to
/// append; the latter two are present exactly when somebody won.
pub struct ProcessOutcome {
    pub winners: Vec<String>,
    pub use_input: Option<UseInput>,
    pub winning_line: Option<String>,
}

/// Whether some driver in the list is slow-variant and carries this
/// identifier.
pub open spec fn slow_id_in(drivers: Seq<Driver>, id: Seq<char>) -> bool {
    exists|i: int|
        0 <= i < drivers.len() && (#[trigger] drivers[i]).fuzzer_type == FuzzerType::VUzzer
            && drivers[i].fuzzer_id@ == id
}

/// Whether one of the first `n` drivers is slow-variant and carries
/// this identifier.
pub open spec fn slow_id_in_prefix(drivers: Seq<Driver>, id: Seq<char>, n: int) -> bool {
    exists|i: int|
        0 <= i < n && (#[trigger] drivers[i]).fuzzer_type == FuzzerType::VUzzer
            && drivers[i].fuzzer_id@ == id
}

/// Whether some driver carries this identifier.
pub open spec fn driver_id_in(drivers: Seq<Driver>, id: Seq<char>) -> bool {
    exists|i: int| 0 <= i < drivers.len() && (#[trigger] drivers[i]).fuzzer_id@ == id
}

/// Whether some watch entry carries this identifier.
pub open spec fn watch_id_in(watches: Seq<WatchDescriptorData>, id: Seq<char>) -> bool {
    exists|k: int| 0 <= k < watches.len() && (#[trigger] watches[k]).fuzzer_id@ == id
}

/// Whether some inputs-log record up to `bound` milliseconds names this
/// source.
pub open spec fn logged_by(log: Seq<InterestingWithTime>, source: Seq<char>, bound: u64) -> bool {
    exists|j: int|
        0 <= j < log.len() && (#[trigger] log[j]).input_message.fuzzer_id@ == source
            && log[j].elapsed_millis <= bound
}

/// Whether a winning record is sound against the inputs log: winners are
/// pairwise distinct, none is the source, and an inputs record of the
/// same source exists with an elapsed time at most the record's.
pub open spec fn winning_record_wf(rec: WinningRecord, log: Seq<InterestingWithTime>) -> bool {
    &&& forall|a: int, b: int|
        0 <= a < b < rec.winners@.len() ==> (#[trigger] rec.winners@[a])@
            != (#[trigger] rec.winners@[b])@
    &&& forall|a: int| 0 <= a < rec.winners@.len() ==> (#[trigger] rec.winners@[a])@
        != rec.source@
    &&& logged_by(log, rec.source@, rec.elapsed_millis)
}

/// Whether a deferred-batch candidate is sound: it does not originate
/// from the slow driver it is accumulated for, its metric is not zero,
/// and the input it carries was logged no later than `bound`.
pub open spec fn batch_entry_wf(
    entry: (InterestingInput, RepMetric),
    slow_id: Seq<char>,
    log: Seq<InterestingWithTime>,
    bound: u64,
) -> bool {
    &&& entry.0.fuzzer_id@ != slow_id
    &&& !entry.1.metric.spec_is_zero()
    &&& logged_by(log, entry.0.fuzzer_id@, bound)
}

/// A source logged by some bound stays logged when the log grows at the
/// end and the bound does not shrink.
proof fn lemma_logged_by_extend(
    oldlog: Seq<InterestingWithTime>,
    newlog: Seq<InterestingWithTime>,
    source: Seq<char>,
    old_bound: u64,
    new_bound: u64,
)
    requires
        logged_by(oldlog, source, old_bound),
        oldlog.len() <= newlog.len(),
        forall|j: int| 0 <= j < oldlog.len() ==> newlog[j] == oldlog[j],
        old_bound <= new_bound,
    ensures
        logged_by(newlog, source, new_bound),
{
    let j = choose|j: int|
        0 <= j < oldlog.len() && (#[trigger] oldlog[j]).input_message.fuzzer_id@ == source
            && oldlog[j].elapsed_millis <= old_bound;
    assert(0 <= j < newlog.len() && newlog[j].input_message.fuzzer_id@ == source
        && newlog[j].elapsed_millis <= new_bound);
}

/// The master's orchestration state.
pub struct Master {
    pub sut: Vec<String>,
    pub winning_strategy: WinningStrategy,
    pub drivers: Vec<Driver>,
    pub work_path: String,
    pub interesting_log: Vec<InterestingWithTime>,
    pub winning_log: Vec<WinningRecord>,
    pub watches: Vec<WatchDescriptorData>,
    pub best_interesting: Vec<Vec<(InterestingInput, RepMetric)>>,
    pub last_elapsed_millis: u64,
}

impl Master {
    /// Driver identifiers are unique and metric ports pairwise distinct
    /// and distinct from the two shared ports.
    pub open spec fn drivers_wf(self) -> bool {
        &&& forall|i: int, j: int|
            0 <= i < j < self.drivers@.len() ==> (#[trigger] self.drivers@[i]).fuzzer_id@
                != (#[trigger] self.drivers@[j]).fuzzer_id@
        &&& forall|i: int, j: int|
            0 <= i < j < self.drivers@.len() ==> (#[trigger] self.drivers@[i]).metric_port
                != (#[trigger] self.drivers@[j]).metric_port
        &&& forall|i: int|
            0 <= i < self.drivers@.len() ==> (#[trigger] self.drivers@[i]).metric_port
                != INTERESTING_PORT && self.drivers@[i].metric_port != USE_PORT
    }

    /// Each watch entry belongs to a slow-variant driver and each
    /// slow-variant driver has a watch entry.
    pub open spec fn watch_links(self) -> bool {
        &&& forall|k: int|
            0 <= k < self.watches@.len() ==> slow_id_in(
                self.drivers@,
                (#[trigger] self.watches@[k]).fuzzer_id@,
            )
        &&& forall|i: int|
            0 <= i < self.drivers@.len() && (#[trigger] self.drivers@[i]).fuzzer_type
                == FuzzerType::VUzzer ==> watch_id_in(self.watches@, self.drivers@[i].fuzzer_id@)
    }

    /// The watch list holds exactly the slow-variant drivers, one entry
    /// each, with its ready flag armed only after two modifications; the
    /// candidate table runs parallel to it.
    pub open spec fn watches_wf(self) -> bool {
        &&& self.best_interesting@.len() == self.watches@.len()
        &&& forall|k: int, l: int|
            0 <= k < l < self.watches@.len() ==> (#[trigger] self.watches@[k]).fuzzer_id@
                != (#[trigger] self.watches@[l]).fuzzer_id@
        &&& self.watch_links()
        &&& forall|k: int|
            0 <= k < self.watches@.len() ==> ((#[trigger] self.watches@[k]).ready
                ==> self.watches@[k].modified >= 2)
        &&& forall|k: int, e: int|
            0 <= k < self.watches@.len() && 0 <= e < self.best_interesting@[k].len()
                ==> batch_entry_wf(
                #[trigger] self.best_interesting@[k][e],
                self.watches@[k].fuzzer_id@,
                self.interesting_log@,
                self.last_elapsed_millis,
            )
    }

    /// The inputs log is ordered by arrival with non-decreasing elapsed
    /// times below the high-water mark, and every winning record is sound
    /// against it.
    pub open spec fn logs_wf(self) -> bool {
        &&& forall|j1: int, j2: int|
            0 <= j1 < j2 < self.interesting_log@.len()
                ==> (#[trigger] self.interesting_log@[j1]).elapsed_millis
                <= (#[trigger] self.interesting_log@[j2]).elapsed_millis
        &&& forall|j: int|
            0 <= j < self.interesting_log@.len()
                ==> (#[trigger] self.interesting_log@[j]).elapsed_millis
                <= self.last_elapsed_millis
        &&& forall|w: int|
            0 <= w < self.winning_log@.len() ==> winning_record_wf(
                #[trigger] self.winning_log@[w],
                self.interesting_log@,
            )
    }

    /// The state invariant every method preserves.
    pub open spec fn wf(self) -> bool {
        &&& self.drivers_wf()
        &&& self.watches_wf()
        &&& self.logs_wf()
    }

    /// The watch-to-driver correspondence survives any step that keeps
    /// the drivers and the watch identifiers.
    proof fn lemma_watch_links_preserved(pre: Master, post: Master)
        requires
            pre.watch_links(),
            post.drivers@ == pre.drivers@,
            post.watches@.len() == pre.watches@.len(),
            forall|k: int|
                0 <= k < post.watches@.len() ==> (#[trigger] post.watches@[k]).fuzzer_id@
                    == pre.watches@[k].fuzzer_id@,
        ensures
            post.watch_links(),
    {
        assert forall|k: int| 0 <= k < post.watches@.len() implies slow_id_in(
            post.drivers@,
            (#[trigger] post.watches@[k]).fuzzer_id@,
        ) by {
            assert(slow_id_in(pre.drivers@, pre.watches@[k].fuzzer_id@));
        }
        assert forall|i: int|
            0 <= i < post.drivers@.len() && (#[trigger] post.drivers@[i]).fuzzer_type
                == FuzzerType::VUzzer implies watch_id_in(
            post.watches@,
            post.drivers@[i].fuzzer_id@,
        ) by {
            assert(pre.drivers@[i].fuzzer_type == FuzzerType::VUzzer);
            assert(watch_id_in(pre.watches@, pre.drivers@[i].fuzzer_id@));
            let k = choose|k: int|
                0 <= k < pre.watches@.len() && (#[trigger] pre.watches@[k]).fuzzer_id@
                    == pre.drivers@[i].fuzzer_id@;
            assert(0 <= k < post.watches@.len() && post.watches@[k].fuzzer_id@
                == post.drivers@[i].fuzzer_id@);
        }
    }

    /// Builds the driver for one requested identifier: its variant is
    /// read from the first conf file naming it. Fails exactly when the
    /// identifier has no usable configuration.
    fn build_one_driver(
        fuzzer_id: &String,
        stdin_sut: bool,
        sut: &Vec<String>,
        conf_files: &Vec<String>,
        work_path: &String,
        metric_port: u32,
    ) -> (r: Result<Driver, String>)
        ensures
            match r {
                Ok(d) => {
                    &&& d.fuzzer_id@ == fuzzer_id@
                    &&& d.metric_port == metric_port
                    &&& id_conf_ok(conf_files@.map_values(|t: String| t@), fuzzer_id@)
                    &&& driver_built_ok(
                        d,
                        conf_files@.map_values(|t: String| t@),
                        work_path@,
                        sut@.map_values(|t: String| t@),
                        stdin_sut,
                    )
                },
                Err(_) => !id_conf_ok(conf_files@.map_values(|t: String| t@), fuzzer_id@),
            },
    {
        let ghost confs = conf_files@.map_values(|t: String| t@);
        let ghost sut_views = sut@.map_values(|t: String| t@);

        // Find the first conf file whose name mentions this id.
        let mut c: usize = 0;
        let mut found: Option<usize> = None;
        while c < conf_files.len()
            invariant
                0 <= c <= conf_files@.len(),
                confs == conf_files@.map_values(|t: String| t@),
                match found {
                    Some(fc) => conf_first_match(confs, fuzzer_id@, fc as int),
                    None => forall|k: int|
                        0 <= k < c ==> !contains_seq(#[trigger] confs[k], fuzzer_id@),
                },
                found is Some ==> c == conf_files@.len(),
            decreases conf_files@.len() - c,
        {
            if str_contains(conf_files[c].as_str(), fuzzer_id.as_str()) {
                found = Some(c);
                proof {
                    assert(conf_first_match(confs, fuzzer_id@, c as int));
                }
                c = conf_files.len();
            } else {
                c = c + 1;
            }
        }
        let conf_index = match found {
            Some(fc) => fc,
            None => {
                proof {
                    assert(!id_conf_ok(confs, fuzzer_id@)) by {
                        reveal(id_conf_ok);
                        if id_conf_ok(confs, fuzzer_id@) {
                            let c2 = choose|c2: int|
                                #[trigger] conf_first_match(confs, fuzzer_id@, c2)
                                    && valid_conf_name(confs[c2]);
                        }
                    }
                }
                let mut e = String::new();
                e.append("a config file for ");
                e.append(fuzzer_id.as_str());
                e.append(" was not found");
                return Err(e);
            },
        };

        // Read the variant from the middle token of the conf name.
        let name_tokens = split_on(conf_files[conf_index].as_str(), '.');
        if name_tokens.len() < 3 {
            proof {
                assert(!id_conf_ok(confs, fuzzer_id@)) by {
                    reveal(id_conf_ok);
                    if id_conf_ok(confs, fuzzer_id@) {
                        let c2 = choose|c2: int|
                            #[trigger] conf_first_match(confs, fuzzer_id@, c2) && valid_conf_name(
                                confs[c2],
                            );
                        assert(c2 == conf_index);
                    }
                }
            }
            let mut e = String::new();
            e.append("invalid conf filename ");
            e.append(conf_files[conf_index].as_str());
            return Err(e);
        }
        let fuzzer_type = match FuzzerType::from_str(name_tokens[1].as_str()) {
            Ok(t) => t,
            Err(e) => {
                proof {
                    assert(!id_conf_ok(confs, fuzzer_id@)) by {
                        reveal(id_conf_ok);
                        if id_conf_ok(confs, fuzzer_id@) {
                            let c2 = choose|c2: int|
                                #[trigger] conf_first_match(confs, fuzzer_id@, c2)
                                    && valid_conf_name(confs[c2]);
                            assert(c2 == conf_index);
                        }
                    }
                }
                return Err(e);
            },
        };

        // Per-driver input file, unless the target reads standard input.
        let sut_input_file: Option<String> = if stdin_sut {
            None
        } else {
            let mut f = work_path.clone();
            f.append("/.");
            f.append(fuzzer_id.as_str());
            f.append(".input");
            proof {
                assert(f@ =~= sut_input_path(work_path@, fuzzer_id@));
            }
            Some(f)
        };

        // The command vector, with `@@` replaced by the input file.
        let mut sut_d: Vec<String> = Vec::new();
        let mut s: usize = 0;
        while s < sut.len()
            invariant
                0 <= s <= sut@.len(),
                sut_d@.len() == s,
                match sut_input_file {
                    Some(f) => !stdin_sut && f@ == sut_input_path(work_path@, fuzzer_id@),
                    None => stdin_sut,
                },
                forall|k: int|
                    0 <= k < s ==> (#[trigger] sut_d@[k])@ == (if sut@[k]@ == "@@"@ {
                        match sut_input_file {
                            Some(f) => f@,
                            None => sut@[k]@,
                        }
                    } else {
                        sut@[k]@
                    }),
            decreases sut@.len() - s,
        {
            let token = &sut[s];
            if str_eq(token.as_str(), "@@") {
                match &sut_input_file {
                    Some(f) => sut_d.push(f.clone()),
                    None => sut_d.push(token.clone()),
                }
            } else {
                sut_d.push(token.clone());
            }
            s = s + 1;
        }
        proof {
            assert(sut_d@.map_values(|t: String| t@) =~= subst_sut(
                sut_views,
                match sut_input_file {
                    Some(f) => Some(f@),
                    None => None,
                },
            ));
        }

        let d = Driver::with_defaults(
            fuzzer_id.clone(),
            fuzzer_type,
            sut_d,
            sut_input_file,
            metric_port,
            work_path.clone(),
            None,
            None,
        );
        proof {
            assert(driver_config_ok(confs, d)) by {
                assert(conf_first_match(confs, d.fuzzer_id@, conf_index as int));
                assert(split_chars(confs[conf_index as int], '.')[1] == d.fuzzer_type.spec_name());
            }
            assert(id_conf_ok(confs, fuzzer_id@)) by {
                reveal(id_conf_ok);
                assert(conf_first_match(confs, fuzzer_id@, conf_index as int) && valid_conf_name(
                    confs[conf_index as int],
                ));
            }
            assert(driver_built_ok(d, confs, work_path@, sut_views, stdin_sut)) by {
                reveal(driver_built_ok);
            }
        }
        Ok(d)
    }

    /// Builds one driver per distinct requested identifier, with metric
    /// ports handed out in registration order; a repeated identifier
    /// keeps the earlier driver. Fails exactly when some identifier has
    /// no usable configuration.
    #[verifier::rlimit(100)]
    #[verifier::spinoff_prover]
    fn build_drivers(
        fuzzer_ids: &Vec<String>,
        stdin_sut: bool,
        sut: &Vec<String>,
        conf_files: &Vec<String>,
        work_path: &String,
    ) -> (r: Result<Vec<Driver>, String>)
        requires
            METRIC_PORT_START + fuzzer_ids@.len() <= 65535,
        ensures
            match r {
                Ok(ds) => {
                    &&& ds@.len() <= fuzzer_ids@.len()
                    &&& forall|i1: int, i2: int|
                        0 <= i1 < i2 < ds@.len() ==> (#[trigger] ds@[i1]).fuzzer_id@
                            != (#[trigger] ds@[i2]).fuzzer_id@
                    &&& forall|i1: int, i2: int|
                        0 <= i1 < i2 < ds@.len() ==> (#[trigger] ds@[i1]).metric_port
                            != (#[trigger] ds@[i2]).metric_port
                    &&& forall|i: int|
                        0 <= i < ds@.len() ==> METRIC_PORT_START <= (
                        #[trigger] ds@[i]).metric_port < METRIC_PORT_START + fuzzer_ids@.len()
                    &&& forall|j: int|
                        0 <= j < fuzzer_ids@.len() ==> id_conf_ok(
                            conf_files@.map_values(|t: String| t@),
                            (#[trigger] fuzzer_ids@[j])@,
                        )
                    &&& forall|j: int|
                        0 <= j < fuzzer_ids@.len() ==> driver_id_in(
                            ds@,
                            (#[trigger] fuzzer_ids@[j])@,
                        )
                    &&& forall|i: int|
                        0 <= i < ds@.len() ==> driver_built_ok(
                            #[trigger] ds@[i],
                            conf_files@.map_values(|t: String| t@),
                            work_path@,
                            sut@.map_values(|t: String| t@),
                            stdin_sut,
                        )
                },
                Err(_) => exists|j: int|
                    0 <= j < fuzzer_ids@.len() && !id_conf_ok(
                        conf_files@.map_values(|t: String| t@),
                        (#[trigger] fuzzer_ids@[j])@,
                    ),
            },
    {
        let ghost confs = conf_files@.map_values(|t: String| t@);
        let ghost ids = fuzzer_ids@;
        let ghost sut_views = sut@.map_values(|t: String| t@);
        let mut drivers: Vec<Driver> = Vec::new();
        let mut metric_port: u32 = METRIC_PORT_START;
        let mut j: usize = 0;
        while j < fuzzer_ids.len()
            invariant
                0 <= j <= ids.len(),
                ids == fuzzer_ids@,
                confs == conf_files@.map_values(|t: String| t@),
                sut_views == sut@.map_values(|t: String| t@),
                METRIC_PORT_START + ids.len() <= 65535,
                metric_port == METRIC_PORT_START + j,
                drivers@.len() <= j,
                forall|i1: int, i2: int|
                    0 <= i1 < i2 < drivers@.len() ==> (#[trigger] drivers@[i1]).fuzzer_id@
                        != (#[trigger] drivers@[i2]).fuzzer_id@,
                forall|i: int|
                    0 <= i < drivers@.len() ==> METRIC_PORT_START <= (
                    #[trigger] drivers@[i]).metric_port < metric_port,
                forall|i1: int, i2: int|
                    0 <= i1 < i2 < drivers@.len() ==> (#[trigger] drivers@[i1]).metric_port
                        != (#[trigger] drivers@[i2]).metric_port,
                forall|j2: int| 0 <= j2 < j ==> id_conf_ok(confs, (#[trigger] ids[j2])@),
                forall|j2: int| 0 <= j2 < j ==> driver_id_in(drivers@, (#[trigger] ids[j2])@),
                forall|i: int|
                    0 <= i < drivers@.len() ==> driver_built_ok(
                        #[trigger] drivers@[i],
                        confs,
                        work_path@,
                        sut_views,
                        stdin_sut,
                    ),
            decreases ids.len() - j,
        {
            let fuzzer_id = &fuzzer_ids[j];
            let d = match Master::build_one_driver(
                fuzzer_id,
                stdin_sut,
                sut,
                conf_files,
                work_path,
                metric_port,
            ) {
                Ok(d) => d,
                Err(e) => {
                    return Err(e);
                },
            };

            // A repeated identifier replaces the earlier driver.
            let mut existing: Option<usize> = None;
            let mut i: usize = 0;
            while i < drivers.len()
                invariant
                    0 <= i <= drivers@.len(),
                    d.fuzzer_id@ == ids[j as int]@,
                    fuzzer_id@ == d.fuzzer_id@,
                    j < ids.len(),
                    match existing {
                        Some(pos) => pos < drivers@.len() && drivers@[pos as int].fuzzer_id@
                            == d.fuzzer_id@,
                        None => forall|k: int|
                            0 <= k < i ==> (#[trigger] drivers@[k]).fuzzer_id@ != d.fuzzer_id@,
                    },
                    existing is Some ==> i == drivers@.len(),
                decreases drivers@.len() - i,
            {
                if str_eq(drivers[i].fuzzer_id.as_str(), fuzzer_id.as_str()) {
                    existing = Some(i);
                    i = drivers.len();
                } else {
                    i = i + 1;
                }
            }
            let ghost pre_drivers = drivers@;
            match existing {
                Some(_) => {
                    // The identifier is already registered; the earlier
                    // driver stays.
                },
                None => {
                    drivers.push(d);
                },
            }
            proof {
                assert forall|j2: int| 0 <= j2 < j + 1 implies driver_id_in(
                    drivers@,
                    (#[trigger] ids[j2])@,
                ) by {
                    if j2 < j {
                        let i2 = choose|i2: int|
                            0 <= i2 < pre_drivers.len() && (#[trigger] pre_drivers[i2]).fuzzer_id@
                                == ids[j2]@;
                        assert(0 <= i2 < drivers@.len() && drivers@[i2].fuzzer_id@ == ids[j2]@);
                    } else {
                        match existing {
                            Some(pos) => {
                                assert(0 <= pos < drivers@.len() && drivers@[
                                    pos as int].fuzzer_id@ == ids[j2]@);
                            },
                            None => {
                                assert(drivers@[drivers@.len() - 1].fuzzer_id@ == ids[j2]@);
                            },
                        }
                    }
                }
            }
            metric_port = metric_port + 1;
            j = j + 1;
        }
        Ok(drivers)
    }

    /// One watch entry with an empty candidate vector per slow driver.
    fn build_watches(drivers: &Vec<Driver>) -> (r: (
        Vec<WatchDescriptorData>,
        Vec<Vec<(InterestingInput, RepMetric)>>,
    ))
        requires
            forall|i1: int, i2: int|
                0 <= i1 < i2 < drivers@.len() ==> (#[trigger] drivers@[i1]).fuzzer_id@
                    != (#[trigger] drivers@[i2]).fuzzer_id@,
        ensures
            r.1@.len() == r.0@.len(),
            forall|k: int|
                0 <= k < r.0@.len() ==> (#[trigger] r.0@[k]).modified == 0 && !r.0@[k].ready
                    && r.1@[k]@.len() == 0,
            forall|k: int|
                0 <= k < r.0@.len() ==> slow_id_in(drivers@, (#[trigger] r.0@[k]).fuzzer_id@),
            forall|i: int|
                0 <= i < drivers@.len() && (#[trigger] drivers@[i]).fuzzer_type
                    == FuzzerType::VUzzer ==> watch_id_in(r.0@, drivers@[i].fuzzer_id@),
            forall|k1: int, k2: int|
                0 <= k1 < k2 < r.0@.len() ==> (#[trigger] r.0@[k1]).fuzzer_id@
                    != (#[trigger] r.0@[k2]).fuzzer_id@,
    {
        let mut watches: Vec<WatchDescriptorData> = Vec::new();
        let mut best_interesting: Vec<Vec<(InterestingInput, RepMetric)>> = Vec::new();
        let mut i: usize = 0;
        while i < drivers.len()
            invariant
                0 <= i <= drivers@.len(),
                best_interesting@.len() == watches@.len(),
                forall|i1: int, i2: int|
                    0 <= i1 < i2 < drivers@.len() ==> (#[trigger] drivers@[i1]).fuzzer_id@
                        != (#[trigger] drivers@[i2]).fuzzer_id@,
                forall|k: int|
                    0 <= k < watches@.len() ==> (#[trigger] watches@[k]).modified == 0
                        && !watches@[k].ready && best_interesting@[k]@.len() == 0,
                forall|k: int|
                    0 <= k < watches@.len() ==> slow_id_in_prefix(
                        drivers@,
                        (#[trigger] watches@[k]).fuzzer_id@,
                        i as int,
                    ),
                forall|i2: int|
                    0 <= i2 < i && (#[trigger] drivers@[i2]).fuzzer_type == FuzzerType::VUzzer
                        ==> watch_id_in(watches@, drivers@[i2].fuzzer_id@),
                forall|k1: int, k2: int|
                    0 <= k1 < k2 < watches@.len() ==> (#[trigger] watches@[k1]).fuzzer_id@
                        != (#[trigger] watches@[k2]).fuzzer_id@,
            decreases drivers@.len() - i,
        {
            let ghost pre_watches = watches@;
            if drivers[i].is_vuzzer() {
                watches.push(
                    WatchDescriptorData {
                        fuzzer_id: drivers[i].fuzzer_id.clone(),
                        modified: 0,
                        ready: false,
                    },
                );
                best_interesting.push(Vec::new());
                proof {
                    assert(watches@.last().fuzzer_id@ == drivers@[i as int].fuzzer_id@);
                    assert forall|k: int| 0 <= k < watches@.len() implies slow_id_in_prefix(
                        drivers@,
                        (#[trigger] watches@[k]).fuzzer_id@,
                        i + 1,
                    ) by {
                        if k < pre_watches.len() {
                            assert(watches@[k] == pre_watches[k]);
                            assert(slow_id_in_prefix(drivers@, pre_watches[k].fuzzer_id@, i as int));
                            let i2 = choose|i2: int|
                                0 <= i2 < i && (#[trigger] drivers@[i2]).fuzzer_type
                                    == FuzzerType::VUzzer && drivers@[i2].fuzzer_id@
                                    == pre_watches[k].fuzzer_id@;
                            assert(0 <= i2 < i + 1 && drivers@[i2].fuzzer_type
                                == FuzzerType::VUzzer && drivers@[i2].fuzzer_id@ == watches@[
                                k
                            ].fuzzer_id@);
                        } else {
                            assert(0 <= i < i + 1 && drivers@[i as int].fuzzer_type
                                == FuzzerType::VUzzer && drivers@[i as int].fuzzer_id@ == watches@[
                                k
                            ].fuzzer_id@);
                        }
                    }
                    assert forall|i2: int|
                        0 <= i2 < i + 1 && (#[trigger] drivers@[i2]).fuzzer_type
                            == FuzzerType::VUzzer implies watch_id_in(
                        watches@,
                        drivers@[i2].fuzzer_id@,
                    ) by {
                        if i2 < i {
                            let k = choose|k: int|
                                0 <= k < pre_watches.len() && (#[trigger] pre_watches[k]).fuzzer_id@
                                    == drivers@[i2].fuzzer_id@;
                            assert(watches@[k].fuzzer_id@ == drivers@[i2].fuzzer_id@);
                        } else {
                            assert(watches@[watches@.len() - 1].fuzzer_id@ == drivers@[
                                i2
                            ].fuzzer_id@);
                        }
                    }
                    assert forall|k1: int, k2: int|
                        0 <= k1 < k2 < watches@.len() implies (#[trigger] watches@[k1]).fuzzer_id@
                        != (#[trigger] watches@[k2]).fuzzer_id@ by {
                        if k2 == watches@.len() - 1 {
                            assert(watches@[k1] == pre_watches[k1]);
                            assert(slow_id_in_prefix(drivers@, pre_watches[k1].fuzzer_id@, i as int));
                            let i1 = choose|i1: int|
                                0 <= i1 < i && (#[trigger] drivers@[i1]).fuzzer_type
                                    == FuzzerType::VUzzer && drivers@[i1].fuzzer_id@
                                    == pre_watches[k1].fuzzer_id@;
                            // The new entry carries driver i's identifier;
                            // an earlier driver cannot share it.
                            assert(drivers@[i1].fuzzer_id@ != drivers@[i as int].fuzzer_id@);
                        } else {
                            assert(watches@[k1] == pre_watches[k1]);
                            assert(watches@[k2] == pre_watches[k2]);
                        }
                    }
                }
            } else {
                proof {
                    assert forall|k: int| 0 <= k < watches@.len() implies slow_id_in_prefix(
                        drivers@,
                        (#[trigger] watches@[k]).fuzzer_id@,
                        i + 1,
                    ) by {
                        let i2 = choose|i2: int|
                            0 <= i2 < i && (#[trigger] drivers@[i2]).fuzzer_type
                                == FuzzerType::VUzzer && drivers@[i2].fuzzer_id@ == watches@[
                            k
                        ].fuzzer_id@;
                        assert(0 <= i2 < i + 1 && drivers@[i2].fuzzer_type == FuzzerType::VUzzer
                            && drivers@[i2].fuzzer_id@ == watches@[k].fuzzer_id@);
                    }
                    assert forall|i2: int|
                        0 <= i2 < i + 1 && (#[trigger] drivers@[i2]).fuzzer_type
                            == FuzzerType::VUzzer implies watch_id_in(
                        watches@,
                        drivers@[i2].fuzzer_id@,
                    ) by {
                        if i2 < i {
                            assert(watch_id_in(watches@, drivers@[i2].fuzzer_id@));
                        } else {
                            assert(drivers@[i2].fuzzer_type != FuzzerType::VUzzer);
                        }
                    }
                }
            }
            i = i + 1;
        }
        proof {
            assert forall|k: int| 0 <= k < watches@.len() implies slow_id_in(
                drivers@,
                (#[trigger] watches@[k]).fuzzer_id@,
            ) by {
                let i2 = choose|i2: int|
                    0 <= i2 < drivers@.len() && (#[trigger] drivers@[i2]).fuzzer_type
                        == FuzzerType::VUzzer && drivers@[i2].fuzzer_id@ == watches@[k].fuzzer_id@;
            }
        }
        (watches, best_interesting)
    }

    /// Builds the master from its parsed command line and the
    /// configuration files found in the working directory. Fails exactly
    /// when fewer than two identifiers or no system-under-test command
    /// were given, or some identifier has no usable configuration.
    pub fn from_args(
        fuzzer_ids: Vec<String>,
        prefer_high: bool,
        threshold: Option<Metric>,
        stdin_sut: bool,
        sut: Vec<String>,
        conf_files: Vec<String>,
        work_path: String,
    ) -> (r: Result<Master, String>)
        requires
            METRIC_PORT_START + fuzzer_ids@.len() <= 65535,
        ensures
            match r {
                Ok(m) => {
                    &&& m.wf()
                    &&& fuzzer_ids@.len() >= 2
                    &&& sut@.len() > 0
                    &&& m.winning_strategy == (match threshold {
                        Some(th) => WinningStrategy::MultipleWinners(th, prefer_high),
                        None => WinningStrategy::SingleWinner(prefer_high),
                    })
                    &&& m.work_path@ == work_path@
                    &&& m.sut == sut
                    &&& m.interesting_log@.len() == 0
                    &&& m.winning_log@.len() == 0
                    &&& m.last_elapsed_millis == 0
                    &&& forall|k: int|
                        0 <= k < m.watches@.len() ==> (#[trigger] m.watches@[k]).modified == 0
                            && !m.watches@[k].ready && m.best_interesting@[k]@.len() == 0
                    &&& forall|j: int|
                        0 <= j < fuzzer_ids@.len() ==> id_conf_ok(
                            conf_files@.map_values(|t: String| t@),
                            (#[trigger] fuzzer_ids@[j])@,
                        )
                    &&& forall|j: int|
                        0 <= j < fuzzer_ids@.len() ==> driver_id_in(
                            m.drivers@,
                            (#[trigger] fuzzer_ids@[j])@,
                        )
                    &&& m.drivers@.len() <= fuzzer_ids@.len()
                    &&& forall|i: int|
                        0 <= i < m.drivers@.len() ==> driver_built_ok(
                            #[trigger] m.drivers@[i],
                            conf_files@.map_values(|t: String| t@),
                            work_path@,
                            sut@.map_values(|t: String| t@),
                            stdin_sut,
                        )
                    &&& forall|i: int|
                        0 <= i < m.drivers@.len() ==> METRIC_PORT_START <= (
                        #[trigger] m.drivers@[i]).metric_port < METRIC_PORT_START
                            + fuzzer_ids@.len()
                },
                Err(_) => fuzzer_ids@.len() < 2 || sut@.len() == 0 || exists|j: int|
                    0 <= j < fuzzer_ids@.len() && !id_conf_ok(
                        conf_files@.map_values(|t: String| t@),
                        (#[trigger] fuzzer_ids@[j])@,
                    ),
            },
    {
        if sut.len() == 0 {
            let mut e = String::new();
            e.append("no system under test was given");
            return Err(e);
        }
        if fuzzer_ids.len() < 2 {
            let mut e = String::new();
            e.append("at least two fuzzer ids are required");
            return Err(e);
        }
        let drivers = match Master::build_drivers(
            &fuzzer_ids,
            stdin_sut,
            &sut,
            &conf_files,
            &work_path,
        ) {
            Ok(ds) => ds,
            Err(e) => {
                return Err(e);
            },
        };
        let (watches, best_interesting) = Master::build_watches(&drivers);
        let winning_strategy = match threshold {
            Some(th) => WinningStrategy::MultipleWinners(th, prefer_high),
            None => WinningStrategy::SingleWinner(prefer_high),
        };
        let m = Master {
            sut,
            winning_strategy,
            drivers,
            work_path,
            interesting_log: Vec::new(),
            winning_log: Vec::new(),
            watches,
            best_interesting,
            last_elapsed_millis: 0,
        };
        proof {
            assert(m.drivers_wf()) by {
                assert forall|i: int|
                    0 <= i < m.drivers@.len() implies (#[trigger] m.drivers@[i]).metric_port
                    != INTERESTING_PORT && m.drivers@[i].metric_port != USE_PORT by {
                    assert(METRIC_PORT_START <= m.drivers@[i].metric_port);
                }
            }
            assert(m.watches_wf());
            assert(m.logs_wf());
        }
        Ok(m)
    }

    /// The configured prefer-high flag, whichever the strategy.    /// The configured prefer-high flag, whichever the strategy.    /// The configured prefer-high flag, whichever the strategy.
    pub fn get_high_strategy(&self) -> (r: bool)
        ensures
            r == match self.winning_strategy {
                WinningStrategy::SingleWinner(highest) => highest,
                WinningStrategy::MultipleWinners(_, higher) => higher,
            },
    {
        match self.winning_strategy {
            WinningStrategy::SingleWinner(highest) => highest,
            WinningStrategy::MultipleWinners(_, higher) => higher,
        }
    }

    /// Records an interesting input in the in-memory log and returns the
    /// inputs-log line, newline included, for the edge to append to the
    /// file. Exactly one record per received message, so the log's length
    /// counts the interesting messages received.
    pub fn log_interesting(&mut self, interesting_input: &InterestingInput, elapsed_millis: u64)
        -> (line: String)
        requires
            old(self).wf(),
            elapsed_millis >= old(self).last_elapsed_millis,
        ensures
            final(self).wf(),
            final(self).interesting_log@.len() == old(self).interesting_log@.len() + 1,
            final(self).interesting_log@.last().input_message.fuzzer_id@
                == interesting_input.fuzzer_id@,
            final(self).interesting_log@.last().input_message.input_path@
                == interesting_input.input_path@,
            final(self).interesting_log@.last().input_message.coverage_path@
                == interesting_input.coverage_path@,
            final(self).interesting_log@.last().elapsed_millis == elapsed_millis,
            final(self).interesting_log@.drop_last() == old(self).interesting_log@,
            final(self).last_elapsed_millis == elapsed_millis,
            final(self).winning_log == old(self).winning_log,
            final(self).watches == old(self).watches,
            final(self).best_interesting == old(self).best_interesting,
            final(self).drivers == old(self).drivers,
            final(self).winning_strategy == old(self).winning_strategy,
            line@ == inputs_line(
                elapsed_millis as nat,
                interesting_input.fuzzer_id@,
                interesting_input.input_path@,
                interesting_input.coverage_path@,
            ) + "\n"@,
    {
        let interesting_with_time = InterestingWithTime {
            input_message: interesting_input.clone(),
            elapsed_millis,
        };
        let mut line = interesting_with_time.to_string();
        line.append("\n");
        self.interesting_log.push(interesting_with_time);
        self.last_elapsed_millis = elapsed_millis;
        proof {
            Master::lemma_watch_links_preserved(*old(self), *final(self));
            assert(final(self).interesting_log@.drop_last() =~= old(self).interesting_log@);
            let oldlog = old(self).interesting_log@;
            let log = final(self).interesting_log@;
            let wlog = final(self).winning_log@;
            assert forall|w: int| 0 <= w < wlog.len() implies winning_record_wf(
                #[trigger] wlog[w],
                log,
            ) by {
                lemma_logged_by_extend(
                    oldlog,
                    log,
                    wlog[w].source@,
                    wlog[w].elapsed_millis,
                    wlog[w].elapsed_millis,
                );
            }
            let table = final(self).best_interesting@;
            let watches = final(self).watches@;
            assert forall|k: int, e: int|
                0 <= k < watches.len() && 0 <= e < table[k].len() implies batch_entry_wf(
                #[trigger] table[k][e],
                watches[k].fuzzer_id@,
                log,
                final(self).last_elapsed_millis,
            ) by {
                lemma_logged_by_extend(
                    oldlog,
                    log,
                    table[k][e].0.fuzzer_id@,
                    old(self).last_elapsed_millis,
                    final(self).last_elapsed_millis,
                );
            }
        }
        line
    }

    /// Applies one filesystem event on a slow driver's working directory:
    /// a modification of the stats file bumps the count, and the driver
    /// becomes ready from the second modification on.
    pub fn on_watch_event(&mut self, watch_index: usize, name: &str)
        requires
            old(self).wf(),
            watch_index < old(self).watches@.len(),
            old(self).watches@[watch_index as int].modified < usize::MAX,
        ensures
            final(self).wf(),
            final(self).watches@.len() == old(self).watches@.len(),
            ({
                let w = old(self).watches@[watch_index as int];
                let v = final(self).watches@[watch_index as int];
                if name@ == "stats.log"@ {
                    v.modified == w.modified + 1 && v.ready == (w.modified + 1 > 1)
                        && v.fuzzer_id@ == w.fuzzer_id@
                } else {
                    v == w
                }
            }),
            forall|k: int|
                0 <= k < old(self).watches@.len() && k != watch_index
                    ==> final(self).watches@[k] == old(self).watches@[k],
            final(self).interesting_log == old(self).interesting_log,
            final(self).winning_log == old(self).winning_log,
            final(self).best_interesting == old(self).best_interesting,
            final(self).drivers == old(self).drivers,
            final(self).last_elapsed_millis == old(self).last_elapsed_millis,
    {
        if str_eq(name, "stats.log") {
            let entry = &self.watches[watch_index];
            let new_modified = entry.modified + 1;
            let new_ready = new_modified > 1;
            let fuzzer_id = entry.fuzzer_id.clone();
            proof {
                assert(fuzzer_id == old(self).watches@[watch_index as int].fuzzer_id);
            }
            self.watches.set(
                watch_index,
                WatchDescriptorData { fuzzer_id, modified: new_modified, ready: new_ready },
            );
            proof {
                if old(self).watches@[watch_index as int].ready {
                    assert(old(self).watches@[watch_index as int].modified >= 2);
                }
                let fw = final(self).watches@;
                assert forall|k: int| 0 <= k < fw.len() implies (#[trigger] fw[k]).fuzzer_id@
                    == old(self).watches@[k].fuzzer_id@ by {}
                Master::lemma_watch_links_preserved(*old(self), *final(self));
                assert(final(self).wf());
            }
        }
    }
}

/// Whether the replies are a well-formed peer evaluation of an input by
/// `source`: every entry names an existing driver other than the source,
/// and no driver is named twice.
pub open spec fn metrics_wf(
    drivers: Seq<Driver>,
    metrics: Seq<(usize, RepMetric)>,
    source: Seq<char>,
) -> bool {
    &&& forall|e: int| 0 <= e < metrics.len() ==> (#[trigger] metrics[e]).0 < drivers.len()
    &&& forall|e: int|
        0 <= e < metrics.len() ==> drivers[(#[trigger] metrics[e]).0 as int].fuzzer_id@ != source
    &&& forall|e1: int, e2: int|
        0 <= e1 < e2 < metrics.len() ==> (#[trigger] metrics[e1]).0 != (#[trigger] metrics[e2]).0
}

/// Whether reply `q` belongs to the slow driver watched by entry `k` and
/// is not zero, so it feeds that driver's deferred batch.
pub open spec fn feeds_watch(
    drivers: Seq<Driver>,
    watches: Seq<WatchDescriptorData>,
    metrics: Seq<(usize, RepMetric)>,
    q: int,
    k: int,
) -> bool {
    &&& 0 <= q < metrics.len()
    &&& 0 <= k < watches.len()
    &&& !metrics[q].1.metric.spec_is_zero()
    &&& metrics[q].0 < drivers.len()
    &&& drivers[metrics[q].0 as int].fuzzer_id@ == watches[k].fuzzer_id@
}

/// Whether one of the listed identifiers is `id`.
pub open spec fn id_in(ids: Seq<String>, id: Seq<char>) -> bool {
    exists|a: int| 0 <= a < ids.len() && (#[trigger] ids[a])@ == id
}

/// Whether reply `e` belongs to a fast (not slow-variant) driver.
pub open spec fn fast_entry(drivers: Seq<Driver>, metrics: Seq<(usize, RepMetric)>, e: int) -> bool {
    &&& 0 <= e < metrics.len()
    &&& metrics[e].0 < drivers.len()
    &&& drivers[metrics[e].0 as int].fuzzer_type != FuzzerType::VUzzer
}

/// Whether one of the first `e` replies is non-zero and belongs to the
/// driver with this identifier.
pub open spec fn nonzero_named(
    drivers: Seq<Driver>,
    metrics: Seq<(usize, RepMetric)>,
    e: int,
    id: Seq<char>,
) -> bool {
    exists|q: int|
        0 <= q < e && !(#[trigger] metrics[q]).1.metric.spec_is_zero()
            && drivers[metrics[q].0 as int].fuzzer_id@ == id
}

/// Whether one of the first `e` replies is this entry and belongs to a
/// fast driver.
pub open spec fn fast_reply_at(
    drivers: Seq<Driver>,
    metrics: Seq<(usize, RepMetric)>,
    e: int,
    entry: (usize, RepMetric),
) -> bool {
    exists|q: int|
        0 <= q < e && #[trigger] fast_entry(drivers, metrics, q) && metrics[q] == entry
}

/// Every listed winner is named by a non-zero reply among the first `e`.
pub open spec fn broadcast_members(
    drivers: Seq<Driver>,
    metrics: Seq<(usize, RepMetric)>,
    winners: Seq<String>,
    e: int,
) -> bool {
    forall|a: int|
        0 <= a < winners.len() ==> nonzero_named(drivers, metrics, e, (#[trigger] winners[a])@)
}

/// Every element of the filtered list is a fast reply among the first `e`.
pub open spec fn fast_members(
    drivers: Seq<Driver>,
    metrics: Seq<(usize, RepMetric)>,
    fast: Seq<(usize, RepMetric)>,
    e: int,
) -> bool {
    forall|a: int|
        0 <= a < fast.len() ==> fast_reply_at(drivers, metrics, e, #[trigger] fast[a])
}

/// Broadcast regime, for inputs from a slow source: the winners are
/// exactly the peers whose reply is not zero.
pub open spec fn broadcast_winners_ok(
    drivers: Seq<Driver>,
    metrics: Seq<(usize, RepMetric)>,
    winners: Seq<String>,
) -> bool {
    &&& forall|e: int|
        0 <= e < metrics.len() ==> (id_in(
            winners,
            drivers[(#[trigger] metrics[e]).0 as int].fuzzer_id@,
        ) <==> !metrics[e].1.metric.spec_is_zero())
    &&& broadcast_members(drivers, metrics, winners, metrics.len() as int)
}

/// Single-winner strategy over the fast peers: nobody when every fast
/// reply is zero, else exactly one winner, a fast peer whose reply is
/// extremal among the fast replies.
pub open spec fn single_winner_ok(
    drivers: Seq<Driver>,
    metrics: Seq<(usize, RepMetric)>,
    highest: bool,
    winners: Seq<String>,
) -> bool {
    &&& winners.len() <= 1
    &&& ((winners.len() == 0) <==> (forall|e: int|
        fast_entry(drivers, metrics, e) ==> (#[trigger] metrics[e]).1.metric.spec_is_zero()))
    &&& (winners.len() == 1 ==> exists|e: int|
        #[trigger] fast_entry(drivers, metrics, e) && drivers[metrics[e].0 as int].fuzzer_id@
            == winners[0]@ && (forall|e2: int|
            #[trigger] fast_entry(drivers, metrics, e2) ==> (if highest {
                metrics[e2].1.metric.rank <= metrics[e].1.metric.rank
            } else {
                metrics[e2].1.metric.rank >= metrics[e].1.metric.rank
            })))
}

/// Multiple-winners strategy over the fast peers: a fast peer wins
/// exactly when its reply is strictly on the preferred side of the
/// threshold.
pub open spec fn multiple_winners_ok(
    drivers: Seq<Driver>,
    metrics: Seq<(usize, RepMetric)>,
    threshold: Metric,
    higher: bool,
    winners: Seq<String>,
) -> bool {
    &&& forall|e: int|
        #[trigger] fast_entry(drivers, metrics, e) ==> (id_in(
            winners,
            drivers[metrics[e].0 as int].fuzzer_id@,
        ) <==> beats_threshold(metrics[e].1.metric, threshold, higher))
    &&& forall|a: int|
        0 <= a < winners.len() ==> winning_fast_named(
            drivers,
            metrics,
            threshold,
            higher,
            (#[trigger] winners[a])@,
        )
}

/// Whether some fast reply beats the threshold and belongs to the driver
/// with this identifier.
pub open spec fn winning_fast_named(
    drivers: Seq<Driver>,
    metrics: Seq<(usize, RepMetric)>,
    threshold: Metric,
    higher: bool,
    id: Seq<char>,
) -> bool {
    exists|e: int|
        #[trigger] fast_entry(drivers, metrics, e) && beats_threshold(
            metrics[e].1.metric,
            threshold,
            higher,
        ) && drivers[metrics[e].0 as int].fuzzer_id@ == id
}

/// Whether conf file `c` is the first in the list whose name mentions
/// this identifier.
pub open spec fn conf_first_match(confs: Seq<Seq<char>>, id: Seq<char>, c: int) -> bool {
    &&& 0 <= c < confs.len()
    &&& contains_seq(confs[c], id)
    &&& forall|k: int| 0 <= k < c ==> !contains_seq(#[trigger] confs[k], id)
}

/// Whether a configuration file name carries a variant token: at least
/// three dot-separated parts, the middle one a known variant name.
pub open spec fn valid_conf_name(name: Seq<char>) -> bool {
    &&& split_chars(name, '.').len() >= 3
    &&& (split_chars(name, '.')[1] == "afl"@ || split_chars(name, '.')[1] == "hongg"@
        || split_chars(name, '.')[1] == "vu"@)
}

/// Whether the identifier has a usable configuration: its first matching
/// conf file name parses to a variant.
#[verifier::opaque]
pub open spec fn id_conf_ok(confs: Seq<Seq<char>>, id: Seq<char>) -> bool {
    exists|c: int| #[trigger] conf_first_match(confs, id, c) && valid_conf_name(confs[c])
}

/// Whether the driver's variant was read from its first matching conf
/// file name.
pub open spec fn driver_config_ok(confs: Seq<Seq<char>>, d: Driver) -> bool {
    exists|c: int|
        #[trigger] conf_first_match(confs, d.fuzzer_id@, c) && split_chars(confs[c], '.').len()
            >= 3 && split_chars(confs[c], '.')[1] == d.fuzzer_type.spec_name()
}

/// The system-under-test tokens with every `@@` replaced by the
/// per-driver input file, when one is used.
pub open spec fn subst_sut(sut: Seq<Seq<char>>, replacement: Option<Seq<char>>) -> Seq<Seq<char>> {
    sut.map_values(
        |tok: Seq<char>|
            if tok == "@@"@ {
                match replacement {
                    Some(f) => f,
                    None => tok,
                }
            } else {
                tok
            },
    )
}

/// The per-driver input file path: `<work>/.<id>.input`.
pub open spec fn sut_input_path(work: Seq<char>, id: Seq<char>) -> Seq<char> {
    work + "/."@ + id + ".input"@
}

/// Whether a driver was built as the command line construction rules
/// demand: paths derived from the working directory, the variant read
/// from its first matching conf file, the default shared ports, and the
/// command vector with `@@` replaced by its input file unless the target
/// reads standard input.
#[verifier::opaque]
pub open spec fn driver_built_ok(
    d: Driver,
    confs: Seq<Seq<char>>,
    work_path: Seq<char>,
    sut_views: Seq<Seq<char>>,
    stdin_sut: bool,
) -> bool {
    &&& d.wf(work_path)
    &&& driver_config_ok(confs, d)
    &&& (stdin_sut ==> d.sut_input_file is None)
    &&& (!stdin_sut ==> (d.sut_input_file matches Some(f) && f@ == sut_input_path(
        work_path,
        d.fuzzer_id@,
    )))
    &&& d.sut@.map_values(|t: String| t@) == subst_sut(
        sut_views,
        match d.sut_input_file {
            Some(f) => Some(f@),
            None => None,
        },
    )
    &&& d.interesting_port == INTERESTING_PORT
    &&& d.use_port == USE_PORT
}

/// Relies on rand's `SliceRandom::shuffle` with the thread-local
/// generator of `rand::rng`: a Fisher-Yates in-place permutation of the
/// slice. The multiset of elements, and so the length, is unchanged;
/// nothing is promised about the order.
#[verifier::external_body]
fn shuffle_metrics(v: &mut Vec<(usize, RepMetric)>)
    ensures
        final(v)@.to_multiset() == old(v)@.to_multiset(),
        final(v)@.len() == old(v)@.len(),
{
    v.as_mut_slice().shuffle(&mut rand::rng());
}

/// Whether every reply in the list is the zero metric.
pub open spec fn all_zero_metrics(metrics: Seq<(usize, RepMetric)>) -> bool {
    forall|e: int| 0 <= e < metrics.len() ==> (#[trigger] metrics[e]).1.metric.spec_is_zero()
}

/// Whether the reply is strictly on the preferred side of the threshold.
pub open spec fn beats_threshold(m: Metric, threshold: Metric, higher: bool) -> bool {
    if higher {
        m.spec_gt(threshold)
    } else {
        m.spec_lt(threshold)
    }
}

impl Master {
    /// Picks the single winner among the peers' replies: nobody when every
    /// reply is zero, otherwise a peer whose reply is maximal (when
    /// `highest`) or minimal (otherwise). Replies are shuffled first, so
    /// among equal replies no choice is promised.
    pub fn metric_single_winner(metrics: &Vec<(usize, RepMetric)>, highest: bool) -> (r: Option<
        (usize, RepMetric),
    >)
        ensures
            r is None <==> all_zero_metrics(metrics@),
            match r {
                Some(best) => {
                    &&& metrics@.contains(best)
                    &&& highest ==> forall|e: int|
                        0 <= e < metrics@.len() ==> (#[trigger] metrics@[e]).1.metric.rank
                            <= best.1.metric.rank
                    &&& !highest ==> forall|e: int|
                        0 <= e < metrics@.len() ==> (#[trigger] metrics@[e]).1.metric.rank
                            >= best.1.metric.rank
                },
                None => true,
            },
    {
        let mut any_nonzero = false;
        let mut e: usize = 0;
        while e < metrics.len()
            invariant
                0 <= e <= metrics@.len(),
                any_nonzero <==> exists|q: int|
                    0 <= q < e && !(#[trigger] metrics@[q]).1.metric.spec_is_zero(),
            decreases metrics@.len() - e,
        {
            if !metrics[e].1.metric.is_zero() {
                any_nonzero = true;
            }
            e = e + 1;
        }
        if !any_nonzero {
            return None;
        }

        // Shuffling makes the later scan pick a fresh winner among equal
        // replies each time.
        let mut shuffled: Vec<(usize, RepMetric)> = Vec::new();
        let mut c: usize = 0;
        while c < metrics.len()
            invariant
                0 <= c <= metrics@.len(),
                shuffled@ =~= metrics@.take(c as int),
            decreases metrics@.len() - c,
        {
            shuffled.push(metrics[c]);
            proof {
                assert(shuffled@ =~= metrics@.take(c + 1));
            }
            c = c + 1;
        }
        proof {
            assert(metrics@.take(metrics@.len() as int) =~= metrics@);
            metrics@.to_multiset_ensures();
        }
        shuffle_metrics(&mut shuffled);
        proof {
            shuffled@.to_multiset_ensures();
        }

        let mut best = shuffled[0];
        let mut j: usize = 1;
        while j < shuffled.len()
            invariant
                1 <= j <= shuffled@.len(),
                shuffled@.contains(best),
                forall|k: int|
                    0 <= k < j ==> if highest {
                        (#[trigger] shuffled@[k]).1.metric.rank <= best.1.metric.rank
                    } else {
                        (#[trigger] shuffled@[k]).1.metric.rank >= best.1.metric.rank
                    },
            decreases shuffled@.len() - j,
        {
            let candidate = shuffled[j];
            if (highest && candidate.1.metric.gt(&best.1.metric)) || (!highest
                && candidate.1.metric.lt(&best.1.metric)) {
                best = candidate;
            }
            j = j + 1;
        }
        proof {
            metrics@.to_multiset_ensures();
            shuffled@.to_multiset_ensures();
            assert(shuffled@.to_multiset().contains(best));
            assert(metrics@.contains(best));
            assert forall|e2: int| 0 <= e2 < metrics@.len() implies (if highest {
                (#[trigger] metrics@[e2]).1.metric.rank <= best.1.metric.rank
            } else {
                (#[trigger] metrics@[e2]).1.metric.rank >= best.1.metric.rank
            }) by {
                assert(metrics@.to_multiset().contains(metrics@[e2]));
                assert(shuffled@.contains(metrics@[e2]));
            }
        }
        Some(best)
    }

    /// Every peer whose reply is strictly on the preferred side of the
    /// threshold wins; nobody else does.
    pub fn metric_multiple_winners(
        metrics: &Vec<(usize, RepMetric)>,
        threshold: Metric,
        higher: bool,
    ) -> (r: Vec<(usize, RepMetric)>)
        requires
            forall|e1: int, e2: int|
                0 <= e1 < e2 < metrics@.len() ==> (#[trigger] metrics@[e1]).0
                    != (#[trigger] metrics@[e2]).0,
        ensures
            forall|k1: int, k2: int|
                0 <= k1 < k2 < r@.len() ==> (#[trigger] r@[k1]).0 != (#[trigger] r@[k2]).0,
            forall|k: int|
                0 <= k < r@.len() ==> metrics@.contains(#[trigger] r@[k]) && beats_threshold(
                    r@[k].1.metric,
                    threshold,
                    higher,
                ),
            forall|e: int|
                0 <= e < metrics@.len() && beats_threshold(
                    (#[trigger] metrics@[e]).1.metric,
                    threshold,
                    higher,
                ) ==> r@.contains(metrics@[e]),
            r@.len() <= metrics@.len(),
    {
        let mut winners: Vec<(usize, RepMetric)> = Vec::new();
        let mut e: usize = 0;
        while e < metrics.len()
            invariant
                0 <= e <= metrics@.len(),
                winners@.len() <= e,
                forall|e1: int, e2: int|
                    0 <= e1 < e2 < metrics@.len() ==> (#[trigger] metrics@[e1]).0
                        != (#[trigger] metrics@[e2]).0,
                forall|k: int|
                    0 <= k < winners@.len() ==> metrics@.contains(#[trigger] winners@[k])
                        && beats_threshold(winners@[k].1.metric, threshold, higher),
                forall|k: int|
                    0 <= k < winners@.len() ==> exists|q: int|
                        0 <= q < e && (#[trigger] winners@[k]) == metrics@[q],
                forall|k1: int, k2: int|
                    0 <= k1 < k2 < winners@.len() ==> (#[trigger] winners@[k1]).0
                        != (#[trigger] winners@[k2]).0,
                forall|q: int|
                    0 <= q < e && beats_threshold(
                        (#[trigger] metrics@[q]).1.metric,
                        threshold,
                        higher,
                    ) ==> winners@.contains(metrics@[q]),
            decreases metrics@.len() - e,
        {
            let candidate = metrics[e];
            let ghost pre = winners@;
            if (higher && candidate.1.metric.gt(&threshold)) || (!higher && candidate.1.metric.lt(
                &threshold,
            )) {
                winners.push(candidate);
                proof {
                    assert(metrics@.contains(candidate)) by {
                        assert(metrics@[e as int] == candidate);
                    }
                    assert forall|k1: int, k2: int|
                        0 <= k1 < k2 < winners@.len() implies (#[trigger] winners@[k1]).0
                        != (#[trigger] winners@[k2]).0 by {
                        if k2 == winners@.len() - 1 {
                            let q = choose|q: int|
                                0 <= q < e && (#[trigger] pre[k1]) == metrics@[q];
                            assert(winners@[k1] == metrics@[q]);
                            assert(winners@[k2] == metrics@[e as int]);
                        } else {
                            assert(winners@[k1] == pre[k1]);
                            assert(winners@[k2] == pre[k2]);
                        }
                    }
                    assert forall|k: int| 0 <= k < winners@.len() implies exists|q: int|
                        0 <= q < e + 1 && (#[trigger] winners@[k]) == metrics@[q] by {
                        if k < winners@.len() - 1 {
                            let q = choose|q: int|
                                0 <= q < e && (#[trigger] pre[k]) == metrics@[q];
                            assert(winners@[k] == metrics@[q]);
                        } else {
                            assert(winners@[k] == metrics@[e as int]);
                        }
                    }
                }
            }
            proof {
                assert forall|q: int|
                    0 <= q < e + 1 && beats_threshold(
                        (#[trigger] metrics@[q]).1.metric,
                        threshold,
                        higher,
                    ) implies winners@.contains(metrics@[q]) by {
                    if q < e {
                        let w = choose|w: int| 0 <= w < pre.len() && pre[w] == metrics@[q];
                        assert(winners@[w] == metrics@[q]);
                    } else {
                        assert(winners@.last() == metrics@[q]);
                    }
                }
            }
            e = e + 1;
        }
        winners
    }

    /// Position of the driver carrying this identifier.
    fn find_driver_index(&self, fuzzer_id: &str) -> (r: usize)
        requires
            exists|i: int|
                0 <= i < self.drivers@.len() && (#[trigger] self.drivers@[i]).fuzzer_id@
                    == fuzzer_id@,
        ensures
            r < self.drivers@.len(),
            self.drivers@[r as int].fuzzer_id@ == fuzzer_id@,
    {
        let n = self.drivers.len();
        let mut i: usize = 0;
        loop
            invariant
                n == self.drivers@.len(),
                0 <= i <= n,
                exists|q: int|
                    i <= q < self.drivers@.len() && (#[trigger] self.drivers@[q]).fuzzer_id@
                        == fuzzer_id@,
            decreases self.drivers@.len() - i,
        {
            proof {
                let q = choose|q: int|
                    i <= q < self.drivers@.len() && (#[trigger] self.drivers@[q]).fuzzer_id@
                        == fuzzer_id@;
                assert(i < self.drivers@.len());
            }
            if str_eq(self.drivers[i].fuzzer_id.as_str(), fuzzer_id) {
                return i;
            }
            i = i + 1;
        }
    }

    /// Position of the watch entry carrying this identifier.
    fn find_watch_index(&self, fuzzer_id: &str) -> (r: usize)
        requires
            watch_id_in(self.watches@, fuzzer_id@),
        ensures
            r < self.watches@.len(),
            self.watches@[r as int].fuzzer_id@ == fuzzer_id@,
    {
        let n = self.watches.len();
        let mut k: usize = 0;
        loop
            invariant
                n == self.watches@.len(),
                0 <= k <= n,
                exists|q: int|
                    k <= q < self.watches@.len() && (#[trigger] self.watches@[q]).fuzzer_id@
                        == fuzzer_id@,
            decreases self.watches@.len() - k,
        {
            proof {
                let q = choose|q: int|
                    k <= q < self.watches@.len() && (#[trigger] self.watches@[q]).fuzzer_id@
                        == fuzzer_id@;
                assert(k < self.watches@.len());
            }
            if str_eq(self.watches[k].fuzzer_id.as_str(), fuzzer_id) {
                return k;
            }
            k = k + 1;
        }
    }

    /// Accumulates the input as a deferred-batch candidate for every slow
    /// driver whose reply is not zero: that driver's vector grows by the
    /// pair of this input and that reply; every other vector is unchanged.
    fn record_batch_candidates(
        &mut self,
        interesting_input: &InterestingInput,
        metrics: &Vec<(usize, RepMetric)>,
    )
        requires
            old(self).wf(),
            metrics_wf(old(self).drivers@, metrics@, interesting_input.fuzzer_id@),
            logged_by(
                old(self).interesting_log@,
                interesting_input.fuzzer_id@,
                old(self).last_elapsed_millis,
            ),
        ensures
            final(self).wf(),
            final(self).best_interesting@.len() == old(self).best_interesting@.len(),
            forall|k: int|
                0 <= k < final(self).watches@.len() ==> if exists|q: int| #[trigger] feeds_watch(old(self).drivers@, old(self).watches@, metrics@, q, k) {
                    {
                        let old_v = old(self).best_interesting@[k]@;
                        let new_v = (#[trigger] final(self).best_interesting@[k])@;
                        &&& new_v.len() == old_v.len() + 1
                        &&& new_v.drop_last() == old_v
                        &&& new_v.last().0.fuzzer_id@ == interesting_input.fuzzer_id@
                        &&& new_v.last().0.input_path@ == interesting_input.input_path@
                        &&& new_v.last().0.coverage_path@ == interesting_input.coverage_path@
                        &&& exists|q: int|
                            #[trigger] feeds_watch(old(self).drivers@, old(self).watches@, metrics@, q, k)
                                && new_v.last().1 == metrics@[q].1
                    }
                } else {
                    final(self).best_interesting@[k] == old(self).best_interesting@[k]
                },
            final(self).drivers == old(self).drivers,
            final(self).watches == old(self).watches,
            final(self).interesting_log == old(self).interesting_log,
            final(self).winning_log == old(self).winning_log,
            final(self).last_elapsed_millis == old(self).last_elapsed_millis,
            final(self).winning_strategy == old(self).winning_strategy,
            final(self).sut == old(self).sut,
            final(self).work_path == old(self).work_path,
    {
        let ghost drv = old(self).drivers@;
        let ghost wch = old(self).watches@;
        let ghost old_table = old(self).best_interesting@;
        let mut e: usize = 0;
        while e < metrics.len()
            invariant
                0 <= e <= metrics@.len(),
                self.wf(),
                metrics_wf(drv, metrics@, interesting_input.fuzzer_id@),
                logged_by(
                    self.interesting_log@,
                    interesting_input.fuzzer_id@,
                    self.last_elapsed_millis,
                ),
                drv == self.drivers@,
                wch == self.watches@,
                old_table.len() == self.best_interesting@.len(),
                self.drivers == old(self).drivers,
                self.watches == old(self).watches,
                self.interesting_log == old(self).interesting_log,
                self.winning_log == old(self).winning_log,
                self.last_elapsed_millis == old(self).last_elapsed_millis,
                self.winning_strategy == old(self).winning_strategy,
                self.sut == old(self).sut,
                self.work_path == old(self).work_path,
                forall|k: int|
                    0 <= k < wch.len() ==> if exists|q: int|
                        q < e && #[trigger] feeds_watch(drv, wch, metrics@, q, k) {
                        {
                            let old_v = old_table[k]@;
                            let new_v = (#[trigger] self.best_interesting@[k])@;
                            &&& new_v.len() == old_v.len() + 1
                            &&& new_v.drop_last() == old_v
                            &&& new_v.last().0.fuzzer_id@ == interesting_input.fuzzer_id@
                            &&& new_v.last().0.input_path@ == interesting_input.input_path@
                            &&& new_v.last().0.coverage_path@ == interesting_input.coverage_path@
                            &&& exists|q: int|
                                q < e && #[trigger] feeds_watch(drv, wch, metrics@, q, k)
                                    && new_v.last().1 == metrics@[q].1
                        }
                    } else {
                        self.best_interesting@[k] == old_table[k]
                    },
            decreases metrics@.len() - e,
        {
            let (di, rep) = metrics[e];
            let is_slow = self.drivers[di].is_vuzzer();
            if !rep.metric.is_zero() && is_slow {
                let slow_id = self.drivers[di].fuzzer_id.clone();
                let k = self.find_watch_index(slow_id.as_str());
                proof {
                    // Only this watch matches reply `e`, and no earlier
                    // reply fed it: replies name distinct drivers and
                    // identifiers are unique.
                    assert(!exists|q: int|
                        q < e && #[trigger] feeds_watch(drv, wch, metrics@, q, k as int)) by {
                        if exists|q: int|
                            q < e && #[trigger] feeds_watch(drv, wch, metrics@, q, k as int) {
                            let q = choose|q: int|
                                q < e && #[trigger] feeds_watch(drv, wch, metrics@, q, k as int);
                            assert(drv[metrics@[q].0 as int].fuzzer_id@ == drv[di as int].fuzzer_id@);
                            assert(metrics@[q].0 == di);
                        }
                    }
                }
                let ghost pre_table = self.best_interesting@;
                let mut inner = self.best_interesting.remove(k);
                inner.push((interesting_input.clone(), rep));
                self.best_interesting.insert(k, inner);
                proof {
                    assert(self.best_interesting@ =~= pre_table.update(
                        k as int,
                        self.best_interesting@[k as int],
                    ));
                    assert forall|k2: int|
                        0 <= k2 < wch.len() && k2 != k implies self.best_interesting@[k2]
                        == pre_table[k2] by {}
                    assert forall|k2: int| 0 <= k2 < wch.len() implies (if exists|q: int|
                        q < e + 1 && #[trigger] feeds_watch(drv, wch, metrics@, q, k2) {
                        {
                            let old_v = old_table[k2]@;
                            let new_v = (#[trigger] self.best_interesting@[k2])@;
                            &&& new_v.len() == old_v.len() + 1
                            &&& new_v.drop_last() == old_v
                            &&& new_v.last().0.fuzzer_id@ == interesting_input.fuzzer_id@
                            &&& new_v.last().0.input_path@ == interesting_input.input_path@
                            &&& new_v.last().0.coverage_path@ == interesting_input.coverage_path@
                            &&& exists|q: int|
                                q < e + 1 && #[trigger] feeds_watch(drv, wch, metrics@, q, k2)
                                    && new_v.last().1 == metrics@[q].1
                        }
                    } else {
                        self.best_interesting@[k2] == old_table[k2]
                    }) by {
                        if k2 == k {
                            assert(feeds_watch(drv, wch, metrics@, e as int, k as int));
                            assert(self.best_interesting@[k as int]@.drop_last() =~= pre_table[
                                k as int
                            ]@);
                        } else {
                            if exists|q: int|
                                q < e + 1 && #[trigger] feeds_watch(drv, wch, metrics@, q, k2) {
                                let q = choose|q: int|
                                    q < e + 1 && #[trigger] feeds_watch(drv, wch, metrics@, q, k2);
                                if q == e {
                                    assert(wch[k2].fuzzer_id@ == wch[k as int].fuzzer_id@);
                                    assert(false);
                                }
                                assert(exists|q: int|
                                    q < e && #[trigger] feeds_watch(drv, wch, metrics@, q, k2));
                            }
                        }
                    }
                    // Restore the watch invariant for the one grown vector.
                    assert forall|k2: int, e2: int|
                        0 <= k2 < self.watches@.len() && 0 <= e2
                            < self.best_interesting@[k2].len() implies batch_entry_wf(
                        #[trigger] self.best_interesting@[k2][e2],
                        self.watches@[k2].fuzzer_id@,
                        self.interesting_log@,
                        self.last_elapsed_millis,
                    ) by {
                        if k2 == k && e2 == self.best_interesting@[k2].len() - 1 {
                            assert(self.best_interesting@[k2][e2].0.fuzzer_id@
                                != self.watches@[k2].fuzzer_id@);
                        } else if k2 == k {
                            assert(self.best_interesting@[k2][e2] == pre_table[k2]@[e2]);
                        } else {
                            assert(self.best_interesting@[k2][e2] == pre_table[k2]@[e2]);
                        }
                    }
                }
            } else {
                proof {
                    assert forall|k2: int| 0 <= k2 < wch.len() implies !feeds_watch(
                        drv,
                        wch,
                        metrics@,
                        e as int,
                        k2,
                    ) by {
                        if feeds_watch(drv, wch, metrics@, e as int, k2) {
                            assert(slow_id_in(drv, wch[k2].fuzzer_id@));
                            let i = choose|i: int|
                                0 <= i < drv.len() && (#[trigger] drv[i]).fuzzer_type
                                    == FuzzerType::VUzzer && drv[i].fuzzer_id@
                                    == wch[k2].fuzzer_id@;
                            assert(drv[i].fuzzer_id@ == drv[di as int].fuzzer_id@);
                            assert(i == di);
                        }
                    }
                    assert forall|k2: int| #![trigger wch[k2]] 0 <= k2 < wch.len() implies ((
                    exists|q: int|
                        q < e + 1 && #[trigger] feeds_watch(drv, wch, metrics@, q, k2)) == (
                    exists|q: int|
                        q < e && #[trigger] feeds_watch(drv, wch, metrics@, q, k2))) by {
                        if exists|q: int|
                            q < e + 1 && #[trigger] feeds_watch(drv, wch, metrics@, q, k2) {
                            let q = choose|q: int|
                                q < e + 1 && #[trigger] feeds_watch(drv, wch, metrics@, q, k2);
                            if q < e {
                                assert(exists|q: int|
                                    q < e && #[trigger] feeds_watch(drv, wch, metrics@, q, k2));
                            }
                        }
                    }
                }
            }
            e = e + 1;
        }
    }

    /// Appends one record to the winning-log model: the source, the
    /// winners sorted, and the elapsed time; and returns the log line,
    /// newline included, for the edge to append to the winning log file.
    fn append_winning_record(
        &mut self,
        interesting_input: &InterestingInput,
        winners: &Vec<String>,
        elapsed_millis: u64,
    ) -> (line: String)
        requires
            old(self).wf(),
            elapsed_millis >= old(self).last_elapsed_millis,
            logged_by(
                old(self).interesting_log@,
                interesting_input.fuzzer_id@,
                old(self).last_elapsed_millis,
            ),
            forall|a: int, b: int|
                0 <= a < b < winners@.len() ==> (#[trigger] winners@[a])@
                    != (#[trigger] winners@[b])@,
            forall|a: int| 0 <= a < winners@.len() ==> (#[trigger] winners@[a])@
                != interesting_input.fuzzer_id@,
        ensures
            final(self).wf(),
            final(self).winning_log@.len() == old(self).winning_log@.len() + 1,
            final(self).winning_log@.drop_last() == old(self).winning_log@,
            ({
                let rec = final(self).winning_log@.last();
                &&& rec.elapsed_millis == elapsed_millis
                &&& rec.source@ == interesting_input.fuzzer_id@
                &&& sorted_lex(rec.winners@.map_values(|t: String| t@))
                &&& rec.winners@.map_values(|t: String| t@).to_multiset() == winners@.map_values(
                    |t: String| t@,
                ).to_multiset()
                &&& line@ == winning_line(
                    elapsed_millis as nat,
                    interesting_input.fuzzer_id@,
                    join_chars(rec.winners@.map_values(|t: String| t@), seq!['_']),
                )
            }),
            final(self).last_elapsed_millis == elapsed_millis,
            final(self).interesting_log == old(self).interesting_log,
            final(self).watches == old(self).watches,
            final(self).best_interesting == old(self).best_interesting,
            final(self).drivers == old(self).drivers,
            final(self).winning_strategy == old(self).winning_strategy,
            final(self).sut == old(self).sut,
            final(self).work_path == old(self).work_path,
    {
        proof {
            reveal_strlit("_");
            reveal_strlit("\n");
        }
        let sorted = sort_strings(winners);
        proof {
            let wv = winners@.map_values(|t: String| t@);
            let sv = sorted@.map_values(|t: String| t@);
            assert(wv.no_duplicates());
            wv.lemma_multiset_has_no_duplicates();
            wv.to_multiset_ensures();
            sv.to_multiset_ensures();
            sv.lemma_multiset_has_no_duplicates_conv();
            assert(sv.no_duplicates());
            assert forall|a: int| 0 <= a < sv.len() implies sv[a]
                != interesting_input.fuzzer_id@ by {
                assert(sv.contains(sv[a]));
                assert(wv.to_multiset().count(sv[a]) > 0);
                assert(wv.contains(sv[a]));
                let w = choose|w: int| 0 <= w < wv.len() && wv[w] == sv[a];
                assert(wv[w] == winners@[w]@);
            }
        }
        let mut line = u64_to_string(elapsed_millis);
        line.append(LOG_LINE_SEPARATOR);
        line.append(interesting_input.fuzzer_id.as_str());
        line.append(LOG_LINE_SEPARATOR);
        let joined = join_with(&sorted, "_");
        line.append(joined.as_str());
        line.append("\n");
        let rec = WinningRecord {
            elapsed_millis,
            source: interesting_input.fuzzer_id.clone(),
            winners: sorted,
        };
        self.winning_log.push(rec);
        self.last_elapsed_millis = elapsed_millis;
        proof {
            Master::lemma_watch_links_preserved(*old(self), *final(self));
            assert(final(self).winning_log@.drop_last() =~= old(self).winning_log@);
            let log = final(self).interesting_log@;
            let wlog = final(self).winning_log@;
            assert forall|w: int| 0 <= w < wlog.len() implies winning_record_wf(
                #[trigger] wlog[w],
                log,
            ) by {
                if w < wlog.len() - 1 {
                    assert(wlog[w] == old(self).winning_log@[w]);
                } else {
                    let newrec = wlog[w];
                    let sv = newrec.winners@.map_values(|t: String| t@);
                    assert forall|a: int, b: int|
                        0 <= a < b < newrec.winners@.len() implies (#[trigger] newrec.winners@[a])@
                        != (#[trigger] newrec.winners@[b])@ by {
                        assert(sv[a] == newrec.winners@[a]@);
                        assert(sv[b] == newrec.winners@[b]@);
                    }
                    assert forall|a: int| 0 <= a < newrec.winners@.len() implies (
                    #[trigger] newrec.winners@[a])@ != newrec.source@ by {
                        assert(sv[a] == newrec.winners@[a]@);
                    }
                    lemma_logged_by_extend(
                        log,
                        log,
                        newrec.source@,
                        old(self).last_elapsed_millis,
                        elapsed_millis,
                    );
                }
            }
            let bound = old(self).last_elapsed_millis;
            let table = final(self).best_interesting@;
            let watches = final(self).watches@;
            assert forall|k: int, e: int|
                0 <= k < watches.len() && 0 <= e < table[k].len() implies batch_entry_wf(
                #[trigger] table[k][e],
                watches[k].fuzzer_id@,
                log,
                final(self).last_elapsed_millis,
            ) by {
                lemma_logged_by_extend(log, log, table[k][e].0.fuzzer_id@, bound, elapsed_millis);
            }
            assert(("_")@ =~= seq!['_']);
            assert(("\n")@ =~= seq!['\n']);
            assert(joined@ == join_chars(
                final(self).winning_log@.last().winners@.map_values(|t: String| t@),
                seq!['_'],
            ));
            assert(line@ =~= winning_line(
                elapsed_millis as nat,
                interesting_input.fuzzer_id@,
                join_chars(final(self).winning_log@.last().winners@.map_values(|t: String| t@), seq!['_']),
            ));
        }
        line
    }

    /// Collects the winners for an input from a slow source: every peer
    /// whose reply is not zero, by identifier.
    fn broadcast_winners(&self, source_id: Ghost<Seq<char>>, metrics: &Vec<(usize, RepMetric)>)
        -> (winners: Vec<String>)
        requires
            self.wf(),
            metrics_wf(self.drivers@, metrics@, source_id@),
        ensures
            broadcast_winners_ok(self.drivers@, metrics@, winners@),
            forall|a: int, b: int|
                0 <= a < b < winners@.len() ==> (#[trigger] winners@[a])@
                    != (#[trigger] winners@[b])@,
            forall|a: int| 0 <= a < winners@.len() ==> (#[trigger] winners@[a])@ != source_id@,
    {
        let ghost drv = self.drivers@;
        let mut winners: Vec<String> = Vec::new();
        let mut e: usize = 0;
        while e < metrics.len()
            invariant
                0 <= e <= metrics@.len(),
                drv == self.drivers@,
                self.wf(),
                metrics_wf(drv, metrics@, source_id@),
                forall|q: int|
                    0 <= q < e ==> (id_in(
                        winners@,
                        drv[(#[trigger] metrics@[q]).0 as int].fuzzer_id@,
                    ) <==> !metrics@[q].1.metric.spec_is_zero()),
                broadcast_members(drv, metrics@, winners@, e as int),
                forall|a: int, b: int|
                    0 <= a < b < winners@.len() ==> (#[trigger] winners@[a])@
                        != (#[trigger] winners@[b])@,
                forall|a: int| 0 <= a < winners@.len() ==> (#[trigger] winners@[a])@ != source_id@,
            decreases metrics@.len() - e,
        {
            let (di, rep) = metrics[e];
            let ghost pre = winners@;
            if !rep.metric.is_zero() {
                let id = self.drivers[di].fuzzer_id.clone();
                winners.push(id);
                proof {
                    assert(winners@.last()@ == drv[di as int].fuzzer_id@);
                    // Membership: old winners keep their witnesses, the new
                    // one is named by reply `e`.
                    assert forall|a: int| 0 <= a < winners@.len() implies nonzero_named(
                        drv,
                        metrics@,
                        e + 1,
                        (#[trigger] winners@[a])@,
                    ) by {
                        if a < pre.len() {
                            assert(winners@[a] == pre[a]);
                            assert(nonzero_named(drv, metrics@, e as int, pre[a]@));
                            let q = choose|q: int|
                                0 <= q < e && !(#[trigger] metrics@[q]).1.metric.spec_is_zero()
                                    && drv[metrics@[q].0 as int].fuzzer_id@ == pre[a]@;
                            assert(0 <= q < e + 1 && !metrics@[q].1.metric.spec_is_zero() && drv[
                                metrics@[q].0 as int].fuzzer_id@ == winners@[a]@);
                        } else {
                            assert(0 <= e < e + 1 && !metrics@[e as int].1.metric.spec_is_zero()
                                && drv[metrics@[e as int].0 as int].fuzzer_id@ == winners@[a]@);
                        }
                    }
                    // Distinct: old winners are named by earlier replies,
                    // which name other drivers; identifiers are unique.
                    assert forall|a: int, b: int|
                        0 <= a < b < winners@.len() implies (#[trigger] winners@[a])@
                        != (#[trigger] winners@[b])@ by {
                        if b == winners@.len() - 1 {
                            assert(winners@[a] == pre[a]);
                            assert(nonzero_named(drv, metrics@, e as int, pre[a]@));
                            let q = choose|q: int|
                                0 <= q < e && !(#[trigger] metrics@[q]).1.metric.spec_is_zero()
                                    && drv[metrics@[q].0 as int].fuzzer_id@ == pre[a]@;
                            assert(metrics@[q].0 != metrics@[e as int].0);
                        } else {
                            assert(winners@[a] == pre[a]);
                            assert(winners@[b] == pre[b]);
                        }
                    }
                    // The id-membership mirror for every reply seen so far.
                    assert forall|q: int| 0 <= q < e + 1 implies (id_in(
                        winners@,
                        drv[(#[trigger] metrics@[q]).0 as int].fuzzer_id@,
                    ) <==> !metrics@[q].1.metric.spec_is_zero()) by {
                        if q < e {
                            if !metrics@[q].1.metric.spec_is_zero() {
                                let a = choose|a: int|
                                    0 <= a < pre.len() && (#[trigger] pre[a])@ == drv[metrics@[
                                        q
                                    ].0 as int].fuzzer_id@;
                                assert(winners@[a] == pre[a]);
                                assert(id_in(winners@, drv[metrics@[q].0 as int].fuzzer_id@));
                            } else {
                                if id_in(winners@, drv[metrics@[q].0 as int].fuzzer_id@) {
                                    let a = choose|a: int|
                                        0 <= a < winners@.len() && (#[trigger] winners@[a])@
                                            == drv[metrics@[q].0 as int].fuzzer_id@;
                                    if a < winners@.len() - 1 {
                                        assert(pre[a] == winners@[a]);
                                        assert(id_in(pre, drv[metrics@[q].0 as int].fuzzer_id@));
                                    } else {
                                        // The pushed identifier belongs to
                                        // reply `e`; replies name distinct
                                        // drivers with unique identifiers.
                                        assert(drv[metrics@[q].0 as int].fuzzer_id@ == drv[
                                            di as int].fuzzer_id@);
                                        assert(metrics@[q].0 == di);
                                    }
                                }
                            }
                        } else {
                            assert(winners@[winners@.len() - 1]@ == drv[metrics@[
                                q
                            ].0 as int].fuzzer_id@);
                        }
                    }
                }
            } else {
                proof {
                    assert forall|a: int| 0 <= a < winners@.len() implies nonzero_named(
                        drv,
                        metrics@,
                        e + 1,
                        (#[trigger] winners@[a])@,
                    ) by {
                        assert(nonzero_named(drv, metrics@, e as int, winners@[a]@));
                        let q = choose|q: int|
                            0 <= q < e && !(#[trigger] metrics@[q]).1.metric.spec_is_zero() && drv[
                                metrics@[q].0 as int].fuzzer_id@ == winners@[a]@;
                        assert(0 <= q < e + 1 && !metrics@[q].1.metric.spec_is_zero() && drv[
                            metrics@[q].0 as int].fuzzer_id@ == winners@[a]@);
                    }
                    assert forall|q: int| 0 <= q < e + 1 implies (id_in(
                        winners@,
                        drv[(#[trigger] metrics@[q]).0 as int].fuzzer_id@,
                    ) <==> !metrics@[q].1.metric.spec_is_zero()) by {
                        if q == e {
                            // The zero reply's identifier is not a winner:
                            // every winner is named by an earlier reply of
                            // another driver.
                            if id_in(winners@, drv[metrics@[q].0 as int].fuzzer_id@) {
                                let a = choose|a: int|
                                    0 <= a < winners@.len() && (#[trigger] winners@[a])@ == drv[
                                        metrics@[q].0 as int].fuzzer_id@;
                                assert(nonzero_named(drv, metrics@, e as int, winners@[a]@));
                                let q2 = choose|q2: int|
                                    0 <= q2 < e && !(#[trigger] metrics@[
                                        q2
                                    ]).1.metric.spec_is_zero() && drv[metrics@[
                                        q2
                                    ].0 as int].fuzzer_id@ == winners@[a]@;
                                assert(metrics@[q2].0 == metrics@[e as int].0);
                            }
                        }
                    }
                }
            }
            e = e + 1;
        }
        winners
    }

    /// Collects the winners for an input from a fast source: the slow
    /// drivers' replies are dropped and the configured strategy is applied
    /// to the rest.
    fn strategy_winners(&self, source_id: Ghost<Seq<char>>, metrics: &Vec<(usize, RepMetric)>)
        -> (winners: Vec<String>)
        requires
            self.wf(),
            metrics_wf(self.drivers@, metrics@, source_id@),
        ensures
            match self.winning_strategy {
                WinningStrategy::SingleWinner(highest) => single_winner_ok(
                    self.drivers@,
                    metrics@,
                    highest,
                    winners@,
                ),
                WinningStrategy::MultipleWinners(threshold, higher) => multiple_winners_ok(
                    self.drivers@,
                    metrics@,
                    threshold,
                    higher,
                    winners@,
                ),
            },
            forall|a: int, b: int|
                0 <= a < b < winners@.len() ==> (#[trigger] winners@[a])@
                    != (#[trigger] winners@[b])@,
            forall|a: int| 0 <= a < winners@.len() ==> (#[trigger] winners@[a])@ != source_id@,
    {
        let ghost drv = self.drivers@;
        // Drop the slow drivers' replies.
        let mut fast_metrics: Vec<(usize, RepMetric)> = Vec::new();
        let mut e: usize = 0;
        while e < metrics.len()
            invariant
                0 <= e <= metrics@.len(),
                drv == self.drivers@,
                self.wf(),
                metrics_wf(drv, metrics@, source_id@),
                fast_members(drv, metrics@, fast_metrics@, e as int),
                forall|q: int|
                    0 <= q < e && #[trigger] fast_entry(drv, metrics@, q) ==> fast_metrics@.contains(
                        metrics@[q],
                    ),
                forall|a1: int, a2: int|
                    0 <= a1 < a2 < fast_metrics@.len() ==> (#[trigger] fast_metrics@[a1]).0
                        != (#[trigger] fast_metrics@[a2]).0,
            decreases metrics@.len() - e,
        {
            let (di, _rep) = metrics[e];
            let ghost pre = fast_metrics@;
            if !self.drivers[di].is_vuzzer() {
                fast_metrics.push(metrics[e]);
                proof {
                    assert(fast_entry(drv, metrics@, e as int));
                    assert(fast_metrics@.last() == metrics@[e as int]);
                    assert forall|a: int| 0 <= a < fast_metrics@.len() implies fast_reply_at(
                        drv,
                        metrics@,
                        e + 1,
                        #[trigger] fast_metrics@[a],
                    ) by {
                        if a < pre.len() {
                            assert(fast_metrics@[a] == pre[a]);
                            assert(fast_reply_at(drv, metrics@, e as int, pre[a]));
                            let q = choose|q: int|
                                0 <= q < e && #[trigger] fast_entry(drv, metrics@, q) && metrics@[q]
                                    == pre[a];
                            assert(0 <= q < e + 1 && fast_entry(drv, metrics@, q) && metrics@[q]
                                == fast_metrics@[a]);
                        } else {
                            assert(0 <= e < e + 1 && fast_entry(drv, metrics@, e as int)
                                && metrics@[e as int] == fast_metrics@[a]);
                        }
                    }
                    assert forall|q: int|
                        0 <= q < e + 1 && #[trigger] fast_entry(drv, metrics@, q)
                            implies fast_metrics@.contains(metrics@[q]) by {
                        if q < e {
                            let a = choose|a: int| 0 <= a < pre.len() && pre[a] == metrics@[q];
                            assert(fast_metrics@[a] == metrics@[q]);
                        } else {
                            assert(fast_metrics@[fast_metrics@.len() - 1] == metrics@[q]);
                        }
                    }
                    assert forall|a1: int, a2: int|
                        0 <= a1 < a2 < fast_metrics@.len() implies (#[trigger] fast_metrics@[
                        a1]).0 != (#[trigger] fast_metrics@[a2]).0 by {
                        if a2 == fast_metrics@.len() - 1 {
                            assert(fast_reply_at(drv, metrics@, e as int, pre[a1]));
                            let q = choose|q: int|
                                0 <= q < e && #[trigger] fast_entry(drv, metrics@, q) && metrics@[q]
                                    == pre[a1];
                            assert(fast_metrics@[a1] == metrics@[q]);
                            assert(metrics@[q].0 != metrics@[e as int].0);
                        } else {
                            assert(fast_metrics@[a1] == pre[a1]);
                            assert(fast_metrics@[a2] == pre[a2]);
                        }
                    }
                }
            } else {
                proof {
                    assert(!fast_entry(drv, metrics@, e as int));
                    assert forall|a: int| 0 <= a < fast_metrics@.len() implies fast_reply_at(
                        drv,
                        metrics@,
                        e + 1,
                        #[trigger] fast_metrics@[a],
                    ) by {
                        assert(fast_reply_at(drv, metrics@, e as int, fast_metrics@[a]));
                        let q = choose|q: int|
                            0 <= q < e && #[trigger] fast_entry(drv, metrics@, q) && metrics@[q]
                                == fast_metrics@[a];
                        assert(0 <= q < e + 1 && fast_entry(drv, metrics@, q) && metrics@[q]
                            == fast_metrics@[a]);
                    }
                }
            }
            e = e + 1;
        }
        let ghost fast = fast_metrics@;
        let pairs = self.metric_winners(&fast_metrics);

        // Turn the winning replies into driver identifiers.
        let mut winners: Vec<String> = Vec::new();
        let mut p: usize = 0;
        while p < pairs.len()
            invariant
                0 <= p <= pairs@.len(),
                drv == self.drivers@,
                self.wf(),
                metrics_wf(drv, metrics@, source_id@),
                fast == fast_metrics@,
                fast_members(drv, metrics@, fast, metrics@.len() as int),
                forall|k: int| 0 <= k < pairs@.len() ==> fast.contains(#[trigger] pairs@[k]),
                forall|k1: int, k2: int|
                    0 <= k1 < k2 < pairs@.len() ==> (#[trigger] pairs@[k1]).0
                        != (#[trigger] pairs@[k2]).0,
                winners@.len() == p,
                forall|k: int|
                    0 <= k < p ==> pairs@[k].0 < drv.len() && (#[trigger] winners@[k])@ == drv[
                        pairs@[k].0 as int].fuzzer_id@,
            decreases pairs@.len() - p,
        {
            proof {
                assert(fast.contains(pairs@[p as int]));
                let a = choose|a: int| 0 <= a < fast.len() && fast[a] == pairs@[p as int];
                assert(fast_reply_at(drv, metrics@, metrics@.len() as int, fast[a]));
                let q = choose|q: int|
                    0 <= q < metrics@.len() && #[trigger] fast_entry(drv, metrics@, q)
                        && metrics@[q] == fast[a];
                assert(pairs@[p as int].0 < drv.len());
            }
            let (wi, _wm) = pairs[p];
            winners.push(self.drivers[wi].fuzzer_id.clone());
            p = p + 1;
        }

        proof {
            // Distinct identifiers: distinct reply indices, unique ids.
            assert forall|a: int, b: int|
                0 <= a < b < winners@.len() implies (#[trigger] winners@[a])@
                != (#[trigger] winners@[b])@ by {
                assert(pairs@[a].0 != pairs@[b].0);
                assert(fast.contains(pairs@[a]));
                let fa = choose|fa: int| 0 <= fa < fast.len() && fast[fa] == pairs@[a];
                assert(fast_reply_at(drv, metrics@, metrics@.len() as int, fast[fa]));
                let qa = choose|qa: int|
                    0 <= qa < metrics@.len() && #[trigger] fast_entry(drv, metrics@, qa)
                        && metrics@[qa] == fast[fa];
                assert(fast.contains(pairs@[b]));
                let fb = choose|fb: int| 0 <= fb < fast.len() && fast[fb] == pairs@[b];
                assert(fast_reply_at(drv, metrics@, metrics@.len() as int, fast[fb]));
                let qb = choose|qb: int|
                    0 <= qb < metrics@.len() && #[trigger] fast_entry(drv, metrics@, qb)
                        && metrics@[qb] == fast[fb];
                assert(pairs@[a].0 < drv.len() && pairs@[b].0 < drv.len());
            }
            // No winner is the source: replies are peers' replies.
            assert forall|a: int| 0 <= a < winners@.len() implies (#[trigger] winners@[a])@
                != source_id@ by {
                assert(fast.contains(pairs@[a]));
                let fa = choose|fa: int| 0 <= fa < fast.len() && fast[fa] == pairs@[a];
                assert(fast_reply_at(drv, metrics@, metrics@.len() as int, fast[fa]));
                let q = choose|q: int|
                    0 <= q < metrics@.len() && #[trigger] fast_entry(drv, metrics@, q)
                        && metrics@[q] == fast[fa];
                assert(drv[metrics@[q].0 as int].fuzzer_id@ != source_id@);
            }
            // A fast reply sits in the filtered list, and its identifier is
            // a winner exactly when its reply is a winning pair.
            assert forall|e2: int| #[trigger] fast_entry(drv, metrics@, e2) implies (id_in(
                winners@,
                drv[metrics@[e2].0 as int].fuzzer_id@,
            ) <==> pairs@.contains(metrics@[e2])) by {
                if pairs@.contains(metrics@[e2]) {
                    let k = choose|k: int| 0 <= k < pairs@.len() && pairs@[k] == metrics@[e2];
                    assert(winners@[k]@ == drv[metrics@[e2].0 as int].fuzzer_id@);
                    assert(id_in(winners@, drv[metrics@[e2].0 as int].fuzzer_id@));
                }
                if id_in(winners@, drv[metrics@[e2].0 as int].fuzzer_id@) {
                    let a = choose|a: int|
                        0 <= a < winners@.len() && (#[trigger] winners@[a])@ == drv[metrics@[
                            e2
                        ].0 as int].fuzzer_id@;
                    assert(fast.contains(pairs@[a]));
                    let fa = choose|fa: int| 0 <= fa < fast.len() && fast[fa] == pairs@[a];
                    assert(fast_reply_at(drv, metrics@, metrics@.len() as int, fast[fa]));
                    let q = choose|q: int|
                        0 <= q < metrics@.len() && #[trigger] fast_entry(drv, metrics@, q)
                            && metrics@[q] == fast[fa];
                    // Same identifier, so the same driver and the same
                    // reply: identifiers are unique and replies distinct.
                    assert(drv[metrics@[q].0 as int].fuzzer_id@ == drv[metrics@[
                        e2
                    ].0 as int].fuzzer_id@);
                    assert(metrics@[q].0 == metrics@[e2].0);
                    assert(q == e2);
                    assert(pairs@[a] == metrics@[e2]);
                    assert(pairs@.contains(metrics@[e2]));
                }
            }
            // Transfer the per-strategy facts from the filtered list.
            match self.winning_strategy {
                WinningStrategy::SingleWinner(highest) => {
                    assert((winners@.len() == 0) <==> all_zero_metrics(fast)) by {
                        if all_zero_metrics(fast) {
                        }
                        if winners@.len() == 0 {
                            assert forall|a: int| 0 <= a < fast.len() implies (
                            #[trigger] fast[a]).1.metric.spec_is_zero() by {
                                if !fast[a].1.metric.spec_is_zero() {
                                    assert(!all_zero_metrics(fast));
                                    assert(pairs@.len() == 1);
                                }
                            }
                        }
                    }
                    assert(((winners@.len() == 0) <==> (forall|e2: int|
                        fast_entry(drv, metrics@, e2) ==> (
                        #[trigger] metrics@[e2]).1.metric.spec_is_zero()))) by {
                        if winners@.len() == 0 {
                            assert forall|e2: int|
                                fast_entry(drv, metrics@, e2) implies (
                            #[trigger] metrics@[e2]).1.metric.spec_is_zero() by {
                                assert(fast.contains(metrics@[e2]));
                                let a = choose|a: int|
                                    0 <= a < fast.len() && fast[a] == metrics@[e2];
                                assert(fast[a].1.metric.spec_is_zero());
                            }
                        } else {
                            // The list is non-empty, so some fast reply is
                            // not zero.
                            assert(!all_zero_metrics(fast));
                            let a = choose|a: int|
                                0 <= a < fast.len() && !(#[trigger] fast[a]).1.metric.spec_is_zero();
                            assert(fast_reply_at(drv, metrics@, metrics@.len() as int, fast[a]));
                            let q = choose|q: int|
                                0 <= q < metrics@.len() && #[trigger] fast_entry(drv, metrics@, q)
                                    && metrics@[q] == fast[a];
                            assert(!metrics@[q].1.metric.spec_is_zero());
                        }
                    }
                    if winners.len() > 0 {
                        assert(single_winner_ok(drv, metrics@, highest, winners@)) by {
                            assert(pairs@.len() == 1);
                            let best = pairs@[0];
                            assert(fast.contains(best));
                            let fa = choose|fa: int| 0 <= fa < fast.len() && fast[fa] == best;
                            assert(fast_reply_at(drv, metrics@, metrics@.len() as int, fast[fa]));
                            let q = choose|q: int|
                                0 <= q < metrics@.len() && #[trigger] fast_entry(drv, metrics@, q)
                                    && metrics@[q] == fast[fa];
                            assert(drv[metrics@[q].0 as int].fuzzer_id@ == winners@[0]@);
                            assert forall|e2: int|
                                #[trigger] fast_entry(drv, metrics@, e2) implies (if highest {
                                metrics@[e2].1.metric.rank <= metrics@[q].1.metric.rank
                            } else {
                                metrics@[e2].1.metric.rank >= metrics@[q].1.metric.rank
                            }) by {
                                assert(fast.contains(metrics@[e2]));
                                let a2 = choose|a2: int|
                                    0 <= a2 < fast.len() && fast[a2] == metrics@[e2];
                                assert(fast[a2].1.metric.rank == metrics@[e2].1.metric.rank);
                            }
                            assert(fast_entry(drv, metrics@, q) && drv[metrics@[
                                q
                            ].0 as int].fuzzer_id@ == winners@[0]@);
                        }
                    }
                },
                WinningStrategy::MultipleWinners(threshold, higher) => {
                    assert forall|e2: int| #[trigger] fast_entry(drv, metrics@, e2) implies (id_in(
                        winners@,
                        drv[metrics@[e2].0 as int].fuzzer_id@,
                    ) <==> beats_threshold(metrics@[e2].1.metric, threshold, higher)) by {
                        assert(fast.contains(metrics@[e2]));
                        let a = choose|a: int| 0 <= a < fast.len() && fast[a] == metrics@[e2];
                        if beats_threshold(metrics@[e2].1.metric, threshold, higher) {
                            assert(beats_threshold(fast[a].1.metric, threshold, higher));
                            assert(pairs@.contains(fast[a]));
                        }
                        if pairs@.contains(metrics@[e2]) {
                            let k = choose|k: int|
                                0 <= k < pairs@.len() && pairs@[k] == metrics@[e2];
                            assert(beats_threshold(pairs@[k].1.metric, threshold, higher));
                        }
                    }
                    assert forall|a: int| 0 <= a < winners@.len() implies winning_fast_named(
                        drv,
                        metrics@,
                        threshold,
                        higher,
                        (#[trigger] winners@[a])@,
                    ) by {
                        assert(fast.contains(pairs@[a]));
                        let fa = choose|fa: int| 0 <= fa < fast.len() && fast[fa] == pairs@[a];
                        assert(fast_reply_at(drv, metrics@, metrics@.len() as int, fast[fa]));
                        let q = choose|q: int|
                            0 <= q < metrics@.len() && #[trigger] fast_entry(drv, metrics@, q)
                                && metrics@[q] == fast[fa];
                        assert(beats_threshold(pairs@[a].1.metric, threshold, higher));
                        assert(fast_entry(drv, metrics@, q) && beats_threshold(
                            metrics@[q].1.metric,
                            threshold,
                            higher,
                        ) && drv[metrics@[q].0 as int].fuzzer_id@ == winners@[a]@);
                    }
                },
            }
        }
        winners
    }

    /// Routes one freshly logged interesting input: accumulates it as a
    /// deferred-batch candidate for slow drivers with a non-zero reply,
    /// computes the winners (broadcast for a slow source, the configured
    /// strategy over the fast peers otherwise), and when somebody won,
    /// appends the winning-log record and returns the assignment to
    /// publish together with the log line to write.
    pub fn process_interesting(
        &mut self,
        interesting_input: InterestingInput,
        metrics: &Vec<(usize, RepMetric)>,
        elapsed_millis: u64,
    ) -> (outcome: ProcessOutcome)
        requires
            old(self).wf(),
            elapsed_millis >= old(self).last_elapsed_millis,
            logged_by(
                old(self).interesting_log@,
                interesting_input.fuzzer_id@,
                old(self).last_elapsed_millis,
            ),
            metrics_wf(old(self).drivers@, metrics@, interesting_input.fuzzer_id@),
            exists|si: int|
                0 <= si < old(self).drivers@.len() && (#[trigger] old(
                    self,
                ).drivers@[si]).fuzzer_id@ == interesting_input.fuzzer_id@,
        ensures
            final(self).wf(),
            final(self).interesting_log == old(self).interesting_log,
            final(self).watches == old(self).watches,
            final(self).drivers == old(self).drivers,
            final(self).winning_strategy == old(self).winning_strategy,
            final(self).sut == old(self).sut,
            final(self).work_path == old(self).work_path,
            final(self).best_interesting@.len() == old(self).best_interesting@.len(),
            forall|k: int|
                0 <= k < final(self).watches@.len() ==> if exists|q: int|
                    #[trigger] feeds_watch(old(self).drivers@, old(self).watches@, metrics@, q, k) {
                    {
                        let old_v = old(self).best_interesting@[k]@;
                        let new_v = (#[trigger] final(self).best_interesting@[k])@;
                        &&& new_v.len() == old_v.len() + 1
                        &&& new_v.drop_last() == old_v
                        &&& new_v.last().0.fuzzer_id@ == interesting_input.fuzzer_id@
                        &&& new_v.last().0.input_path@ == interesting_input.input_path@
                        &&& new_v.last().0.coverage_path@ == interesting_input.coverage_path@
                        &&& exists|q: int|
                            #[trigger] feeds_watch(old(self).drivers@, old(self).watches@, metrics@, q, k)
                                && new_v.last().1 == metrics@[q].1
                    }
                } else {
                    final(self).best_interesting@[k] == old(self).best_interesting@[k]
                },
            slow_id_in(old(self).drivers@, interesting_input.fuzzer_id@)
                ==> broadcast_winners_ok(old(self).drivers@, metrics@, outcome.winners@),
            !slow_id_in(old(self).drivers@, interesting_input.fuzzer_id@) ==> match old(
                self,
            ).winning_strategy {
                WinningStrategy::SingleWinner(highest) => single_winner_ok(
                    old(self).drivers@,
                    metrics@,
                    highest,
                    outcome.winners@,
                ),
                WinningStrategy::MultipleWinners(threshold, higher) => multiple_winners_ok(
                    old(self).drivers@,
                    metrics@,
                    threshold,
                    higher,
                    outcome.winners@,
                ),
            },
            forall|a: int, b: int|
                0 <= a < b < outcome.winners@.len() ==> (#[trigger] outcome.winners@[a])@
                    != (#[trigger] outcome.winners@[b])@,
            forall|a: int|
                0 <= a < outcome.winners@.len() ==> (#[trigger] outcome.winners@[a])@
                    != interesting_input.fuzzer_id@,
            outcome.winners@.len() == 0 ==> {
                &&& final(self).winning_log == old(self).winning_log
                &&& outcome.use_input is None
                &&& outcome.winning_line is None
                &&& final(self).last_elapsed_millis == old(self).last_elapsed_millis
            },
            outcome.winners@.len() > 0 ==> {
                &&& final(self).winning_log@.len() == old(self).winning_log@.len() + 1
                &&& final(self).winning_log@.drop_last() == old(self).winning_log@
                &&& final(self).last_elapsed_millis == elapsed_millis
                &&& ({
                    let rec = final(self).winning_log@.last();
                    &&& rec.elapsed_millis == elapsed_millis
                    &&& rec.source@ == interesting_input.fuzzer_id@
                    &&& sorted_lex(rec.winners@.map_values(|t: String| t@))
                    &&& rec.winners@.map_values(|t: String| t@).to_multiset()
                        == outcome.winners@.map_values(|t: String| t@).to_multiset()
                })
                &&& match outcome.use_input {
                    Some(u) => {
                        &&& u.fuzzer_ids@.map_values(|t: String| t@) == outcome.winners@.map_values(
                            |t: String| t@,
                        )
                        &&& u.input_path@ == interesting_input.input_path@
                        &&& u.coverage_path@ == interesting_input.coverage_path@
                    },
                    None => false,
                }
                &&& match outcome.winning_line {
                    Some(l) => l@ == winning_line(
                        elapsed_millis as nat,
                        interesting_input.fuzzer_id@,
                        join_chars(
                            final(self).winning_log@.last().winners@.map_values(|t: String| t@),
                            seq!['_'],
                        ),
                    ),
                    None => false,
                }
            },
    {
        let src_idx = self.find_driver_index(interesting_input.fuzzer_id.as_str());
        self.record_batch_candidates(&interesting_input, metrics);
        let winners: Vec<String> = if self.drivers[src_idx].is_vuzzer() {
            proof {
                assert(slow_id_in(self.drivers@, interesting_input.fuzzer_id@)) by {
                    assert(0 <= src_idx < self.drivers@.len() && self.drivers@[
                        src_idx as int].fuzzer_type == FuzzerType::VUzzer && self.drivers@[
                        src_idx as int].fuzzer_id@ == interesting_input.fuzzer_id@);
                }
            }
            self.broadcast_winners(Ghost(interesting_input.fuzzer_id@), metrics)
        } else {
            proof {
                // The source driver is unique by identifier, so no slow
                // driver carries the source identifier either.
                if slow_id_in(self.drivers@, interesting_input.fuzzer_id@) {
                    let i = choose|i: int|
                        0 <= i < self.drivers@.len() && (#[trigger] self.drivers@[i]).fuzzer_type
                            == FuzzerType::VUzzer && self.drivers@[i].fuzzer_id@
                            == interesting_input.fuzzer_id@;
                    assert(i == src_idx);
                }
            }
            self.strategy_winners(Ghost(interesting_input.fuzzer_id@), metrics)
        };
        if winners.len() == 0 {
            ProcessOutcome { winners, use_input: None, winning_line: None }
        } else {
            let u = interesting_input.use_for(winners.as_slice());
            let line = self.append_winning_record(&interesting_input, &winners, elapsed_millis);
            ProcessOutcome { winners, use_input: Some(u), winning_line: Some(line) }
        }
    }

    /// When the slow driver watched by `watch_index` is ready and has
    /// accumulated candidates, hands it the best one: the candidate with
    /// the extremal metric is chosen, a winning-log record targeting this
    /// driver alone is appended, the vector is cleared and the ready flag
    /// disarmed. Returns the assignment to publish and the log line to
    /// write; nothing happens while the driver is not ready or nothing
    /// accumulated.
    pub fn dispatch_ready(&mut self, watch_index: usize, elapsed_millis: u64) -> (r: Option<
        (UseInput, String),
    >)
        requires
            old(self).wf(),
            watch_index < old(self).watches@.len(),
            elapsed_millis >= old(self).last_elapsed_millis,
        ensures
            final(self).wf(),
            ({
                let w = old(self).watches@[watch_index as int];
                let v = old(self).best_interesting@[watch_index as int]@;
                let high = match old(self).winning_strategy {
                    WinningStrategy::SingleWinner(highest) => highest,
                    WinningStrategy::MultipleWinners(_, higher) => higher,
                };
                if w.ready && v.len() > 0 {
                    &&& final(self).interesting_log == old(self).interesting_log
                    &&& final(self).drivers == old(self).drivers
                    &&& final(self).winning_strategy == old(self).winning_strategy
                    &&& final(self).sut == old(self).sut
                    &&& final(self).work_path == old(self).work_path
                    &&& final(self).watches@.len() == old(self).watches@.len()
                    &&& final(self).best_interesting@.len() == old(self).best_interesting@.len()
                    &&& final(self).watches@[watch_index as int].ready == false
                    &&& final(self).watches@[watch_index as int].modified == w.modified
                    &&& final(self).watches@[watch_index as int].fuzzer_id@ == w.fuzzer_id@
                    &&& forall|k: int|
                        0 <= k < old(self).watches@.len() && k != watch_index ==> (
                        #[trigger] final(self).watches@[k]) == old(self).watches@[k]
                    &&& final(self).best_interesting@[watch_index as int]@.len() == 0
                    &&& forall|k: int|
                        0 <= k < old(self).best_interesting@.len() && k != watch_index ==> (
                        #[trigger] final(self).best_interesting@[k]) == old(
                            self,
                        ).best_interesting@[k]
                    &&& final(self).winning_log@.len() == old(self).winning_log@.len() + 1
                    &&& final(self).winning_log@.drop_last() == old(self).winning_log@
                    &&& final(self).last_elapsed_millis == elapsed_millis
                    &&& exists|c: int|
                        0 <= c < v.len() && {
                            let entry = #[trigger] v[c];
                            let rec = final(self).winning_log@.last();
                            &&& rec.elapsed_millis == elapsed_millis
                            &&& rec.source@ == entry.0.fuzzer_id@
                            &&& rec.winners@.len() == 1
                            &&& rec.winners@[0]@ == w.fuzzer_id@
                            &&& (high ==> forall|c2: int|
                                0 <= c2 < v.len() ==> (#[trigger] v[c2]).1.metric.rank
                                    <= entry.1.metric.rank)
                            &&& (!high ==> forall|c2: int|
                                0 <= c2 < v.len() ==> (#[trigger] v[c2]).1.metric.rank
                                    >= entry.1.metric.rank)
                            &&& match r {
                                Some((u, l)) => {
                                    &&& u.fuzzer_ids@.len() == 1
                                    &&& u.fuzzer_ids@[0]@ == w.fuzzer_id@
                                    &&& u.input_path@ == entry.0.input_path@
                                    &&& u.coverage_path@ == entry.0.coverage_path@
                                    &&& l@ == winning_line(
                                        elapsed_millis as nat,
                                        entry.0.fuzzer_id@,
                                        join_chars(
                                            final(self).winning_log@.last().winners@.map_values(
                                                |t: String| t@,
                                            ),
                                            seq!['_'],
                                        ),
                                    )
                                },
                                None => false,
                            }
                        }
                } else {
                    &&& r is None
                    &&& final(self).interesting_log == old(self).interesting_log
                    &&& final(self).winning_log == old(self).winning_log
                    &&& final(self).watches == old(self).watches
                    &&& final(self).best_interesting@ == old(self).best_interesting@
                    &&& final(self).drivers == old(self).drivers
                    &&& final(self).winning_strategy == old(self).winning_strategy
                    &&& final(self).sut == old(self).sut
                    &&& final(self).work_path == old(self).work_path
                    &&& final(self).last_elapsed_millis == old(self).last_elapsed_millis
                }
            }),
    {
        if !self.watches[watch_index].ready {
            return None;
        }
        let ghost pre_table = self.best_interesting@;
        let mut vec_k = self.best_interesting.remove(watch_index);
        if vec_k.len() == 0 {
            self.best_interesting.insert(watch_index, vec_k);
            proof {
                assert(self.best_interesting@ =~= pre_table);
            }
            return None;
        }
        let high = self.get_high_strategy();
        let ghost v = vec_k@;

        // The candidate with the extremal metric wins the batch.
        let mut b: usize = 0;
        let mut c: usize = 1;
        while c < vec_k.len()
            invariant
                0 <= b < c <= vec_k@.len(),
                v == vec_k@,
                forall|k: int|
                    0 <= k < c ==> (if high {
                        (#[trigger] v[k]).1.metric.rank <= v[b as int].1.metric.rank
                    } else {
                        (#[trigger] v[k]).1.metric.rank >= v[b as int].1.metric.rank
                    }),
            decreases vec_k@.len() - c,
        {
            let challenger = vec_k[c].1.metric.rank;
            let incumbent = vec_k[b].1.metric.rank;
            if (high && challenger > incumbent) || (!high && challenger < incumbent) {
                b = c;
            }
            c = c + 1;
        }
        let chosen = vec_k.remove(b);
        proof {
            assert(chosen == v[b as int]);
        }
        self.best_interesting.insert(watch_index, Vec::new());
        let slow_id = self.watches[watch_index].fuzzer_id.clone();
        let ghost mid = *self;
        proof {
            // The table now carries an empty vector for this watch; every
            // other vector and every other part of the state is unchanged,
            // so the invariant still holds.
            assert(mid.best_interesting@ =~= pre_table.update(
                watch_index as int,
                mid.best_interesting@[watch_index as int],
            ));
            assert(mid.best_interesting@[watch_index as int]@.len() == 0);
            assert forall|k2: int, e2: int|
                0 <= k2 < mid.watches@.len() && 0 <= e2
                    < mid.best_interesting@[k2].len() implies batch_entry_wf(
                #[trigger] mid.best_interesting@[k2][e2],
                mid.watches@[k2].fuzzer_id@,
                mid.interesting_log@,
                mid.last_elapsed_millis,
            ) by {
                assert(mid.best_interesting@[k2] == pre_table[k2]);
            }
            assert(mid.wf());
            // The chosen candidate is sound: logged in time, not from this
            // slow driver.
            assert(batch_entry_wf(
                chosen,
                old(self).watches@[watch_index as int].fuzzer_id@,
                old(self).interesting_log@,
                old(self).last_elapsed_millis,
            ));
        }
        let mut target: Vec<String> = Vec::new();
        target.push(slow_id);
        let u = chosen.0.use_for(target.as_slice());
        proof {
            assert(target@[0]@ == old(self).watches@[watch_index as int].fuzzer_id@);
            assert(target@.map_values(|t: String| t@).len() == 1);
            assert(u.fuzzer_ids@.map_values(|t: String| t@).len() == 1);
            assert(u.fuzzer_ids@.len() == 1);
            assert(u.fuzzer_ids@.map_values(|t: String| t@)[0] == u.fuzzer_ids@[0]@);
            assert(target@.map_values(|t: String| t@)[0] == target@[0]@);
        }
        let line = self.append_winning_record(&chosen.0, &target, elapsed_millis);

        // Disarm the ready flag; the batch was handed over.
        let entry = &self.watches[watch_index];
        let new_watch = WatchDescriptorData {
            fuzzer_id: entry.fuzzer_id.clone(),
            modified: entry.modified,
            ready: false,
        };
        let ghost pre_watch = *self;
        self.watches.set(watch_index, new_watch);
        proof {
            let fw = final(self).watches@;
            assert forall|k: int| 0 <= k < fw.len() implies (#[trigger] fw[k]).fuzzer_id@
                == pre_watch.watches@[k].fuzzer_id@ by {}
            Master::lemma_watch_links_preserved(pre_watch, *final(self));
            assert(final(self).wf());
            assert(final(self).winning_log@.last().winners@[0]@ == old(self).watches@[
                watch_index as int].fuzzer_id@) by {
                let rec = final(self).winning_log@.last();
                let sv = rec.winners@.map_values(|t: String| t@);
                let tv = target@.map_values(|t: String| t@);
                sv.to_multiset_ensures();
                tv.to_multiset_ensures();
                assert(tv.len() == 1);
                assert(sv.to_multiset().len() == sv.len());
                assert(tv.to_multiset().len() == tv.len());
                assert(sv.len() == 1);
                assert(sv.contains(sv[0]));
                assert(sv.to_multiset().count(sv[0]) > 0);
                assert(tv.to_multiset().count(sv[0]) > 0);
                assert(tv.contains(sv[0]));
                let ti = choose|ti: int| 0 <= ti < tv.len() && tv[ti] == sv[0];
                assert(ti == 0);
                assert(tv[0] == target@[0]@);
                assert(sv[0] == rec.winners@[0]@);
            }
            assert(final(self).winning_log@.last().winners@.len() == 1) by {
                let rec = final(self).winning_log@.last();
                let sv = rec.winners@.map_values(|t: String| t@);
                let tv = target@.map_values(|t: String| t@);
                sv.to_multiset_ensures();
                tv.to_multiset_ensures();
                assert(sv.to_multiset().len() == sv.len());
                assert(tv.to_multiset().len() == tv.len());
                assert(sv.len() == rec.winners@.len());
            }
            // The chosen candidate is the witness for the record's shape.
            assert(chosen == old(self).best_interesting@[watch_index as int]@[b as int]);
        }
        Some((u, line))
    }

    /// Applies the configured strategy to the peers' replies, returning
    /// the winning peers with their replies.
    pub fn metric_winners(&self, metrics: &Vec<(usize, RepMetric)>) -> (r: Vec<
        (usize, RepMetric),
    >)
        requires
            forall|e1: int, e2: int|
                0 <= e1 < e2 < metrics@.len() ==> (#[trigger] metrics@[e1]).0
                    != (#[trigger] metrics@[e2]).0,
        ensures
            forall|k: int| 0 <= k < r@.len() ==> metrics@.contains(#[trigger] r@[k]),
            forall|k1: int, k2: int|
                0 <= k1 < k2 < r@.len() ==> (#[trigger] r@[k1]).0 != (#[trigger] r@[k2]).0,
            match self.winning_strategy {
                WinningStrategy::SingleWinner(highest) => {
                    &&& (r@.len() == 0 <==> all_zero_metrics(metrics@))
                    &&& r@.len() <= 1
                    &&& forall|k: int, e: int|
                        0 <= k < r@.len() && 0 <= e < metrics@.len() ==> (if highest {
                            (#[trigger] metrics@[e]).1.metric.rank
                                <= (#[trigger] r@[k]).1.metric.rank
                        } else {
                            (#[trigger] metrics@[e]).1.metric.rank
                                >= (#[trigger] r@[k]).1.metric.rank
                        })
                },
                WinningStrategy::MultipleWinners(threshold, higher) => {
                    &&& forall|k: int|
                        0 <= k < r@.len() ==> beats_threshold(
                            (#[trigger] r@[k]).1.metric,
                            threshold,
                            higher,
                        )
                    &&& forall|e: int|
                        0 <= e < metrics@.len() && beats_threshold(
                            (#[trigger] metrics@[e]).1.metric,
                            threshold,
                            higher,
                        ) ==> r@.contains(metrics@[e])
                },
            },
    {
        match self.winning_strategy {
            WinningStrategy::SingleWinner(highest) => {
                match Master::metric_single_winner(metrics, highest) {
                    Some(best) => {
                        let mut r: Vec<(usize, RepMetric)> = Vec::new();
                        r.push(best);
                        r
                    },
                    None => Vec::new(),
                }
            },
            WinningStrategy::MultipleWinners(threshold, higher) => {
                Master::metric_multiple_winners(metrics, threshold, higher)
            },
        }
    }
}

/// Law: every winning-log record has an earlier inputs-log record of
/// the same source, with an elapsed time at most the record's own.
pub proof fn lemma_winning_has_earlier_input(m: Master, w: int)
    requires
        m.wf(),
        0 <= w < m.winning_log@.len(),
    ensures
        logged_by(m.interesting_log@, m.winning_log@[w].source@, m.winning_log@[w].elapsed_millis),
{
}

/// Law: the winner identifiers of a winning-log record are pairwise
/// distinct, and none of them is the record's source: a driver never
/// wins its own input.
pub proof fn lemma_winners_distinct_and_not_source(m: Master, w: int, a: int, b: int)
    requires
        m.wf(),
        0 <= w < m.winning_log@.len(),
        0 <= a < m.winning_log@[w].winners@.len(),
        0 <= b < m.winning_log@[w].winners@.len(),
        a != b,
    ensures
        m.winning_log@[w].winners@[a]@ != m.winning_log@[w].winners@[b]@,
        m.winning_log@[w].winners@[a]@ != m.winning_log@[w].source@,
{
    let rec = m.winning_log@[w];
    if a < b {
        assert(rec.winners@[a]@ != rec.winners@[b]@);
    } else {
        assert(rec.winners@[b]@ != rec.winners@[a]@);
    }
}

/// Law: a slow driver's watch is armed only after its stats file was
/// seen modified at least twice.
pub proof fn lemma_ready_needs_two_modifications(m: Master, k: int)
    requires
        m.wf(),
        0 <= k < m.watches@.len(),
        m.watches@[k].ready,
    ensures
        m.watches@[k].modified >= 2,
{
}

/// Law: the inputs log is ordered by arrival, with non-decreasing
/// elapsed times.
pub proof fn lemma_inputs_log_monotone(m: Master, j1: int, j2: int)
    requires
        m.wf(),
        0 <= j1 <= j2 < m.interesting_log@.len(),
    ensures
        m.interesting_log@[j1].elapsed_millis <= m.interesting_log@[j2].elapsed_millis,
{
}

} // verus!
