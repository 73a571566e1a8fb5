//! Per-driver descriptor: variant tag, derived file paths, port numbers
//! and the command line that launches the external driver process.

use crate::master::{INTERESTING_PORT, USE_PORT};
use crate::strutil::{dec_digits, u64_to_string};
use vstd::prelude::*;
use vstd::string::*;

verus! {

/// Path of the external driver executable, relative to the master's
/// working directory.
pub const DRIVER_EXE: &'static str = "./driver/driver";

/// The three driver variants: a forking-mutational fuzzer, an
/// in-memory-mutational fuzzer, and a taint-guided filesystem-polling
/// fuzzer. The tag fixes the relative corpus and inject paths and whether
/// the driver takes part in the slow-driver throttling regime.
#[derive(Debug, Clone, Copy, PartialEq, Eq, Structural)]
pub enum FuzzerType {
    AFL,
    Honggfuzz,
    VUzzer,
}

impl FuzzerType {
    /// The token naming this variant in configuration file names.
    pub open spec fn spec_name(self) -> Seq<char> {
        match self {
            FuzzerType::AFL => "afl"@,
            FuzzerType::Honggfuzz => "hongg"@,
            FuzzerType::VUzzer => "vu"@,
        }
    }

    /// The inject directory, relative to the driver's working directory.
    pub open spec fn spec_inject_path(self) -> Seq<char> {
        match self {
            FuzzerType::AFL => "out/inject/queue"@,
            FuzzerType::Honggfuzz => "out/inject"@,
            FuzzerType::VUzzer => "special"@,
        }
    }

    /// The corpus directory, relative to the driver's working directory.
    pub open spec fn spec_corpus_path(self, fuzzer_id: Seq<char>) -> Seq<char> {
        match self {
            FuzzerType::AFL => "out/"@ + fuzzer_id + "/queue"@,
            FuzzerType::Honggfuzz => "in"@,
            FuzzerType::VUzzer => "special"@,
        }
    }

    pub fn get_inject_path(&self) -> (r: &'static str)
        ensures
            r@ == self.spec_inject_path(),
    {
        match self {
            FuzzerType::AFL => "out/inject/queue",
            FuzzerType::Honggfuzz => "out/inject",
            FuzzerType::VUzzer => "special",
        }
    }

    /// Parses a variant token, failing on anything else.
    pub fn from_str(s: &str) -> (r: Result<FuzzerType, String>)
        ensures
            match r {
                Ok(t) => s@ == t.spec_name(),
                Err(_) => s@ != "afl"@ && s@ != "hongg"@ && s@ != "vu"@,
            },
    {
        if crate::strutil::str_eq(s, "afl") {
            Ok(FuzzerType::AFL)
        } else if crate::strutil::str_eq(s, "hongg") {
            Ok(FuzzerType::Honggfuzz)
        } else if crate::strutil::str_eq(s, "vu") {
            Ok(FuzzerType::VUzzer)
        } else {
            let mut e = String::new();
            e.append("unable to parse ");
            e.append(s);
            Err(e)
        }
    }

    /// The variant token, as an owned string.
    pub fn to_string(&self) -> (r: String)
        ensures
            r@ == self.spec_name(),
    {
        match self {
            FuzzerType::AFL => String::from_str("afl"),
            FuzzerType::Honggfuzz => String::from_str("hongg"),
            FuzzerType::VUzzer => String::from_str("vu"),
        }
    }
}

/// The `<interesting>,<use>,<metric>` port list handed to the driver.
pub open spec fn ports_chars(interesting: u32, use_port: u32, metric: u32) -> Seq<char> {
    dec_digits(interesting as nat) + seq![','] + dec_digits(use_port as nat) + seq![',']
        + dec_digits(metric as nat)
}

/// Descriptor of one driver: identity, variant, derived paths, ports and
/// the system-under-test command. Immutable after construction.
#[derive(Debug)]
pub struct Driver {
    pub fuzzer_id: String,
    pub fuzzer_type: FuzzerType,
    pub section_name: Option<String>,
    pub fuzzer_cmd_filename: String,
    pub basic_block_script: Option<String>,
    pub fuzzer_corpus_path: String,
    pub fuzzer_log_filename: String,
    pub fuzzer_log_err_filename: String,
    pub interesting_port: u32,
    pub use_port: u32,
    pub metric_port: u32,
    pub data_path: String,
    pub inject_path: String,
    pub sut: Vec<String>,
    pub sut_input_file: Option<String>,
    pub log_filename: String,
}

/// `<work>/<id>` followed by `tail`.
pub open spec fn driver_path(work: Seq<char>, id: Seq<char>, tail: Seq<char>) -> Seq<char> {
    work + "/"@ + id + tail
}

impl Driver {
    /// Whether the derived fields follow from identity, variant, ports and
    /// working directory as the construction rules fix them.
    pub open spec fn wf(self, work_path: Seq<char>) -> bool {
        &&& self.fuzzer_cmd_filename@ == driver_path(
            work_path,
            self.fuzzer_id@,
            "."@ + self.fuzzer_type.spec_name() + ".conf"@,
        )
        &&& self.fuzzer_corpus_path@ == driver_path(
            work_path,
            self.fuzzer_id@,
            "/"@ + self.fuzzer_type.spec_corpus_path(self.fuzzer_id@),
        )
        &&& self.fuzzer_log_filename@ == driver_path(work_path, self.fuzzer_id@, ".fuzz.log"@)
        &&& self.fuzzer_log_err_filename@ == driver_path(
            work_path,
            self.fuzzer_id@,
            ".fuzz.err.log"@,
        )
        &&& self.data_path@ == driver_path(work_path, self.fuzzer_id@, "/driver"@)
        &&& self.inject_path@ == driver_path(
            work_path,
            self.fuzzer_id@,
            "/"@ + self.fuzzer_type.spec_inject_path(),
        )
        &&& self.log_filename@ == driver_path(work_path, self.fuzzer_id@, ".log"@)
    }

    /// Builds a driver with the shared default ports.
    pub fn with_defaults(
        fuzzer_id: String,
        fuzzer_type: FuzzerType,
        sut: Vec<String>,
        sut_input_file: Option<String>,
        metric_port: u32,
        work_path: String,
        basic_block_script: Option<String>,
        section_name: Option<String>,
    ) -> (d: Driver)
        ensures
            d.wf(work_path@),
            d.fuzzer_id@ == fuzzer_id@,
            d.fuzzer_type == fuzzer_type,
            d.metric_port == metric_port,
            d.interesting_port == INTERESTING_PORT,
            d.use_port == USE_PORT,
            d.sut@.map_values(|t: String| t@) == sut@.map_values(|t: String| t@),
            d.sut_input_file == sut_input_file,
            d.basic_block_script == basic_block_script,
            d.section_name == section_name,
    {
        Driver::new(
            fuzzer_id,
            fuzzer_type,
            sut,
            sut_input_file,
            metric_port,
            work_path,
            basic_block_script,
            section_name,
            None,
            None,
        )
    }

    /// Builds a driver, deriving every path from the working directory,
    /// the identifier and the variant as the construction rules fix them.
    pub fn new(
        fuzzer_id: String,
        fuzzer_type: FuzzerType,
        sut: Vec<String>,
        sut_input_file: Option<String>,
        metric_port: u32,
        work_path: String,
        basic_block_script: Option<String>,
        section_name: Option<String>,
        interesting_port: Option<u32>,
        use_port: Option<u32>,
    ) -> (d: Driver)
        ensures
            d.wf(work_path@),
            d.fuzzer_id@ == fuzzer_id@,
            d.fuzzer_type == fuzzer_type,
            d.metric_port == metric_port,
            d.interesting_port == interesting_port.unwrap_or(INTERESTING_PORT),
            d.use_port == use_port.unwrap_or(USE_PORT),
            d.sut@.map_values(|t: String| t@) == sut@.map_values(|t: String| t@),
            d.sut_input_file == sut_input_file,
            d.basic_block_script == basic_block_script,
            d.section_name == section_name,
    {
        proof {
            reveal_strlit("/");
            reveal_strlit(".");
            reveal_strlit(".conf");
            reveal_strlit("out/");
            reveal_strlit("/queue");
            reveal_strlit("in");
            reveal_strlit("special");
            reveal_strlit(".fuzz.log");
            reveal_strlit(".fuzz.err.log");
            reveal_strlit("/driver");
            reveal_strlit(".log");
        }
        let corpus_path: String = match fuzzer_type {
            FuzzerType::AFL => {
                let mut c = String::from_str("out/");
                c.append(fuzzer_id.as_str());
                c.append("/queue");
                c
            },
            FuzzerType::Honggfuzz => String::from_str("in"),
            FuzzerType::VUzzer => String::from_str("special"),
        };
        let inject_path = fuzzer_type.get_inject_path();

        let mut base = work_path.clone();
        base.append("/");
        base.append(fuzzer_id.as_str());

        let mut fuzzer_cmd_filename = base.clone();
        // The configuration file sits beside the working directory entry:
        // `<work>/<id>.<variant>.conf`.
        fuzzer_cmd_filename.append(".");
        let variant_name = fuzzer_type.to_string();
        fuzzer_cmd_filename.append(variant_name.as_str());
        fuzzer_cmd_filename.append(".conf");

        let mut fuzzer_corpus_path = base.clone();
        fuzzer_corpus_path.append("/");
        fuzzer_corpus_path.append(corpus_path.as_str());

        let mut fuzzer_log_filename = base.clone();
        fuzzer_log_filename.append(".fuzz.log");

        let mut fuzzer_log_err_filename = base.clone();
        fuzzer_log_err_filename.append(".fuzz.err.log");

        let mut data_path = base.clone();
        data_path.append("/driver");

        let mut full_inject_path = base.clone();
        full_inject_path.append("/");
        full_inject_path.append(inject_path);

        let mut log_filename = base.clone();
        log_filename.append(".log");

        proof {
            assert(fuzzer_cmd_filename@ =~= driver_path(
                work_path@,
                fuzzer_id@,
                "."@ + fuzzer_type.spec_name() + ".conf"@,
            ));
            assert(corpus_path@ =~= fuzzer_type.spec_corpus_path(fuzzer_id@));
            assert(fuzzer_corpus_path@ =~= driver_path(
                work_path@,
                fuzzer_id@,
                "/"@ + fuzzer_type.spec_corpus_path(fuzzer_id@),
            ));
            assert(fuzzer_log_filename@ =~= driver_path(work_path@, fuzzer_id@, ".fuzz.log"@));
            assert(fuzzer_log_err_filename@ =~= driver_path(
                work_path@,
                fuzzer_id@,
                ".fuzz.err.log"@,
            ));
            assert(data_path@ =~= driver_path(work_path@, fuzzer_id@, "/driver"@));
            assert(full_inject_path@ =~= driver_path(
                work_path@,
                fuzzer_id@,
                "/"@ + fuzzer_type.spec_inject_path(),
            ));
            assert(log_filename@ =~= driver_path(work_path@, fuzzer_id@, ".log"@));
        }

        Driver {
            fuzzer_id,
            fuzzer_type,
            section_name,
            fuzzer_cmd_filename,
            basic_block_script,
            fuzzer_corpus_path,
            fuzzer_log_filename,
            fuzzer_log_err_filename,
            interesting_port: interesting_port.unwrap_or(INTERESTING_PORT),
            use_port: use_port.unwrap_or(USE_PORT),
            metric_port,
            data_path,
            inject_path: full_inject_path,
            sut,
            sut_input_file,
            log_filename,
        }
    }

    pub fn get_metric_port(&self) -> (r: u32)
        ensures
            r == self.metric_port,
    {
        self.metric_port
    }

    /// Whether this driver is of the slow, filesystem-polling variant.
    pub fn is_vuzzer(&self) -> (r: bool)
        ensures
            r == (self.fuzzer_type == FuzzerType::VUzzer),
    {
        self.fuzzer_type == FuzzerType::VUzzer
    }

    /// The argument list the external driver executable is launched with.
    pub open spec fn spec_spawn_args(self) -> Seq<Seq<char>> {
        seq![
            "-i"@,
            self.fuzzer_id@,
            "-f"@,
            self.fuzzer_cmd_filename@,
            "-c"@,
            self.fuzzer_corpus_path@,
            "-l"@,
            self.fuzzer_log_filename@,
            "-L"@,
            self.fuzzer_log_err_filename@,
            "-p"@,
            ports_chars(self.interesting_port, self.use_port, self.metric_port),
            "-d"@,
            self.data_path@,
            "-j"@,
            self.inject_path@,
        ] + (match self.basic_block_script {
            Some(b) => seq!["-b"@, b@],
            None => Seq::<Seq<char>>::empty(),
        }) + (match self.section_name {
            Some(s) => seq!["-s"@, s@],
            None => Seq::<Seq<char>>::empty(),
        }) + (match self.sut_input_file {
            Some(f) => seq!["-F"@, f@],
            None => Seq::<Seq<char>>::empty(),
        }) + seq!["--"@] + self.sut@.map_values(|t: String| t@)
    }

    /// Builds the command line for the external driver process. The edge
    /// hands it to the spawned executable unchanged.
    pub fn spawn_args(&self) -> (r: Vec<String>)
        ensures
            r@.map_values(|t: String| t@) == self.spec_spawn_args(),
    {
        proof {
            reveal_strlit("-i");
            reveal_strlit("-f");
            reveal_strlit("-c");
            reveal_strlit("-l");
            reveal_strlit("-L");
            reveal_strlit("-p");
            reveal_strlit("-d");
            reveal_strlit("-j");
            reveal_strlit("-b");
            reveal_strlit("-s");
            reveal_strlit("-F");
            reveal_strlit("--");
            reveal_strlit(",");
        }
        let mut ports = u64_to_string(self.interesting_port as u64);
        ports.append(",");
        let use_str = u64_to_string(self.use_port as u64);
        ports.append(use_str.as_str());
        ports.append(",");
        let metric_str = u64_to_string(self.metric_port as u64);
        ports.append(metric_str.as_str());

        let mut args: Vec<String> = Vec::new();
        args.push(String::from_str("-i"));
        args.push(self.fuzzer_id.clone());
        args.push(String::from_str("-f"));
        args.push(self.fuzzer_cmd_filename.clone());
        args.push(String::from_str("-c"));
        args.push(self.fuzzer_corpus_path.clone());
        args.push(String::from_str("-l"));
        args.push(self.fuzzer_log_filename.clone());
        args.push(String::from_str("-L"));
        args.push(self.fuzzer_log_err_filename.clone());
        args.push(String::from_str("-p"));
        args.push(ports);
        args.push(String::from_str("-d"));
        args.push(self.data_path.clone());
        args.push(String::from_str("-j"));
        args.push(self.inject_path.clone());

        let ghost fixed = seq![
            "-i"@,
            self.fuzzer_id@,
            "-f"@,
            self.fuzzer_cmd_filename@,
            "-c"@,
            self.fuzzer_corpus_path@,
            "-l"@,
            self.fuzzer_log_filename@,
            "-L"@,
            self.fuzzer_log_err_filename@,
            "-p"@,
            ports_chars(self.interesting_port, self.use_port, self.metric_port),
            "-d"@,
            self.data_path@,
            "-j"@,
            self.inject_path@,
        ];
        proof {
            assert(args@.map_values(|t: String| t@) =~~= fixed);
        }
        if let Some(basic_block_script) = &self.basic_block_script {
            args.push(String::from_str("-b"));
            args.push(basic_block_script.clone());
        }
        let ghost with_bb = fixed + (match &self.basic_block_script {
            Some(b) => seq!["-b"@, b@],
            None => Seq::<Seq<char>>::empty(),
        });
        proof {
            assert(args@.map_values(|t: String| t@) =~~= with_bb);
        }
        if let Some(section_name) = &self.section_name {
            args.push(String::from_str("-s"));
            args.push(section_name.clone());
        }
        let ghost with_section = with_bb + (match &self.section_name {
            Some(s) => seq!["-s"@, s@],
            None => Seq::<Seq<char>>::empty(),
        });
        proof {
            assert(args@.map_values(|t: String| t@) =~~= with_section);
        }
        if let Some(sut_input_file) = &self.sut_input_file {
            args.push(String::from_str("-F"));
            args.push(sut_input_file.clone());
        }
        let ghost with_input = with_section + (match &self.sut_input_file {
            Some(f) => seq!["-F"@, f@],
            None => Seq::<Seq<char>>::empty(),
        });
        proof {
            assert(args@.map_values(|t: String| t@) =~~= with_input);
        }
        args.push(String::from_str("--"));
        let ghost full_prefix = with_input + seq!["--"@];
        proof {
            assert(args@.map_values(|t: String| t@) =~~= full_prefix);
        }
        let ghost prefix = args@;
        let mut i: usize = 0;
        while i < self.sut.len()
            invariant
                0 <= i <= self.sut@.len(),
                args@.len() == prefix.len() + i,
                forall|k: int| 0 <= k < prefix.len() ==> args@[k] == prefix[k],
                forall|k: int|
                    prefix.len() <= k < prefix.len() + i ==> (#[trigger] args@[k])@
                        == self.sut@[k - prefix.len()]@,
            decreases self.sut@.len() - i,
        {
            let token = self.sut[i].clone();
            proof {
                assert(token == self.sut@[i as int]);
            }
            args.push(token);
            i = i + 1;
        }
        proof {
            assert forall|k: int| 0 <= k < prefix.len() implies (#[trigger] prefix[k])@
                == full_prefix[k] by {
                assert(prefix.map_values(|t: String| t@)[k] == prefix[k]@);
            }
            assert(args@.map_values(|t: String| t@) =~~= full_prefix + self.sut@.map_values(
                |t: String| t@,
            ));
            assert(self.spec_spawn_args() =~~= full_prefix + self.sut@.map_values(
                |t: String| t@,
            ));
        }
        args
    }
}

} // verus!
