//! Per-driver path derivation and the spawn command line.

use coop_fuzz_master::driver::{Driver, FuzzerType, DRIVER_EXE};
use coop_fuzz_master::master::{INTERESTING_PORT, USE_PORT};

fn afl_driver() -> Driver {
    Driver::with_defaults(
        "id1".to_string(),
        FuzzerType::AFL,
        vec!["/bin/cat".to_string(), "@@".to_string()],
        Some("./work/.id1.input".to_string()),
        1339,
        "./work".to_string(),
        None,
        None,
    )
}

#[test]
fn afl_paths() {
    let d = afl_driver();
    assert_eq!(d.fuzzer_cmd_filename, "./work/id1.afl.conf");
    assert_eq!(d.fuzzer_corpus_path, "./work/id1/out/id1/queue");
    assert_eq!(d.inject_path, "./work/id1/out/inject/queue");
    assert_eq!(d.data_path, "./work/id1/driver");
    assert_eq!(d.fuzzer_log_filename, "./work/id1.fuzz.log");
    assert_eq!(d.fuzzer_log_err_filename, "./work/id1.fuzz.err.log");
    assert_eq!(d.log_filename, "./work/id1.log");
    assert_eq!(d.get_metric_port(), 1339);
    assert!(!d.is_vuzzer());
    assert_eq!(d.interesting_port, INTERESTING_PORT);
    assert_eq!(d.use_port, USE_PORT);
}

#[test]
fn honggfuzz_and_vuzzer_paths() {
    let h = Driver::with_defaults(
        "h1".to_string(),
        FuzzerType::Honggfuzz,
        vec!["/bin/true".to_string()],
        None,
        1340,
        "./work".to_string(),
        None,
        None,
    );
    assert_eq!(h.fuzzer_corpus_path, "./work/h1/in");
    assert_eq!(h.inject_path, "./work/h1/out/inject");
    assert!(!h.is_vuzzer());

    let v = Driver::with_defaults(
        "v1".to_string(),
        FuzzerType::VUzzer,
        vec!["/bin/true".to_string()],
        None,
        1341,
        "./work".to_string(),
        None,
        None,
    );
    assert_eq!(v.fuzzer_corpus_path, "./work/v1/special");
    assert_eq!(v.inject_path, "./work/v1/special");
    assert!(v.is_vuzzer());
}

#[test]
fn variant_tokens() {
    assert_eq!(FuzzerType::from_str("afl").unwrap(), FuzzerType::AFL);
    assert_eq!(FuzzerType::from_str("hongg").unwrap(), FuzzerType::Honggfuzz);
    assert_eq!(FuzzerType::from_str("vu").unwrap(), FuzzerType::VUzzer);
    assert!(FuzzerType::from_str("unknown").is_err());
    assert_eq!(FuzzerType::AFL.to_string(), "afl");
    assert_eq!(FuzzerType::Honggfuzz.to_string(), "hongg");
    assert_eq!(FuzzerType::VUzzer.to_string(), "vu");
    assert_eq!(FuzzerType::AFL.get_inject_path(), "out/inject/queue");
    assert_eq!(FuzzerType::Honggfuzz.get_inject_path(), "out/inject");
    assert_eq!(FuzzerType::VUzzer.get_inject_path(), "special");
}

#[test]
fn spawn_arguments() {
    let d = afl_driver();
    let args = d.spawn_args();
    let expected: Vec<&str> = vec![
        "-i",
        "id1",
        "-f",
        "./work/id1.afl.conf",
        "-c",
        "./work/id1/out/id1/queue",
        "-l",
        "./work/id1.fuzz.log",
        "-L",
        "./work/id1.fuzz.err.log",
        "-p",
        "1337,1338,1339",
        "-d",
        "./work/id1/driver",
        "-j",
        "./work/id1/out/inject/queue",
        "-F",
        "./work/.id1.input",
        "--",
        "/bin/cat",
        "@@",
    ];
    let got: Vec<&str> = args.iter().map(|s| s.as_str()).collect();
    assert_eq!(got, expected);
    assert_eq!(DRIVER_EXE, "./driver/driver");
}

#[test]
fn spawn_arguments_with_optional_flags() {
    let d = Driver::new(
        "id2".to_string(),
        FuzzerType::Honggfuzz,
        vec!["/bin/true".to_string()],
        None,
        1400,
        "./w".to_string(),
        Some("bb.py".to_string()),
        Some(".text".to_string()),
        Some(2000),
        Some(2001),
    );
    let args = d.spawn_args();
    let got: Vec<&str> = args.iter().map(|s| s.as_str()).collect();
    assert_eq!(
        got,
        vec![
            "-i",
            "id2",
            "-f",
            "./w/id2.hongg.conf",
            "-c",
            "./w/id2/in",
            "-l",
            "./w/id2.fuzz.log",
            "-L",
            "./w/id2.fuzz.err.log",
            "-p",
            "2000,2001,1400",
            "-d",
            "./w/id2/driver",
            "-j",
            "./w/id2/out/inject",
            "-b",
            "bb.py",
            "-s",
            ".text",
            "--",
            "/bin/true",
        ]
    );
}
