//! String helpers, decimal codec, the analyzer parsers and the analyzer
//! row formats.

use coop_fuzz_master::common::{get_time_part, get_zeros};
use coop_fuzz_master::coverage::branches_from_bytes;
use coop_fuzz_master::strutil::{
    join_with, parse_u64, sort_strings, split_on, str_contains, str_eq, str_le, trim_spaces,
    u64_to_string,
};

#[test]
fn split_and_join() {
    let parts = split_on("a b c", ' ');
    assert_eq!(parts, vec!["a", "b", "c"]);
    assert_eq!(split_on("", ','), vec![""]);
    assert_eq!(split_on(",x,", ','), vec!["", "x", ""]);
    let owned = vec!["bb".to_string(), "cc".to_string()];
    assert_eq!(join_with(&owned, "_"), "bb_cc");
    assert_eq!(join_with(&Vec::new(), "_"), "");
    assert_eq!(join_with(&vec!["solo".to_string()], "_"), "solo");
}

#[test]
fn decimal_round_trip() {
    assert_eq!(u64_to_string(0), "0");
    assert_eq!(u64_to_string(12345), "12345");
    assert_eq!(u64_to_string(u64::MAX), "18446744073709551615");
    assert_eq!(parse_u64("42"), Some(42));
    assert_eq!(parse_u64("0"), Some(0));
    assert_eq!(parse_u64("18446744073709551615"), Some(u64::MAX));
    assert_eq!(parse_u64("18446744073709551616"), None);
    assert_eq!(parse_u64(""), None);
    assert_eq!(parse_u64("1a"), None);
    assert_eq!(parse_u64(u64_to_string(987654321).as_str()), Some(987654321));
}

#[test]
fn trim_and_compare() {
    assert_eq!(trim_spaces("  x \t"), "x");
    assert_eq!(trim_spaces("plain"), "plain");
    assert_eq!(trim_spaces("   "), "");
    assert_eq!(trim_spaces(""), "");
    assert!(str_eq("same", "same"));
    assert!(!str_eq("same", "other"));
    assert!(str_le("abc", "abd"));
    assert!(str_le("ab", "abc"));
    assert!(!str_le("b", "ab"));
    assert!(str_contains("work/aa.afl.conf", "aa"));
    assert!(!str_contains("work/aa.afl.conf", "zz"));
    assert!(str_contains("anything", ""));
}

#[test]
fn sorting_winner_ids() {
    let ids = vec!["cc".to_string(), "aa".to_string(), "bb".to_string(), "aa".to_string()];
    let sorted = sort_strings(&ids);
    assert_eq!(sorted, vec!["aa", "aa", "bb", "cc"]);
}

#[test]
fn analyzer_row_helpers() {
    assert_eq!(get_zeros(3), "0 0 0 0 0\n");
    assert_eq!(get_zeros(0), "0 0 \n");
    assert_eq!(get_time_part(Some(2), 2500), "2 2500 ");
    assert_eq!(get_time_part(None, 77), "77 77 ");
}

#[test]
fn winning_log_parse() {
    let (t, src, wins) =
        coop_fuzz_master::winning::parse_line(&"123,aa,bb_cc".to_string()).unwrap();
    assert_eq!(t, 123);
    assert_eq!(src, "aa");
    assert_eq!(wins, vec!["bb", "cc"]);
    assert!(coop_fuzz_master::winning::parse_line(&"1,aa".to_string()).is_err());
    assert!(coop_fuzz_master::winning::parse_line(&"x,aa,bb".to_string()).is_err());
}

#[test]
fn inputs_log_parse() {
    let (t, src, ip, cp) =
        coop_fuzz_master::inputs::parse_line(&"5,aa,/in,/cov".to_string()).unwrap();
    assert_eq!(t, 5);
    assert_eq!(src, "aa");
    assert_eq!(ip, "/in");
    assert_eq!(cp, "/cov");
    assert!(coop_fuzz_master::inputs::parse_line(&"5,aa,/in".to_string()).is_err());
    assert!(coop_fuzz_master::inputs::parse_line(&"bad,aa,/in,/cov".to_string()).is_err());
}

#[test]
fn unique_ids_keep_first_appearance() {
    let ids = vec!["aa".to_string(), "bb".to_string(), "aa".to_string(), "cc".to_string()];
    let unique = coop_fuzz_master::winning::unique_fuzzer_ids(&ids);
    assert_eq!(unique, vec!["aa", "bb", "cc"]);
}

#[test]
fn counter_file_row() {
    let row = coop_fuzz_master::winning::log_line(&"1 500 ".to_string(), &vec![3, 0, 7]);
    assert_eq!(row, "1 500 3 0 7\n");
}

#[test]
fn coverage_records_decode_little_endian() {
    let mut bytes: Vec<u8> = Vec::new();
    bytes.extend_from_slice(&1u64.to_le_bytes());
    bytes.extend_from_slice(&2u64.to_le_bytes());
    let branches = branches_from_bytes(bytes.as_slice());
    assert_eq!(branches.len(), 1);
    assert_eq!(branches[0].from, 1);
    assert_eq!(branches[0].to, 2);

    // Trailing bytes are ignored.
    bytes.extend_from_slice(&[0xff, 0xee, 0xdd]);
    let again = branches_from_bytes(bytes.as_slice());
    assert_eq!(again.len(), 1);
    assert_eq!(branches_from_bytes(&[]).len(), 0);

    let mut two: Vec<u8> = Vec::new();
    two.extend_from_slice(&0x0102030405060708u64.to_le_bytes());
    two.extend_from_slice(&9u64.to_le_bytes());
    two.extend_from_slice(&10u64.to_le_bytes());
    two.extend_from_slice(&11u64.to_le_bytes());
    let pair = branches_from_bytes(two.as_slice());
    assert_eq!(pair.len(), 2);
    assert_eq!(pair[0].from, 0x0102030405060708);
    assert_eq!(pair[0].to, 9);
    assert_eq!(pair[1].from, 10);
    assert_eq!(pair[1].to, 11);
}

#[test]
fn raw_series_resampling() {
    let lines = vec!["60000 5".to_string(), "120000 9".to_string()];
    let v = coop_fuzz_master::intervals::parse_raw_data(&lines, 3).unwrap();
    assert_eq!(v, vec![0, 5, 9, 9]);

    let overwrite = vec!["60000 5".to_string(), "61000 7".to_string()];
    let w = coop_fuzz_master::intervals::parse_raw_data(&overwrite, 3).unwrap();
    assert_eq!(w, vec![0, 7, 7, 7]);

    assert!(coop_fuzz_master::intervals::parse_raw_data(&vec!["x y".to_string()], 3).is_err());
    assert!(coop_fuzz_master::intervals::parse_raw_data(&vec!["5".to_string()], 3).is_err());
}

#[test]
fn master_series_resampling() {
    let lines =
        vec!["unit time cov".to_string(), "0 3".to_string(), "2 8".to_string()];
    let v = coop_fuzz_master::intervals::parse_master_data(&lines, 4).unwrap();
    assert_eq!(v, vec![3, 3, 8, 8, 8]);

    let empty: Vec<String> = Vec::new();
    assert_eq!(coop_fuzz_master::intervals::parse_master_data(&empty, 2).unwrap(), vec![0, 0, 0]);

    let bad = vec!["header".to_string(), "x 9".to_string()];
    assert!(coop_fuzz_master::intervals::parse_master_data(&bad, 2).is_err());
}

#[test]
fn winning_tallies() {
    let ids = vec!["aa".to_string(), "bb".to_string(), "cc".to_string()];
    let mut accepted = vec![0u64, 0, 0];
    let mut won = vec![0u64, 0, 0];
    coop_fuzz_master::winning::tally_line(
        &ids,
        &mut accepted,
        &mut won,
        &"aa".to_string(),
        &vec!["bb".to_string(), "cc".to_string()],
    );
    assert_eq!(accepted, vec![1, 0, 0]);
    assert_eq!(won, vec![0, 1, 1]);
    coop_fuzz_master::winning::tally_line(
        &ids,
        &mut accepted,
        &mut won,
        &"bb".to_string(),
        &vec!["aa".to_string()],
    );
    assert_eq!(accepted, vec![1, 1, 0]);
    assert_eq!(won, vec![1, 1, 1]);
}

#[test]
fn branch_set_counts_distinct_branches() {
    let mut set = coop_fuzz_master::inputs::BranchSet::new();
    assert_eq!(set.len(), 0);
    let a = coop_fuzz_master::coverage::Branch { from: 1, to: 2 };
    let b = coop_fuzz_master::coverage::Branch { from: 1, to: 3 };
    set.insert(a);
    set.insert(b);
    set.insert(a);
    assert_eq!(set.len(), 2);
}
