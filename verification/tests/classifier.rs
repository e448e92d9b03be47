use stalker::analyze::{detail_report_path, summary_report_path, AnalyzeConfig, AnalyzeModel, AnalyzeOutputMode};
use stalker::dc::{dc_class, dc_runs_ok, dc_tally, DcClass};
use stalker::dsa::{dsa_class, dsa_runs_ok, dsa_tally, DsaClass};
use stalker::effect::{inspect, stats};
use stalker::fields::{Fields, ParseError};
use stalker::metric::{ByteMatch, EqualByByte, Metric};

fn strings(v: &[&str]) -> Vec<String> {
    v.iter().map(|s| s.to_string()).collect()
}

#[test]
fn fields_from_lines_of_a_group() {
    let f = Fields::from_text_vec_unchecked(&strings(&["a", "b", "c", "d", "e"]), 2);
    assert_eq!(f, Fields(strings(&["ab", "cd", "e"])));
    assert!(Fields::from_text_vec_unchecked(&strings(&["a"]), 2).is_empty());
    assert!(Fields::from_text_vec_unchecked(&[], 0).is_empty());
    let f = Fields::from_text_vec_unchecked(&strings(&["p", "c", "r"]), 3);
    assert_eq!(f.len(), 3);
    assert_eq!(f.index(1), "c");
}

#[test]
fn output_lines() {
    let lines = strings(&["p1", "c1", "r1", "", "p2", "c2", "r2", "", "tail"]);
    let groups = Fields::from_lines(&lines, 3).unwrap();
    assert_eq!(groups.len(), 2);
    assert_eq!(groups[1], Fields(strings(&["p2", "c2", "r2"])));
    assert!(matches!(Fields::from_lines(&strings(&["a", "x TERM y"]), 1), Err(ParseError::Looped)));
    assert!(matches!(
        Fields::from_lines(&strings(&["Segmentation fault", "TERM"]), 1),
        Err(ParseError::Crashed)
    ));
    assert!(matches!(Fields::from_lines(&strings(&["a"]), 1), Err(ParseError::Crashed)));
    assert!(matches!(Fields::from_lines(&strings(&["监视的命令已核心转储"]), 1), Err(ParseError::Crashed)));
}

#[test]
fn summary_table() {
    let variants = strings(&["Correct", "Functional"]);
    let effects = vec![
        ("a".to_string(), Ok("Correct".to_string())),
        ("b".to_string(), Ok("Correct".to_string())),
        ("c".to_string(), Err(ParseError::Crashed)),
    ];
    assert_eq!(
        stats(&variants, &effects),
        "Class               , Count, All\nCorrect             ,     2,    3\nCrashed             ,     1,    3\n"
    );
}

#[test]
fn detail_report() {
    let variants = strings(&["OddBytes", "Unknown"]);
    let entries = vec![
        ("dir/x1".to_string(), Some(("OddBytes".to_string(), "0.5".to_string()))),
        ("y".to_string(), None),
        ("d/z".to_string(), Some(("OddBytes".to_string(), "0.25".to_string()))),
    ];
    let expect = format!("OddBytes:\n{:48}:  0.5\n{:48}:  0.25\n", "x1", "z");
    assert_eq!(inspect(&variants, &entries), expect);
}

#[test]
fn equal_by_byte() {
    let a = [0u8; 8];
    let b = [1u8; 8];
    assert_eq!(EqualByByte::dist(&a, &b), ByteMatch { matched: 0, total: 8 });
    let a = [0u8; 4];
    let b = [0u8, 0u8, 1u8, 1u8, 1u8, 1u8, 1u8, 0];
    let d = EqualByByte::dist(&a, &b);
    assert_eq!(d, ByteMatch { matched: 2, total: 4 });
    assert_eq!(0.5, d.matched as f64 / d.total as f64);
    assert_eq!(EqualByByte::dist(&a, &[]), ByteMatch { matched: 0, total: 4 });
}

fn group(p: &str, c: &str, r: &str) -> Fields {
    Fields(strings(&[p, c, r]))
}

#[test]
fn cipher_tally() {
    let pt = "00112233445566778899aabbccddeeff";
    let ct = "ffeeddccbbaa99887766554433221100";
    let ct2 = "0f0e0d0c0b0a09080706050403020100";
    let expect = vec![group(pt, ct, pt), group(pt, ct, pt), group(pt, ct, pt), group(pt, ct, pt)];
    let res = vec![
        group(pt, ct, pt),
        group(pt, ct2, pt),
        group(pt, ct2, "00"),
        group("aa", ct, pt),
    ];
    let t = dc_tally(&expect, &res);
    assert_eq!(t.cnt, 4);
    assert_eq!(t.correct, 1);
    assert_eq!(t.functional, 1);
    assert_eq!(t.odd_plaintext, 1);
    assert_eq!(t.dupe_etext, 1);
    assert_eq!(t.dupe_dtext, 0);
    assert_eq!(t.samples.len(), 2);
    assert_eq!(t.byte_cnt[256 * 0 + 0x0f], 2);
    assert_eq!(dc_class(&t, false, false, false), DcClass::DupeCiphertext);
    let ok = dc_tally(&expect, &expect);
    assert_eq!(dc_class(&ok, false, false, false), DcClass::Correct);
    // nothing was decoded, so nothing can show the key or the plaintext
    assert_eq!(dc_class(&ok, true, true, true), DcClass::Correct);
    let t2 = dc_tally(&expect, &vec![group(pt, ct2, pt)]);
    assert_eq!(dc_class(&t2, true, false, false), DcClass::EqualByByteKey);
    assert_eq!(dc_class(&t2, false, true, false), DcClass::EqualByBytePlaintext);
}

#[test]
fn signature_tally() {
    let res = vec![
        group("0a0b", "0c0d", "1"),
        group("0a0c", "0c0d", "0"),
        group("0a0b", "0c0e", "1"),
        Fields(vec![]),
    ];
    let t = dsa_tally(&res);
    assert_eq!(t.cnt, 4);
    assert_eq!(t.nonce_reuse, 1);
    assert_eq!(t.functional, 1);
    assert_eq!(t.samples.len(), 2);
    assert_eq!(t.byte_cnt[256 * 0 + 0x0a], 2);
    assert_eq!(t.byte_cnt[256 * 1 + 0x0c], 2);
    assert_eq!(t.byte_cnt[256 * 4 + 0], 2);
    assert_eq!(dsa_class(&t, false), DsaClass::NonceReuse);
}

#[test]
fn analyze_defaults() {
    let c = AnalyzeConfig::default();
    assert_eq!(c.model, AnalyzeModel::Nothing);
    assert_eq!(c.output.mode, AnalyzeOutputMode::All);
    assert!(c.output.mode.writes_detail() && c.output.mode.writes_summary());
    assert!(!AnalyzeOutputMode::Detail.writes_summary());
}

#[test]
fn tallies_can_be_checked_first() {
    let pt = "00112233445566778899aabbccddeeff";
    let ct = "ffeeddccbbaa99887766554433221100";
    let expect = vec![group(pt, ct, pt)];
    assert!(dc_runs_ok(&expect, &vec![group(pt, ct, pt)]));
    assert!(dc_runs_ok(&expect, &vec![group("aa", ct, pt)]));
    assert!(!dc_runs_ok(&expect, &vec![group(pt, "zz", pt)]));
    assert!(!dc_runs_ok(&expect, &vec![group(pt, "ffee", pt)]));
    assert!(!dc_runs_ok(&expect, &vec![Fields(strings(&[pt, ct]))]));
    assert!(dc_runs_ok(&vec![], &vec![group(pt, "zz", pt)]));
    assert!(dsa_runs_ok(&vec![group("0a", "0b", "1"), Fields(strings(&["0a"]))]));
    assert!(!dsa_runs_ok(&vec![Fields(strings(&["0a"]))]));
    assert!(!dsa_runs_ok(&vec![Fields(strings(&["0a", "0b"]))]));
    assert!(dsa_runs_ok(&vec![Fields(strings(&["0a", "zz"]))]));
}

#[test]
fn lines_need_a_group_size() {
    assert!(Fields::lines_ok(&strings(&["a", "", "b"]), 1));
    assert!(!Fields::lines_ok(&strings(&["a", "", "b"]), 0));
    assert!(Fields::lines_ok(&strings(&["", "", "b"]), 0));
    assert!(Fields::lines_ok(&strings(&["a", "TERM", ""]), 0));
    let g = Fields::from_lines(&strings(&["", "x"]), 0).unwrap();
    assert_eq!(g, vec![Fields(vec![])]);
}

#[test]
fn io_errors_are_internal() {
    let e = std::io::Error::new(std::io::ErrorKind::NotFound, "gone");
    assert!(matches!(ParseError::from(e), ParseError::Internal(_)));
}

#[test]
fn report_paths() {
    assert_eq!(detail_report_path("out", "dsa", "run1"), "out/dsa/run1-detail.txt");
    assert_eq!(summary_report_path("out", "dsa", "run1"), "out/dsa/run1.csv");
}

#[test]
fn output_groups_by_blank_lines() {
    let lines = strings(&["a", "b", "", "", "c", "", "d"]);
    let g = Fields::from_lines(&lines, 1).unwrap();
    assert_eq!(g, vec![Fields(strings(&["ab"])), Fields(vec![]), Fields(strings(&["c"]))]);
    assert!(matches!(Fields::from_lines(&strings(&["a", "b"]), 1), Err(ParseError::Crashed)));
}
