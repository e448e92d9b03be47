//! What to analyze after injections ran, and how to report it.

use vstd::prelude::*;
use std::collections::BTreeMap;
use crate::text::{push_char, push_str};

verus! {

/// Which fault-effect model classifies the runs.
#[derive(Debug, Clone, Copy, PartialEq, Eq)]
pub enum AnalyzeModel {
    DeterministicCipher,
    ProbabilisticSignature,
    Nothing,
}

impl Default for AnalyzeModel {
    fn default() -> (r: Self)
        ensures
            r == AnalyzeModel::Nothing,
    {
        AnalyzeModel::Nothing
    }
}

/// Which reports to write: the per-run details, the summary table, or both.
#[derive(Debug, Clone, Copy, PartialEq, Eq)]
pub enum AnalyzeOutputMode {
    Detail,
    Summary,
    All,
}

impl Default for AnalyzeOutputMode {
    fn default() -> (r: Self)
        ensures
            r == AnalyzeOutputMode::All,
    {
        AnalyzeOutputMode::All
    }
}

impl AnalyzeOutputMode {
    /// Whether the per-run details are written.
    pub fn writes_detail(&self) -> (r: bool)
        ensures
            r == (*self != AnalyzeOutputMode::Summary),
    {
        match self {
            AnalyzeOutputMode::Summary => false,
            _ => true,
        }
    }

    /// Whether the summary table is written.
    pub fn writes_summary(&self) -> (r: bool)
        ensures
            r == (*self != AnalyzeOutputMode::Detail),
    {
        match self {
            AnalyzeOutputMode::Detail => false,
            _ => true,
        }
    }
}

/// Where reports go and which reports.
#[derive(Debug, Clone, PartialEq, Eq)]
pub struct AnalyzeOutput {
    pub path: String,
    pub mode: AnalyzeOutputMode,
}

impl Default for AnalyzeOutput {
    fn default() -> (r: Self)
        ensures
            r.path@ == Seq::<char>::empty(),
            r.mode == AnalyzeOutputMode::All,
    {
        AnalyzeOutput { path: String::new(), mode: AnalyzeOutputMode::All }
    }
}

/// The runs to analyze: for each experiment group, its experiments.
#[derive(Debug, Clone, PartialEq, Eq)]
pub struct AnalyzeConfig {
    pub path: String,
    pub output: AnalyzeOutput,
    pub fields: usize,
    pub experiments: BTreeMap<String, Vec<String>>,
    pub model: AnalyzeModel,
}

impl Default for AnalyzeConfig {
    fn default() -> (r: Self)
        ensures
            r.path@ == Seq::<char>::empty(),
            r.output.path@ == Seq::<char>::empty(),
            r.output.mode == AnalyzeOutputMode::All,
            r.fields == 0,
            r.model == AnalyzeModel::Nothing,
    {
        AnalyzeConfig {
            path: String::new(),
            output: AnalyzeOutput::default(),
            fields: 0,
            experiments: BTreeMap::new(),
            model: AnalyzeModel::Nothing,
        }
    }
}

/// The report file of an experiment: `<out>/<group>/<experiment><suffix>`.
pub open spec fn report_path_text(out: Seq<char>, exp_id: Seq<char>, exp: Seq<char>, suffix: Seq<char>) -> Seq<char> {
    out + seq!['/'] + exp_id + seq!['/'] + exp + suffix
}

fn report_path(out: &str, exp_id: &str, exp: &str, suffix: &str) -> (s: String)
    ensures
        s@ == report_path_text(out@, exp_id@, exp@, suffix@),
{
    let mut s = String::new();
    push_str(&mut s, out);
    push_char(&mut s, '/');
    push_str(&mut s, exp_id);
    push_char(&mut s, '/');
    push_str(&mut s, exp);
    push_str(&mut s, suffix);
    s
}

/// The detailed report of an experiment: `<out>/<group>/<experiment>-detail.txt`.
pub fn detail_report_path(out: &str, exp_id: &str, exp: &str) -> (s: String)
    ensures
        s@ == report_path_text(out@, exp_id@, exp@, "-detail.txt"@),
{
    report_path(out, exp_id, exp, "-detail.txt")
}

/// The summary of an experiment: `<out>/<group>/<experiment>.csv`.
pub fn summary_report_path(out: &str, exp_id: &str, exp: &str) -> (s: String)
    ensures
        s@ == report_path_text(out@, exp_id@, exp@, ".csv"@),
{
    report_path(out, exp_id, exp, ".csv")
}

} // verus!
