//! Where reports are written.
use vstd::prelude::*;

use crate::analytics::data::DEFAULT_ITERATIONS_THRESHOLD;
use crate::text::push_all;

verus! {

/// The directory that holds the reports.
pub const REPORTS_PATH: &'static str = ".skope";

/// The characters of `REPORTS_PATH`.
pub open spec fn reports_dir() -> Seq<char> {
    seq!['.', 's', 'k', 'o', 'p', 'e']
}

/// `REPORTS_PATH` holds the characters of `reports_dir`.
pub proof fn lemma_reports_path()
    ensures
        REPORTS_PATH@ == reports_dir(),
{
    reveal_strlit(".skope");
}


/// The file of the aggregated report.
pub open spec fn agg_report_path() -> Seq<char> {
    reports_dir() + "/report_agg.json"@
}

/// The file of the report of every execution.
pub open spec fn apps_report_path() -> Seq<char> {
    reports_dir() + "/report_apps.json"@
}

/// The characters of `REPORTS_PATH` followed by `rest`.
fn in_reports_dir(rest: &str) -> (r: String)
    ensures
        r@ == reports_dir() + rest@,
{
    proof {
        lemma_reports_path();
    }
    let mut r = String::new();
    push_all(&mut r, REPORTS_PATH);
    push_all(&mut r, rest);
    r
}

/// Where the aggregated report goes by default.
pub fn default_agg_report_path() -> (r: String)
    ensures
        r@ == agg_report_path(),
{
    in_reports_dir("/report_agg.json")
}

/// Where the report of every execution goes by default.
pub fn default_apps_report_path() -> (r: String)
    ensures
        r@ == apps_report_path(),
{
    in_reports_dir("/report_apps.json")
}

/// The file a report is written to: the one asked for, else the report's own default.
pub fn resolve_report_path(path: Option<&str>, default_path: &str) -> (r: String)
    ensures
        r@ == match path {
            Some(p) => p@,
            None => default_path@,
        },
{
    let mut r = String::new();
    match path {
        Some(p) => push_all(&mut r, p),
        None => push_all(&mut r, default_path),
    }
    r
}

/// Writes each report to its own default file.
#[derive(Copy, Clone, Debug)]
pub struct ServerWriter {
    iterations_threshold: usize,
}

impl ServerWriter {
    /// A writer for the server mode.
    pub fn new() -> (r: ServerWriter)
        ensures
            r.iterations_threshold() == DEFAULT_ITERATIONS_THRESHOLD,
    {
        ServerWriter { iterations_threshold: DEFAULT_ITERATIONS_THRESHOLD }
    }

    /// How many messages pass between two writes of the reports.
    pub closed spec fn iterations_threshold(&self) -> usize {
        self.iterations_threshold
    }

    /// The file a report is written to: always the report's own default.
    pub fn report_target(&self) -> (r: Option<String>)
        ensures
            r is None,
    {
        None
    }
}

/// Writes every report to the one file named after the capture.
#[derive(Clone, Debug)]
pub struct RunnerWriter {
    report_name: String,
}

impl RunnerWriter {
    /// A writer for the capture `name`.
    pub fn new(name: &str) -> (r: RunnerWriter)
        ensures
            r.report_name()@ == name@,
    {
        let mut report_name = String::new();
        push_all(&mut report_name, name);
        RunnerWriter { report_name }
    }

    /// The file every report goes to.
    pub closed spec fn report_name(&self) -> String {
        self.report_name
    }

    /// The file a report is written to: always the capture's file.
    pub fn report_target(&self) -> (r: Option<String>)
        ensures
            r matches Some(p) && p@ == self.report_name()@,
    {
        Some(self.report_name.clone())
    }
}

impl Default for RunnerWriter {
    fn default() -> (r: RunnerWriter)
        ensures
            r.report_name()@ == Seq::<char>::empty(),
    {
        RunnerWriter { report_name: String::new() }
    }
}

} // verus!
