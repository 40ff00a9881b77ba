//! A mapping session: from the configuration and what was read to the report.
use vstd::prelude::*;
use crate::text;
use crate::cli::{self, PathProbe};
use crate::report::{self, MappingReport};
use crate::scanner::{self, ScanEntry};
use crate::metrics;
use crate::warning;

verus! {

/// What a session maps and how it serves it.
pub struct SessionConfig {
    pub input: String,
    pub port: u16,
    pub open_browser: bool,
}

/// A started session: the report, the server's URL, and why the browser
/// could not be opened, if it could not.
pub struct SessionStarted {
    pub report: MappingReport,
    pub local_url: String,
    pub browser_error: Option<String>,
}

/// Why a session cannot build its report, if it cannot.
pub open spec fn report_problem(input: Seq<char>, probe: PathProbe, root: scanner::EntryView) -> Option<Seq<char>> {
    match cli::input_problem(input, probe) {
        Some(msg) => Some(msg),
        None => match scanner::root_failure(root) {
            Some(err) => Some("falha ao mapear o diretorio '"@ + input + "': "@ + err),
            None => None,
        },
    }
}

/// Builds the report of the input directory. `probe` is what the file system
/// says of the input path, `root` what reading it gave, `canonical` its
/// canonical form as displayed (when it could be had), and `generated_at` the
/// generation time read from the local clock. `config.input` is the input
/// path as displayed.
pub fn build_report(
    config: &SessionConfig,
    probe: PathProbe,
    root: &ScanEntry,
    canonical: Option<&str>,
    generated_at: String,
) -> (r: Result<MappingReport, String>)
    requires
        scanner::entry_size(root@) <= u64::MAX,
    ensures
        r is Ok <==> report_problem(config.input@, probe, root@) is None,
        r matches Err(msg) ==> report_problem(config.input@, probe, root@) == Some(msg@),
        r matches Ok(rep) ==> {
            &&& rep.source@ == report::shown_path(
                match canonical {
                    Some(c) => c@,
                    None => config.input@,
                },
            )
            &&& rep.generated_at == generated_at
            &&& scanner::scan_node(root@) == Some(rep.tree@)
            &&& rep.summary@ == scanner::scan_metrics(root@, metrics::empty_metrics())
            &&& warning::warnings_view(rep.warnings@) == scanner::scan_warnings(root@)
        },
{
    match cli::validate_input_directory(config.input.as_str(), probe) {
        Err(msg) => {
            return Err(msg);
        },
        Ok(()) => {},
    }
    match scanner::scan_directory(root) {
        Err(err) => {
            let mut msg = text::owned("falha ao mapear o diretorio '");
            text::push_text(&mut msg, config.input.as_str());
            text::push_text(&mut msg, "': ");
            text::push_text(&mut msg, err.as_str());
            Err(msg)
        },
        Ok(result) => {
            let scanner::ScanResult { tree, metrics, warnings } = result;
            Ok(MappingReport::from_scan(config.input.as_str(), canonical, generated_at, tree, metrics, warnings))
        },
    }
}

}
