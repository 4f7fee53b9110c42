use vstd::prelude::*;

verus! {

/// The run configuration: which directory to scan, what to export, and
/// how chatty to be. The command line itself is read by the program
/// shell around the library and handed over as this plain value.
#[derive(Debug, Clone)]
pub struct Args {
    pub help: bool,
    pub directory: Option<String>,
    pub filter: bool,
    pub kml: bool,
    pub kml_output: Option<String>,
    pub csv: bool,
    pub csv_output: Option<String>,
    pub no_hashcat: bool,
    pub log_level: String,
}

impl Args {
    /// The defaults: no exports, passwords enabled, info-level logging,
    /// current directory.
    pub fn new() -> (r: Args)
        ensures
            !r.help && r.directory is None && !r.filter && !r.kml && r.kml_output is None
                && !r.csv && r.csv_output is None && !r.no_hashcat,
            r.log_level@ == "info"@,
    {
        Args {
            help: false,
            directory: Option::None,
            filter: false,
            kml: false,
            kml_output: Option::None,
            csv: false,
            csv_output: Option::None,
            no_hashcat: false,
            log_level: "info".to_owned(),
        }
    }
}

} // verus!
