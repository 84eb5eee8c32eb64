//! Where a run keeps its files.

use vstd::prelude::*;

verus! {

/// The places a run works in. They are parameters, so that nothing depends
/// on hidden global paths; [`Settings::default`] gives the usual ones.
#[derive(Debug, PartialEq, Eq)]
pub struct Settings {
    /// The scratch directory, relative to the working directory. It is
    /// removed and created anew at the start of each run.
    pub scratch_dir: String,
    /// The file name under which the downloaded archive is kept in the
    /// scratch directory.
    pub archive_name: String,
    /// The directory that receives the selected artifact. It is created if
    /// missing and never cleared.
    pub output_dir: String,
}

impl Default for Settings {
    fn default() -> (settings: Settings)
        ensures
            settings.scratch_dir@ == "temp"@,
            settings.archive_name@ == "archive.tar.gz"@,
            settings.output_dir@ == "/output"@,
    {
        Settings {
            scratch_dir: "temp".to_owned(),
            archive_name: "archive.tar.gz".to_owned(),
            output_dir: "/output".to_owned(),
        }
    }
}

} // verus!
