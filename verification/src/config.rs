//! The shape of the configuration: which files to watch, for what, and
//! where to report.
use vstd::prelude::*;

verus! {

/// One watch, as mathematics: the path of a file and the pattern its
/// lines are tested against.
pub struct WatchSpec {
    pub path: Seq<char>,
    pub pattern: Seq<char>,
}

/// One watched file: its path and the pattern its lines are tested against.
#[derive(Debug)]
pub struct FileConfig {
    pub filename: String,
    pub regex: String,
}

/// The whole configuration: the webhook to post to and the files to watch,
/// in the order they were given.
#[derive(Debug)]
pub struct Config {
    pub webhook_url: String,
    pub files: Vec<FileConfig>,
}

impl View for FileConfig {
    type V = WatchSpec;

    open spec fn view(&self) -> WatchSpec {
        WatchSpec { path: self.filename@, pattern: self.regex@ }
    }
}

/// The watches of a list of files, in order.
pub open spec fn watches(files: Seq<FileConfig>) -> Seq<WatchSpec> {
    files.map_values(|file: FileConfig| file@)
}

impl FileConfig {
    /// A watch of `filename` for `regex`.
    pub fn new(filename: &str, regex: &str) -> (file: FileConfig)
        ensures
            file.filename@ == filename@,
            file.regex@ == regex@,
    {
        FileConfig { filename: filename.to_owned(), regex: regex.to_owned() }
    }
}

impl Config {
    /// A configuration that reports to `webhook_url` and watches `files`.
    pub fn new(webhook_url: &str, files: Vec<FileConfig>) -> (config: Config)
        ensures
            config.webhook_url@ == webhook_url@,
            config.files == files,
    {
        Config { webhook_url: webhook_url.to_owned(), files }
    }
}

} // verus!
