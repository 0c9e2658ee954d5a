//! The configuration bundle produced by command-line parsing. Parsing
//! itself is done by the surrounding binary; the library receives the
//! parsed values and states everything else in terms of them.

use vstd::prelude::*;
use vstd::string::StringExecFns;

verus! {

/// All user-supplied settings, one field per command-line option.
#[derive(Debug)]
pub struct Args {
    /// The shell commands to run concurrently.
    pub commands: Vec<String>,
    /// Custom names for the prefix template, joined by `name_separator`.
    pub names: Option<String>,
    /// The character to split `names` on.
    pub name_separator: char,
    /// Disables colors in prefixes.
    pub no_color: bool,
    /// Commands whose output is hidden, by name or index, comma-separated.
    pub hide: Option<String>,
    /// Pass process output through without capturing it.
    pub raw: bool,
    /// Prefix template; placeholders: {index}, {pid}, {time}, {command}, {name}.
    pub prefix: String,
    /// Comma-separated color spec per command; the last one is repeated.
    pub prefix_colors: String,
    /// Limit on the rendered length of {command}.
    pub prefix_length: usize,
    /// Timestamp format for {time}.
    pub timestamp_format: String,
    /// Kill other processes when one exits.
    pub kill_others: bool,
    /// Kill other processes when one exits with a non-zero status.
    pub kill_others_on_fail: bool,
    /// How many times a process that died is restarted; negative means forever.
    pub restart_tries: i32,
    /// Delay before a restart, in milliseconds.
    pub restart_after: u64,
}

impl Default for Args {
    /// The values that the command line falls back to when an option is absent.
    fn default() -> (r: Self)
        ensures
            r.commands@.len() == 0,
            r.names is None,
            r.name_separator == ',',
            !r.no_color,
            r.hide is None,
            !r.raw,
            r.prefix@ == "[{name}]"@,
            r.prefix_colors@ == "reset"@,
            r.prefix_length == 10,
            r.timestamp_format@ == "%Y-%m-%d %H:%M:%S.%3f"@,
            !r.kill_others,
            !r.kill_others_on_fail,
            r.restart_tries == 0,
            r.restart_after == 0,
    {
        Args {
            commands: Vec::new(),
            names: None,
            name_separator: ',',
            no_color: false,
            hide: None,
            raw: false,
            prefix: String::from_str("[{name}]"),
            prefix_colors: String::from_str("reset"),
            prefix_length: 10,
            timestamp_format: String::from_str("%Y-%m-%d %H:%M:%S.%3f"),
            kill_others: false,
            kill_others_on_fail: false,
            restart_tries: 0,
            restart_after: 0,
        }
    }
}

} // verus!
