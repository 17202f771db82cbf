//! Scan configuration and command-line argument parsing.
//!
//! The configuration holds the scan root path and the two behaviour
//! flags. Parsing walks the argument list once: `--help` anywhere wins
//! immediately, the two flags accumulate, and every other word is taken
//! as the root path; a second such word is a fatal configuration error
//! naming both conflicting paths.

use vstd::prelude::*;
use vstd::string::StringExecFns;

verus! {

/// Immutable scan configuration: built once before scanning, never
/// mutated afterwards.
#[derive(Debug, PartialEq, Eq)]
pub struct ScanConfig {
    pub verbose: bool,
    pub recursive: bool,
    pub path: Option<String>,
}

/// Fatal configuration errors: they abort the whole run before any
/// filesystem access.
#[derive(Debug, PartialEq, Eq)]
pub enum ConfigError {
    /// Two positional path arguments were supplied; holds both in the
    /// order they appeared.
    TwoPaths(String, String),
    /// No root path was configured at all.
    MissingPath,
}

/// Outcome of argument parsing: either the usage text was requested, or
/// a configuration to run a scan with.
#[derive(Debug, PartialEq, Eq)]
pub enum ParsedCommand {
    Help,
    Run(ScanConfig),
}

/// What parsing the argument words from position `i` onwards yields,
/// given the flags and path gathered so far.
pub open spec fn parse_from(
    args: Seq<String>,
    i: int,
    verbose: bool,
    recursive: bool,
    path: Option<String>,
) -> Result<ParsedCommand, ConfigError>
    decreases args.len() - i,
{
    if i >= args.len() {
        Ok(ParsedCommand::Run(ScanConfig { verbose, recursive, path }))
    } else if args[i]@ == "--help"@ {
        Ok(ParsedCommand::Help)
    } else if args[i]@ == "--verbose"@ {
        parse_from(args, i + 1, true, recursive, path)
    } else if args[i]@ == "--recursive"@ {
        parse_from(args, i + 1, verbose, true, path)
    } else if path is Some {
        Err(ConfigError::TwoPaths(path->0, args[i]))
    } else {
        parse_from(args, i + 1, verbose, recursive, Some(args[i]))
    }
}

/// What a full argument vector parses to. The word at position 0 is the
/// program name and is never read; an empty vector asks for the usage
/// text.
pub open spec fn parse_result(args: Seq<String>) -> Result<ParsedCommand, ConfigError> {
    if args.len() == 0 {
        Ok(ParsedCommand::Help)
    } else {
        parse_from(args, 1, false, false, None)
    }
}

/// Parse a full argument vector (program name first) into a command.
pub fn parse_args(args: &Vec<String>) -> (r: Result<ParsedCommand, ConfigError>)
    ensures
        r == parse_result(args@),
{
    if args.len() == 0 {
        return Ok(ParsedCommand::Help);
    }
    let flag_help: String = String::from_str("--help");
    let flag_verbose: String = String::from_str("--verbose");
    let flag_recursive: String = String::from_str("--recursive");
    let mut verbose = false;
    let mut recursive = false;
    let mut path: Option<String> = None;
    let mut i: usize = 1;
    while i < args.len()
        invariant
            1 <= i <= args@.len(),
            flag_help@ == "--help"@,
            flag_verbose@ == "--verbose"@,
            flag_recursive@ == "--recursive"@,
            parse_from(args@, 1, false, false, None) == parse_from(
                args@,
                i as int,
                verbose,
                recursive,
                path,
            ),
        decreases args@.len() - i,
    {
        let arg = &args[i];
        if *arg == flag_help {
            return Ok(ParsedCommand::Help);
        } else if *arg == flag_verbose {
            verbose = true;
        } else if *arg == flag_recursive {
            recursive = true;
        } else {
            match path {
                Some(prev) => {
                    return Err(ConfigError::TwoPaths(prev, arg.clone()));
                },
                None => {
                    path = Some(arg.clone());
                },
            }
        }
        i = i + 1;
    }
    Ok(ParsedCommand::Run(ScanConfig { verbose, recursive, path }))
}

impl ScanConfig {
    /// The configured root path, or the fatal error owed when none was
    /// configured: scanning may only begin once this returns a path.
    pub fn root_path(&self) -> (r: Result<&String, ConfigError>)
        ensures
            r is Ok <==> self.path is Some,
            r is Ok ==> *r->Ok_0 == self.path->0,
            r is Err ==> r->Err_0 == ConfigError::MissingPath,
    {
        match &self.path {
            Some(p) => Ok(p),
            None => Err(ConfigError::MissingPath),
        }
    }
}

} // verus!
