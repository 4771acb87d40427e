//! The search configuration: the query, the file path and the
//! case-insensitivity flag, built from plain argument values. Reading the
//! actual process arguments and environment is the caller's business; this
//! module only decides what they mean.

use vstd::prelude::*;

verus! {

/// What a grep run needs: a query, a file path, and whether case
/// differences are ignored.
#[derive(Debug, PartialEq)]
pub struct Config {
    pub query: String,
    pub file_path: String,
    pub ignore_case: bool,
}

impl Config {
    /// Build a configuration from the argument list. The first element is
    /// the program name and is skipped; then come the query and the file
    /// path. When either is missing, the usage message is the error.
    pub fn build(arguments: &Vec<String>, ignore_case: bool) -> (result: Result<Config, String>)
        ensures
            arguments@.len() >= 3 ==> result is Ok,
            result is Ok ==> arguments@.len() >= 3 && result->Ok_0 == (Config {
                query: arguments@[1],
                file_path: arguments@[2],
                ignore_case,
            }),
            arguments@.len() < 3 ==> result is Err && result->Err_0@
                == "Usage: minigrep <query> <file_path>"@,
    {
        if arguments.len() < 3 {
            return Err(String::from_str("Usage: minigrep <query> <file_path>"));
        }
        let query = arguments[1].clone();
        let file_path = arguments[2].clone();
        Ok(Config { query, file_path, ignore_case })
    }
}

} // verus!
