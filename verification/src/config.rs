//! Run parameters: the query, the name of the file to search, and the case
//! policy, validated once from the raw argument list.

use vstd::prelude::*;

verus! {

/// The one way configuration construction can fail: the argument list is too
/// short to hold a query and a file name.
#[derive(Debug, Clone, Copy, PartialEq, Eq, Structural)]
pub enum ConfigError {
    InsufficientArguments,
}

/// The validated run parameters. `query` and `filename` are owned copies of
/// the corresponding argument-list elements; `case_sensitive` selects the
/// matching policy and is resolved by the caller before construction.
pub struct Config {
    pub query: String,
    pub filename: String,
    pub case_sensitive: bool,
}

impl Config {
    /// Builds a `Config` from an argument list whose element 0 is
    /// conventionally the invoking program's own name, element 1 the query
    /// and element 2 the file name. Fails exactly when fewer than three
    /// elements are present; no other validation is performed.
    pub fn new(args: &Vec<String>, case_sensitive: bool) -> (result: Result<Config, ConfigError>)
        ensures
            result is Ok <==> args@.len() >= 3,
            args@.len() >= 3 ==> {
                &&& result->Ok_0.query@ == args@[1]@
                &&& result->Ok_0.filename@ == args@[2]@
                &&& result->Ok_0.case_sensitive == case_sensitive
            },
            args@.len() < 3 ==> result == Err::<Config, ConfigError>(
                ConfigError::InsufficientArguments,
            ),
    {
        if args.len() < 3 {
            return Err(ConfigError::InsufficientArguments);
        }
        let query = args[1].clone();
        let filename = args[2].clone();
        Ok(Config { query, filename, case_sensitive })
    }
}

} // verus!
