//! Resolving one invocation's configuration from its arguments: the query,
//! the file path, and whether matching ignores letter case.

use vstd::prelude::*;
use vstd::string::StringExecFns;

verus! {

/// Why a configuration could not be built from the arguments.
#[derive(Clone, Copy, Debug, PartialEq, Eq, Structural)]
pub enum ConfigError {
    /// No query argument was given.
    MissingQuery,
    /// A query was given but no file path followed it.
    MissingFilePath,
}

impl ConfigError {
    /// A human-readable description of the error.
    pub fn message(&self) -> (m: String)
        ensures
            *self == ConfigError::MissingQuery ==> m@ == "Didn't get a query string"@,
            *self == ConfigError::MissingFilePath ==> m@ == "Didn't get a file path"@,
    {
        match self {
            ConfigError::MissingQuery => String::from_str("Didn't get a query string"),
            ConfigError::MissingFilePath => String::from_str("Didn't get a file path"),
        }
    }
}

/// What one program invocation asks for.
#[derive(Debug)]
pub struct Config {
    /// The substring to look for.
    pub query: String,
    /// The file whose lines are searched.
    pub file_path: String,
    /// Whether matching ignores letter case.
    pub case_insensitive: bool,
}

impl Config {
    /// Builds a configuration from the invocation arguments. The first
    /// argument is the program name and is discarded; the query and the
    /// file path must follow, in that order. The case flag is resolved by
    /// the caller (it comes from the environment) and is recorded
    /// unchanged.
    pub fn build(args: &Vec<String>, case_insensitive: bool) -> (r: Result<Config, ConfigError>)
        ensures
            match r {
                Ok(c) => args@.len() >= 3 && c.query@ == args@[1]@ && c.file_path@ == args@[2]@
                    && c.case_insensitive == case_insensitive,
                Err(e) => (args@.len() < 2 && e == ConfigError::MissingQuery) || (args@.len() == 2
                    && e == ConfigError::MissingFilePath),
            },
    {
        if args.len() < 2 {
            return Err(ConfigError::MissingQuery);
        }
        if args.len() < 3 {
            return Err(ConfigError::MissingFilePath);
        }
        let query = args[1].clone();
        let file_path = args[2].clone();
        Ok(Config { query, file_path, case_insensitive })
    }
}

} // verus!
