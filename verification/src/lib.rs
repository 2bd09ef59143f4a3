pub mod grep;
pub mod text;

use vstd::prelude::*;

verus! {

/// Everything a single search invocation needs: the substring to look for,
/// the file whose contents are searched, and the case policy.
pub struct Config {
    pub query: String,
    pub filename: String,
    pub case_sensitive: bool,
}

/// A required piece of configuration is missing.
#[derive(Clone, Copy, Debug, PartialEq, Eq, Structural)]
pub enum ConfigError {
    /// The query string (first positional argument) was not supplied.
    MissingQuery,
    /// The file name (second positional argument) was not supplied.
    MissingFilename,
}

impl ConfigError {
    /// A human-readable description of the missing piece of configuration.
    pub fn message(&self) -> (r: &'static str)
        ensures
            self is MissingQuery ==> r@ == "Can't find query string."@,
            self is MissingFilename ==> r@ == "Can't find file name."@,
    {
        match self {
            ConfigError::MissingQuery => "Can't find query string.",
            ConfigError::MissingFilename => "Can't find file name.",
        }
    }
}

impl Config {
    /// Builds a `Config` from the raw argument list (whose first element is
    /// the program name and is ignored) and the already-resolved case policy.
    /// The query must come first, then the file name; whichever is missing
    /// first is reported.
    pub fn new(args: Vec<String>, case_sensitive: bool) -> (r: Result<Config, ConfigError>)
        ensures
            args@.len() < 2 ==> r == Err::<Config, ConfigError>(ConfigError::MissingQuery),
            args@.len() == 2 ==> r == Err::<Config, ConfigError>(ConfigError::MissingFilename),
            args@.len() >= 3 ==> (r matches Ok(c)
                && c.query@ == args@[1]@
                && c.filename@ == args@[2]@
                && c.case_sensitive == case_sensitive),
    {
        if args.len() < 2 {
            return Err(ConfigError::MissingQuery);
        }
        if args.len() < 3 {
            return Err(ConfigError::MissingFilename);
        }
        let query = args[1].clone();
        let filename = args[2].clone();
        Ok(Config { query, filename, case_sensitive })
    }
}

} // verus!
