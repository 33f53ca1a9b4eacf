//! Deriving a search configuration from command-line arguments and the
//! case-insensitivity toggle.

use vstd::prelude::*;

verus! {

/// Name of the environment-style toggle. Its presence, whatever its value,
/// turns case sensitivity off.
pub const CASE_INSENSITIVE: &'static str = "CASE_INSENSITIVE";

/// Why no configuration could be derived from the arguments.
#[derive(Clone, Copy, Debug, PartialEq, Eq, Structural)]
pub enum ConfigError {
    /// Nothing follows the program's own name, or the query that stands with
    /// a file name is empty.
    MissingQuery,
    /// Nothing follows the query, or the file name that follows it is empty.
    MissingTargetPath,
}

/// What to search for, where, and how. The fields are open, so a caller can
/// also write a configuration down; the searches accept any, the empty query
/// included.
#[derive(Debug, PartialEq, Eq)]
pub struct Config {
    pub query: String,
    pub filename: String,
    pub case_sensitive: bool,
}

/// The mathematical content of a [`Config`].
pub struct ConfigView {
    pub query: Seq<char>,
    pub filename: Seq<char>,
    pub case_sensitive: bool,
}

impl View for Config {
    type V = ConfigView;

    open spec fn view(&self) -> ConfigView {
        ConfigView {
            query: self.query@,
            filename: self.filename@,
            case_sensitive: self.case_sensitive,
        }
    }
}

/// What the arguments lack, if anything. The first argument names the
/// program and is skipped; the next two are the query and the file to
/// search; any further ones are ignored.
///
/// Presence is judged first, by the number of arguments alone: with nothing
/// after the program's name the query is missing, with one argument after
/// it the file name is. Where both are present, neither may be the empty
/// string, and the query is judged before the file name.
pub open spec fn shortfall(args: Seq<Seq<char>>) -> Option<ConfigError> {
    if args.len() < 2 {
        Some(ConfigError::MissingQuery)
    } else if args.len() < 3 {
        Some(ConfigError::MissingTargetPath)
    } else if args[1].len() == 0 {
        Some(ConfigError::MissingQuery)
    } else if args[2].len() == 0 {
        Some(ConfigError::MissingTargetPath)
    } else {
        None
    }
}

/// The configuration that an argument list determines, given whether the
/// toggle is present.
pub open spec fn resolution(args: Seq<Seq<char>>, toggle_present: bool) -> Result<
    ConfigView,
    ConfigError,
> {
    match shortfall(args) {
        Some(e) => Err(e),
        None => Ok(
            ConfigView { query: args[1], filename: args[2], case_sensitive: !toggle_present },
        ),
    }
}

/// The mathematical content of what [`Config::new`] returns.
pub open spec fn outcome(r: Result<Config, ConfigError>) -> Result<ConfigView, ConfigError> {
    match r {
        Ok(config) => Ok(config@),
        Err(e) => Err(e),
    }
}

impl ConfigError {
    /// The text shown to the user for this error.
    pub fn message(&self) -> (text: &'static str)
        ensures
            *self == ConfigError::MissingQuery ==> text@ == "Didn't get a query string"@,
            *self == ConfigError::MissingTargetPath ==> text@ == "Didn't get a file name"@,
    {
        match self {
            ConfigError::MissingQuery => "Didn't get a query string",
            ConfigError::MissingTargetPath => "Didn't get a file name",
        }
    }
}

impl Config {
    /// Whether the configuration names something to search for and
    /// somewhere to search. Every configuration that [`Config::new`] or
    /// [`Config::resolve`] builds does.
    pub open spec fn well_formed(&self) -> bool {
        self.query@.len() > 0 && self.filename@.len() > 0
    }

    /// What the arguments lack, if anything.
    fn find_shortfall(args: &Vec<String>) -> (lack: Option<ConfigError>)
        ensures
            lack == shortfall(args.deep_view()),
    {
        let ghost given = args.deep_view();
        if args.len() < 2 {
            return Some(ConfigError::MissingQuery);
        }
        if args.len() < 3 {
            return Some(ConfigError::MissingTargetPath);
        }
        assert(given[1] == args@[1]@ && given[2] == args@[2]@);
        if args[1].as_str().is_empty() {
            return Some(ConfigError::MissingQuery);
        }
        if args[2].as_str().is_empty() {
            return Some(ConfigError::MissingTargetPath);
        }
        None
    }

    /// Derives the configuration from the arguments and from the value, if
    /// any, that was found under [`CASE_INSENSITIVE`].
    pub fn resolve(args: Vec<String>, toggle: Option<String>) -> (r: Result<Config, ConfigError>)
        ensures
            outcome(r) == resolution(args.deep_view(), toggle is Some),
            r is Ok <==> args.len() >= 3 && args[1]@.len() > 0 && args[2]@.len() > 0,
            r is Ok ==> r->Ok_0.query@.len() > 0 && r->Ok_0.filename@.len() > 0,
            r is Ok ==> r->Ok_0.well_formed(),
    {
        let mut args = args;
        let ghost given = args.deep_view();
        if let Some(lack) = Config::find_shortfall(&args) {
            return Err(lack);
        }
        assert(given[1] == args@[1]@ && given[2] == args@[2]@);
        let filename = args.remove(2);
        let query = args.remove(1);
        Ok(Config { query, filename, case_sensitive: toggle.is_none() })
    }

    /// Derives the configuration from the arguments, asking `env_lookup` for
    /// [`CASE_INSENSITIVE`] only where the arguments lack nothing. Which
    /// error is returned does not depend on the toggle.
    pub fn new<F: Fn(&str) -> Option<String>>(args: Vec<String>, env_lookup: F) -> (r: Result<
        Config,
        ConfigError,
    >)
        requires
            forall|key: &str| key@ == CASE_INSENSITIVE@ ==> call_requires(env_lookup, (key,)),
        ensures
            r is Ok <==> args.len() >= 3 && args[1]@.len() > 0 && args[2]@.len() > 0,
            r is Ok ==> r->Ok_0.query@.len() > 0 && r->Ok_0.filename@.len() > 0,
            r is Ok ==> r->Ok_0.well_formed(),
            r is Err ==> outcome(r) == resolution(args.deep_view(), false),
            r is Ok ==> exists|key: &str, found: Option<String>|
                key@ == CASE_INSENSITIVE@ && call_ensures(env_lookup, (key,), found) && outcome(r)
                    == resolution(args.deep_view(), found is Some),
    {
        proof {
            if args.len() >= 3 {
                assert(args.deep_view()[1] == args@[1]@ && args.deep_view()[2] == args@[2]@);
            }
        }
        let found = if Config::find_shortfall(&args).is_some() {
            None
        } else {
            env_lookup(CASE_INSENSITIVE)
        };
        Config::resolve(args, found)
    }
}

} // verus!
