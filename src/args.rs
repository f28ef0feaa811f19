use vstd::prelude::*;

verus! {

/// Commits pushed per window when no size is given.
pub const DEFAULT_WINDOW_SIZE: usize = 10;

/// Why a set of parameters was rejected.
#[derive(Clone, Copy, Debug, PartialEq, Eq, Structural)]
pub enum ConfigError {
    /// A window must hold at least one commit.
    ZeroWindowSize,
    /// The configuration file could not be read.
    Unreadable,
    /// A line of the configuration file is not `key = value`, or a value is
    /// not a quoted string.
    Malformed,
}

/// Per-invocation parameters of a push run.
#[derive(Clone, Debug)]
pub struct Args {
    /// Path of the repository.
    pub path: String,
    /// Whether the remote history may be overwritten.
    pub overwrite: bool,
    /// Whether to continue from the last checkpoint.
    pub resume: bool,
    /// Number of commits pushed per window.
    pub window_size: usize,
    /// Location of the configuration file.
    pub config_file: String,
}

impl Args {
    /// Validated parameters: rejected exactly when the window size is zero.
    pub fn create(
        path: String,
        overwrite: bool,
        resume: bool,
        window_size: usize,
        config_file: String,
    ) -> (r: Result<Args, ConfigError>)
        ensures
            window_size == 0 <==> r == Err::<Args, ConfigError>(ConfigError::ZeroWindowSize),
            window_size >= 1 <==> r is Ok,
            r matches Ok(a) ==> {
                &&& a.path@ == path@
                &&& a.overwrite == overwrite
                &&& a.resume == resume
                &&& a.window_size == window_size
                &&& a.config_file@ == config_file@
            },
    {
        if window_size == 0 {
            Err(ConfigError::ZeroWindowSize)
        } else {
            Ok(Args { path, overwrite, resume, window_size, config_file })
        }
    }

    /// Parameters for `path` with every other value at its default: no
    /// overwrite, resume on, windows of ten commits, `./config.toml`.
    pub fn with_defaults(path: String) -> (r: Args)
        ensures
            r.path@ == path@,
            !r.overwrite,
            r.resume,
            r.window_size == DEFAULT_WINDOW_SIZE,
            r.config_file@ == "./config.toml"@,
    {
        Args {
            path,
            overwrite: false,
            resume: true,
            window_size: DEFAULT_WINDOW_SIZE,
            config_file: String::from_str("./config.toml"),
        }
    }
}

} // verus!
