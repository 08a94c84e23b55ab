//! Configuration: defaults, overrides from the environment and the command
//! line, and validation.
use crate::error::RqbitFuseError;
use crate::text::{concat2, concat3, parse_u64, parse_usize, spec_parse_unsigned, str_equal};
use vstd::prelude::*;

pub mod config;

verus! {

/// Main configuration.
#[derive(Debug, Clone)]
pub struct Config {
    // API settings
    pub api_url: String,
    pub api_username: Option<String>,
    pub api_password: Option<String>,
    // Cache settings
    pub metadata_ttl: u64,
    pub max_entries: usize,
    // Mount settings
    pub mount_point: String,
    // Performance settings
    pub read_timeout: u64,
    pub max_concurrent_reads: usize,
    pub readahead_size: u64,
    // Logging settings
    pub log_level: String,
}

/// Command-line arguments that override configuration values.
#[derive(Debug, Clone)]
pub struct CliArgs {
    pub api_url: Option<String>,
    pub mount_point: Option<String>,
    pub config_file: Option<String>,
    pub username: Option<String>,
    pub password: Option<String>,
}

/// The configuration variables found in the environment.
#[derive(Debug, Clone)]
pub struct EnvOverrides {
    /// `TORRENT_FUSE_API_URL`
    pub api_url: Option<String>,
    /// `TORRENT_FUSE_MOUNT_POINT`
    pub mount_point: Option<String>,
    /// `TORRENT_FUSE_METADATA_TTL`
    pub metadata_ttl: Option<String>,
    /// `TORRENT_FUSE_MAX_ENTRIES`
    pub max_entries: Option<String>,
    /// `TORRENT_FUSE_READ_TIMEOUT`
    pub read_timeout: Option<String>,
    /// `TORRENT_FUSE_LOG_LEVEL`
    pub log_level: Option<String>,
    /// `TORRENT_FUSE_AUTH_USERPASS`, as `user:password`
    pub auth_userpass: Option<String>,
    /// `TORRENT_FUSE_AUTH_USERNAME`
    pub auth_username: Option<String>,
    /// `TORRENT_FUSE_AUTH_PASSWORD`
    pub auth_password: Option<String>,
}

pub fn default_api_url() -> (r: String)
    ensures
        r@ == "http://127.0.0.1:3030"@,
{
    String::from_str("http://127.0.0.1:3030")
}

pub fn default_metadata_ttl() -> (r: u64)
    ensures
        r == 60,
{
    60
}

pub fn default_max_entries() -> (r: usize)
    ensures
        r == 1000,
{
    1000
}

pub fn default_mount_point() -> (r: String)
    ensures
        r@ == "/mnt/torrents"@,
{
    String::from_str("/mnt/torrents")
}

pub fn default_read_timeout() -> (r: u64)
    ensures
        r == 30,
{
    30
}

pub fn default_max_concurrent_reads() -> (r: usize)
    ensures
        r == 10,
{
    10
}

pub fn default_readahead_size() -> (r: u64)
    ensures
        r == 33554432,
{
    33554432
}

pub fn default_log_level() -> (r: String)
    ensures
        r@ == "info"@,
{
    String::from_str("info")
}

/// The characters of an optional string.
pub open spec fn opt_view(o: Option<String>) -> Option<Seq<char>> {
    match o {
        Some(s) => Some(s@),
        None => None,
    }
}

/// The position of the first `:` in a string, if any.
pub open spec fn first_colon(s: Seq<char>) -> Option<int> {
    if exists|i: int| 0 <= i < s.len() && s[i] == ':' {
        Some(choose|i: int| 0 <= i < s.len() && s[i] == ':' && forall|j: int| 0 <= j < i ==> s[j] != ':')
    } else {
        None
    }
}

/// The default configuration's values.
pub open spec fn is_default_config(c: Config) -> bool {
    &&& c.api_url@ == "http://127.0.0.1:3030"@
    &&& c.api_username is None
    &&& c.api_password is None
    &&& c.metadata_ttl == 60
    &&& c.max_entries == 1000
    &&& c.mount_point@ == "/mnt/torrents"@
    &&& c.read_timeout == 30
    &&& c.max_concurrent_reads == 10
    &&& c.readahead_size == 33554432
    &&& c.log_level@ == "info"@
}

/// The configuration with the command line's values where it gives them.
pub open spec fn cli_merged(c: Config, cli: CliArgs, r: Config) -> bool {
    &&& r.api_url@ == (match cli.api_url {
        Some(u) => u@,
        None => c.api_url@,
    })
    &&& r.mount_point@ == (match cli.mount_point {
        Some(m) => m@,
        None => c.mount_point@,
    })
    &&& opt_view(r.api_username) == (match cli.username {
        Some(u) => Some(u@),
        None => opt_view(c.api_username),
    })
    &&& opt_view(r.api_password) == (match cli.password {
        Some(p) => Some(p@),
        None => opt_view(c.api_password),
    })
    &&& r.metadata_ttl == c.metadata_ttl
    &&& r.max_entries == c.max_entries
    &&& r.read_timeout == c.read_timeout
    &&& r.max_concurrent_reads == c.max_concurrent_reads
    &&& r.readahead_size == c.readahead_size
    &&& r.log_level@ == c.log_level@
}

/// Whether a value is a valid read timeout: only digits, and a number that
/// fits 64 bits (so not empty).
pub open spec fn timeout_text_ok(s: Seq<char>) -> bool {
    crate::text::all_digits(s) && spec_parse_unsigned(s, u64::MAX as nat) is Some
}

/// Which environment variable is malformed, first in the order they are
/// read, if any.
pub open spec fn env_error(env: EnvOverrides) -> Option<Seq<char>> {
    if env.metadata_ttl matches Some(v) && spec_parse_unsigned(v@, u64::MAX as nat) is None {
        Some("TORRENT_FUSE_METADATA_TTL has invalid format"@)
    } else if env.max_entries matches Some(v) && spec_parse_unsigned(v@, usize::MAX as nat) is None {
        Some("TORRENT_FUSE_MAX_ENTRIES has invalid format"@)
    } else if env.read_timeout matches Some(v) && !timeout_text_ok(v@) {
        Some("TORRENT_FUSE_READ_TIMEOUT has invalid format"@)
    } else {
        None
    }
}

/// The configuration with the environment's values where it gives them:
/// the combined `user:password` variable wins over the separate ones, and
/// is ignored when it holds no `:`.
pub open spec fn env_merged(c: Config, env: EnvOverrides, r: Config) -> bool {
    &&& r.api_url@ == (match env.api_url {
        Some(u) => u@,
        None => c.api_url@,
    })
    &&& r.mount_point@ == (match env.mount_point {
        Some(m) => m@,
        None => c.mount_point@,
    })
    &&& r.metadata_ttl == (match env.metadata_ttl {
        Some(v) => spec_parse_unsigned(v@, u64::MAX as nat)->0 as u64,
        None => c.metadata_ttl,
    })
    &&& r.max_entries == (match env.max_entries {
        Some(v) => spec_parse_unsigned(v@, usize::MAX as nat)->0 as usize,
        None => c.max_entries,
    })
    &&& r.read_timeout == (match env.read_timeout {
        Some(v) => spec_parse_unsigned(v@, u64::MAX as nat)->0 as u64,
        None => c.read_timeout,
    })
    &&& r.log_level@ == (match env.log_level {
        Some(l) => l@,
        None => c.log_level@,
    })
    &&& match env.auth_userpass {
        Some(up) => match first_colon(up@) {
            Some(i) => opt_view(r.api_username) == Some(up@.subrange(0, i)) && opt_view(
                r.api_password,
            ) == Some(up@.subrange(i + 1, up@.len() as int)),
            None => opt_view(r.api_username) == opt_view(c.api_username) && opt_view(
                r.api_password,
            ) == opt_view(c.api_password),
        },
        None => {
            &&& opt_view(r.api_username) == (match env.auth_username {
                Some(u) => Some(u@),
                None => opt_view(c.api_username),
            })
            &&& opt_view(r.api_password) == (match env.auth_password {
                Some(p) => Some(p@),
                None => opt_view(c.api_password),
            })
        },
    }
    &&& r.max_concurrent_reads == c.max_concurrent_reads
    &&& r.readahead_size == c.readahead_size
}

/// The characters an `Option<String>` holds, copied.
fn copy_opt(o: &Option<String>) -> (r: Option<String>)
    ensures
        opt_view(r) == opt_view(*o),
{
    match o {
        Some(s) => Some(String::from_str(s.as_str())),
        None => None,
    }
}

/// Whether every character is an ASCII digit.
fn all_ascii_digits(s: &str) -> (r: bool)
    ensures
        r == crate::text::all_digits(s@),
{
    let n = s.unicode_len();
    let mut i: usize = 0;
    while i < n
        invariant
            i <= n,
            n == s@.len(),
            forall|j: int| 0 <= j < i ==> crate::text::spec_is_digit(#[trigger] s@[j]),
        decreases n - i,
    {
        let c = s.get_char(i);
        if !('0' <= c && c <= '9') {
            assert(!crate::text::spec_is_digit(s@[i as int]));
            return false;
        }
        i = i + 1;
    }
    true
}

/// Splits at the first `:` (`str::split_once(':')`).
fn split_at_first_colon(s: &str) -> (r: Option<(String, String)>)
    ensures
        match first_colon(s@) {
            Some(i) => r matches Some((a, b)) && a@ == s@.subrange(0, i) && b@ == s@.subrange(
                i + 1,
                s@.len() as int,
            ),
            None => r is None,
        },
{
    let n = s.unicode_len();
    let mut i: usize = 0;
    while i < n
        invariant
            i <= n,
            n == s@.len(),
            forall|j: int| 0 <= j < i ==> s@[j] != ':',
        decreases n - i,
    {
        if s.get_char(i) == ':' {
            let a = String::from_str(s.substring_char(0, i));
            let b = String::from_str(s.substring_char(i + 1, n));
            proof {
                let k = first_colon(s@)->0;
                assert(s@[i as int] == ':');
                assert(k == i as int) by {
                    if k < i {
                        assert(s@[k] != ':');
                    }
                    if k > i {
                        assert(s@[i as int] != ':');
                    }
                }
            }
            return Some((a, b));
        }
        i = i + 1;
    }
    None
}

/// What `Url::parse` reports for a text: `None` when it parses, else the
/// text of its error.
pub uninterp spec fn url_parse_error(s: Seq<char>) -> Option<Seq<char>>;

/// Parses a URL with `reqwest::Url::parse` (the `url` crate's parser) and
/// returns the text of the error when it fails.
#[verifier::external_body]
pub(crate) fn url_error(s: &str) -> (r: Option<String>)
    ensures
        opt_view(r) == url_parse_error(s@),
{
    match reqwest::Url::parse(s) {
        Ok(_) => None,
        Err(e) => Some(e.to_string()),
    }
}

/// The accepted log levels.
pub open spec fn valid_log_level(l: Seq<char>) -> bool {
    l == "error"@ || l == "warn"@ || l == "info"@ || l == "debug"@ || l == "trace"@
}

/// The first problem of a configuration, as its validation message.
pub open spec fn validation_problem(c: Config) -> Option<Seq<char>> {
    if c.api_url@.len() == 0 {
        Some("api_url: URL cannot be empty"@)
    } else if url_parse_error(c.api_url@) is Some {
        Some("api_url: Invalid URL format: "@ + url_parse_error(c.api_url@)->0)
    } else if !(c.mount_point@.len() > 0 && c.mount_point@[0] == '/') {
        Some("mount_point: Mount point must be an absolute path"@)
    } else if !valid_log_level(c.log_level@) {
        Some(
            "log_level: Invalid log level '"@ + c.log_level@
                + "'. Valid levels: error, warn, info, debug, trace"@,
        )
    } else {
        None
    }
}

impl Config {
    /// Checks the configuration: a non-empty URL that parses, an absolute
    /// mount point, and a known log level. The first problem found is
    /// reported as a validation error with one message.
    pub fn validate(&self) -> (r: Result<(), RqbitFuseError>)
        ensures
            match validation_problem(*self) {
                Some(msg) => r matches Err(RqbitFuseError::ValidationError(v)) && v@.len() == 1
                    && v@[0]@ == msg,
                None => r is Ok,
            },
    {
        if self.api_url.as_str().unicode_len() == 0 {
            let mut v: Vec<String> = Vec::new();
            v.push(String::from_str("api_url: URL cannot be empty"));
            return Err(RqbitFuseError::ValidationError(v));
        }
        match url_error(self.api_url.as_str()) {
            Some(e) => {
                let mut v: Vec<String> = Vec::new();
                v.push(concat2("api_url: Invalid URL format: ", e.as_str()));
                return Err(RqbitFuseError::ValidationError(v));
            },
            None => {},
        }
        let mp = self.mount_point.as_str();
        if !(mp.unicode_len() > 0 && mp.get_char(0) == '/') {
            let mut v: Vec<String> = Vec::new();
            v.push(String::from_str("mount_point: Mount point must be an absolute path"));
            return Err(RqbitFuseError::ValidationError(v));
        }
        let level = self.log_level.as_str();
        if !(str_equal(level, "error") || str_equal(level, "warn") || str_equal(level, "info")
            || str_equal(level, "debug") || str_equal(level, "trace")) {
            let mut v: Vec<String> = Vec::new();
            let m = concat3(
                "log_level: Invalid log level '",
                level,
                "'. Valid levels: error, warn, info, debug, trace",
            );
            v.push(m);
            return Err(RqbitFuseError::ValidationError(v));
        }
        Ok(())
    }

    pub fn new() -> (c: Self)
        ensures
            is_default_config(c),
    {
        Self::default()
    }

    /// Applies the environment's configuration variables; a malformed
    /// number is an `InvalidArgument` error naming the variable.
    pub fn merge_from_env(self, env: &EnvOverrides) -> (r: Result<Self, RqbitFuseError>)
        ensures
            match env_error(*env) {
                Some(msg) => r matches Err(RqbitFuseError::InvalidArgument(m)) && m@ == msg,
                None => r matches Ok(c) && env_merged(self, *env, c),
            },
    {
        let mut c = self;
        match &env.api_url {
            Some(v) => c.api_url = String::from_str(v.as_str()),
            None => {},
        }
        match &env.mount_point {
            Some(v) => c.mount_point = String::from_str(v.as_str()),
            None => {},
        }
        match &env.metadata_ttl {
            Some(v) => match parse_u64(v.as_str()) {
                Some(n) => c.metadata_ttl = n,
                None => {
                    return Err(
                        RqbitFuseError::InvalidArgument(
                            String::from_str("TORRENT_FUSE_METADATA_TTL has invalid format"),
                        ),
                    );
                },
            },
            None => {},
        }
        match &env.max_entries {
            Some(v) => match parse_usize(v.as_str()) {
                Some(n) => c.max_entries = n,
                None => {
                    return Err(
                        RqbitFuseError::InvalidArgument(
                            String::from_str("TORRENT_FUSE_MAX_ENTRIES has invalid format"),
                        ),
                    );
                },
            },
            None => {},
        }
        match &env.read_timeout {
            Some(v) => {
                if !all_ascii_digits(v.as_str()) {
                    return Err(
                        RqbitFuseError::InvalidArgument(
                            String::from_str("TORRENT_FUSE_READ_TIMEOUT has invalid format"),
                        ),
                    );
                }
                match parse_u64(v.as_str()) {
                    Some(n) => c.read_timeout = n,
                    None => {
                        return Err(
                            RqbitFuseError::InvalidArgument(
                                String::from_str("TORRENT_FUSE_READ_TIMEOUT has invalid format"),
                            ),
                        );
                    },
                }
            },
            None => {},
        }
        match &env.log_level {
            Some(v) => c.log_level = String::from_str(v.as_str()),
            None => {},
        }
        match &env.auth_userpass {
            Some(up) => match split_at_first_colon(up.as_str()) {
                Some((user, pass)) => {
                    c.api_username = Some(user);
                    c.api_password = Some(pass);
                },
                None => {},
            },
            None => {
                match &env.auth_username {
                    Some(u) => c.api_username = Some(String::from_str(u.as_str())),
                    None => {},
                }
                match &env.auth_password {
                    Some(p) => c.api_password = Some(String::from_str(p.as_str())),
                    None => {},
                }
            },
        }
        Ok(c)
    }

    /// Applies the command line's values.
    pub fn merge_from_cli(self, cli: &CliArgs) -> (r: Self)
        ensures
            cli_merged(self, *cli, r),
    {
        let mut c = self;
        match &cli.api_url {
            Some(url) => c.api_url = String::from_str(url.as_str()),
            None => {},
        }
        match &cli.mount_point {
            Some(m) => c.mount_point = String::from_str(m.as_str()),
            None => {},
        }
        match &cli.username {
            Some(u) => c.api_username = Some(String::from_str(u.as_str())),
            None => {},
        }
        match &cli.password {
            Some(p) => c.api_password = Some(String::from_str(p.as_str())),
            None => {},
        }
        c
    }

    /// The configuration found in a file (or the defaults when there is
    /// none), with the environment's variables applied; a failure to read
    /// the file is returned as it is.
    pub fn load(found: Result<Config, RqbitFuseError>, env: &EnvOverrides) -> (r: Result<Self, RqbitFuseError>)
        ensures
            match found {
                Err(e) => r == Err::<Config, RqbitFuseError>(e),
                Ok(f) => match env_error(*env) {
                    Some(msg) => r matches Err(RqbitFuseError::InvalidArgument(m)) && m@ == msg,
                    None => r matches Ok(c) && env_merged(f, *env, c),
                },
            },
    {
        match found {
            Ok(f) => f.merge_from_env(env),
            Err(e) => Err(e),
        }
    }

    /// As [`Config::load`], then the command line's values applied.
    pub fn load_with_cli(found: Result<Config, RqbitFuseError>, env: &EnvOverrides, cli: &CliArgs) -> (r: Result<
        Self,
        RqbitFuseError,
    >)
        ensures
            match found {
                Err(e) => r == Err::<Config, RqbitFuseError>(e),
                Ok(f) => match env_error(*env) {
                    Some(msg) => r matches Err(RqbitFuseError::InvalidArgument(m)) && m@ == msg,
                    None => r matches Ok(c) && exists|e: Config| env_merged(f, *env, e) && cli_merged(e, *cli, c),
                },
            },
    {
        match Self::load(found, env) {
            Ok(c) => {
                let ghost e = c;
                let r = c.merge_from_cli(cli);
                assert(env_merged(found->Ok_0, *env, e) && cli_merged(e, *cli, r));
                Ok(r)
            },
            Err(e) => Err(e),
        }
    }
}

/// Loads the configuration from the one found in a file (or the defaults
/// when there is none, or the failure to read it), the environment's
/// variables and the command line, in that order of precedence from
/// lowest to highest.
pub fn load_config(found: Result<Config, RqbitFuseError>, env: &EnvOverrides, cli: &CliArgs) -> (r: Result<Config, RqbitFuseError>)
    ensures
        match found {
            Err(e) => r == Err::<Config, RqbitFuseError>(e),
            Ok(f) => match env_error(*env) {
                Some(msg) => r matches Err(RqbitFuseError::InvalidArgument(m)) && m@ == msg,
                None => r matches Ok(c) && exists|e: Config| env_merged(f, *env, e) && cli_merged(e, *cli, c),
            },
        },
{
    Config::load_with_cli(found, env, cli)
}

/// Which of the places searched for a configuration file is used: the
/// first where a file exists (`exists` tells, place by place), or none.
pub fn config_location_choice(exists: &Vec<bool>) -> (r: Option<usize>)
    ensures
        r matches Some(i) ==> i < exists@.len() && exists@[i as int] && forall|j: int| 0 <= j < i ==> !exists@[j],
        r is None ==> forall|j: int| 0 <= j < exists@.len() ==> !exists@[j],
{
    let mut i: usize = 0;
    while i < exists.len()
        invariant
            i <= exists@.len(),
            forall|j: int| 0 <= j < i ==> !exists@[j],
        decreases exists.len() - i,
    {
        if exists[i] {
            return Some(i);
        }
        i = i + 1;
    }
    None
}

/// The formats a configuration file can be written in.
#[derive(Debug, Clone, Copy, PartialEq, Eq, Structural)]
pub enum ConfigFormat {
    Json,
    Toml,
}

/// `c` in lower case, for ASCII letters.
pub open spec fn ascii_lower(c: char) -> char {
    if 'A' <= c && c <= 'Z' {
        ((c as u32) + 32) as char
    } else {
        c
    }
}

/// The format of a configuration file by its extension: JSON for `json`
/// in any case, TOML otherwise.
pub fn config_format(extension: Option<&str>) -> (r: ConfigFormat)
    ensures
        r == (match extension {
            Some(e) => if e@.len() == 4 && ascii_lower(e@[0]) == 'j' && ascii_lower(e@[1]) == 's'
                && ascii_lower(e@[2]) == 'o' && ascii_lower(e@[3]) == 'n' {
                ConfigFormat::Json
            } else {
                ConfigFormat::Toml
            },
            None => ConfigFormat::Toml,
        }),
{
    match extension {
        Some(e) => {
            if e.unicode_len() == 4 {
                let a = lower_ascii(e.get_char(0));
                let b = lower_ascii(e.get_char(1));
                let c = lower_ascii(e.get_char(2));
                let d = lower_ascii(e.get_char(3));
                if a == 'j' && b == 's' && c == 'o' && d == 'n' {
                    return ConfigFormat::Json;
                }
            }
            ConfigFormat::Toml
        },
        None => ConfigFormat::Toml,
    }
}

fn lower_ascii(c: char) -> (r: char)
    ensures
        r == ascii_lower(c),
{
    if 'A' <= c && c <= 'Z' {
        ((c as u8) + 32) as char
    } else {
        c
    }
}

/// The places searched for a configuration file, in order: under the
/// user's configuration directory (when known), then `/etc`, then the
/// working directory.
pub fn default_config_locations(config_dir: Option<&str>) -> (r: Vec<String>)
    ensures
        config_dir is None ==> r@.len() == 2,
        config_dir is Some ==> r@.len() == 3,
        config_dir matches Some(d) ==> r@[0]@ == (if d@.len() == 0 {
            "rqbit-fuse/config.toml"@
        } else if d@.last() == '/' {
            d@ + "rqbit-fuse/config.toml"@
        } else {
            d@ + "/rqbit-fuse/config.toml"@
        }),
        r@[r@.len() - 2]@ == "/etc/rqbit-fuse/config.toml"@,
        r@[r@.len() - 1]@ == "./rqbit-fuse.toml"@,
{
    let mut v: Vec<String> = Vec::new();
    match config_dir {
        Some(d) => {
            let n = d.unicode_len();
            let p = if n == 0 {
                String::from_str("rqbit-fuse/config.toml")
            } else if d.get_char(n - 1) == '/' {
                concat2(d, "rqbit-fuse/config.toml")
            } else {
                concat2(d, "/rqbit-fuse/config.toml")
            };
            v.push(p);
        },
        None => {},
    }
    v.push(String::from_str("/etc/rqbit-fuse/config.toml"));
    v.push(String::from_str("./rqbit-fuse.toml"));
    v
}

impl Default for Config {
    fn default() -> (c: Self)
        ensures
            is_default_config(c),
    {
        Self {
            api_url: default_api_url(),
            api_username: None,
            api_password: None,
            metadata_ttl: default_metadata_ttl(),
            max_entries: default_max_entries(),
            mount_point: default_mount_point(),
            read_timeout: default_read_timeout(),
            max_concurrent_reads: default_max_concurrent_reads(),
            readahead_size: default_readahead_size(),
            log_level: default_log_level(),
        }
    }
}

impl Default for CliArgs {
    fn default() -> (c: Self)
        ensures
            c.api_url is None && c.mount_point is None && c.config_file is None && c.username is None
                && c.password is None,
    {
        CliArgs { api_url: None, mount_point: None, config_file: None, username: None, password: None }
    }
}

} // verus!
