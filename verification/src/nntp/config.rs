//! Settings of the article retriever, as the environment gives them.
use crate::nntp::error::NntpError;
use crate::text::chars_of;
use crate::text::parse_decimal;
use crate::text::str_eq;
use crate::text::unsigned_of;
use vstd::prelude::*;

verus! {

/// The number of connections used where the environment names none.
pub const DEFAULT_MAX_CONNECTIONS: usize = 50;

/// The seconds a connection may idle where the environment names none.
pub const DEFAULT_IDLE_TIMEOUT_SECS: u64 = 10;

/// The largest number of connections held at once.
#[derive(Debug, Clone, Copy, PartialEq, Eq, Structural)]
pub struct MaxConnections(pub usize);

impl Default for MaxConnections {
    fn default() -> (m: MaxConnections)
        ensures
            m.0 == DEFAULT_MAX_CONNECTIONS,
    {
        MaxConnections(DEFAULT_MAX_CONNECTIONS)
    }
}

impl MaxConnections {
    pub fn get(&self) -> (n: usize)
        ensures
            n == self.0,
    {
        self.0
    }
}

/// The seconds after which an idle connection is closed.
#[derive(Debug, Clone, Copy, PartialEq, Eq, Structural)]
pub struct IdleTimeout(pub u64);

impl Default for IdleTimeout {
    fn default() -> (t: IdleTimeout)
        ensures
            t.0 == DEFAULT_IDLE_TIMEOUT_SECS,
    {
        IdleTimeout(DEFAULT_IDLE_TIMEOUT_SECS)
    }
}

impl IdleTimeout {
    pub fn secs(&self) -> (n: u64)
        ensures
            n == self.0,
    {
        self.0
    }
}

/// The server and the account to fetch articles with.
#[derive(Debug, Clone, PartialEq, Eq)]
pub struct NntpConfig {
    pub host: String,
    pub username: String,
    pub password: String,
    pub max_connections: MaxConnections,
    pub idle_timeout: IdleTimeout,
}

/// The value of the first variable named `name`.
pub open spec fn env_value(vars: Seq<(String, String)>, name: Seq<char>, from: int) -> Option<
    Seq<char>,
>
    decreases vars.len() - from,
{
    if from < 0 || from >= vars.len() {
        None
    } else if vars[from].0@ == name {
        Some(vars[from].1@)
    } else {
        env_value(vars, name, from + 1)
    }
}

/// The number that a variable gives: `default` where the variable is not
/// set, nothing where it is set to something else than a number of at
/// most `max`.
pub open spec fn env_number(value: Option<Seq<char>>, default: nat, max: nat) -> Option<nat> {
    match value {
        None => Some(default),
        Some(text) => unsigned_of(text, max),
    }
}

/// The settings that the variables `vars` give.
///
/// `NNTP_HOST`, `NNTP_USERNAME` and `NNTP_PASSWORD` must be set.
/// `NNTP_MAX_CONNECTIONS` and `NNTP_IDLE_TIMEOUT` must be numbers where
/// they are set, and count as 50 and 10 where they are not.
pub open spec fn settings_of(vars: Seq<(String, String)>) -> Option<
    (Seq<char>, Seq<char>, Seq<char>, nat, nat),
> {
    match (
        env_value(vars, "NNTP_HOST"@, 0),
        env_value(vars, "NNTP_USERNAME"@, 0),
        env_value(vars, "NNTP_PASSWORD"@, 0),
        env_number(
            env_value(vars, "NNTP_MAX_CONNECTIONS"@, 0),
            DEFAULT_MAX_CONNECTIONS as nat,
            usize::MAX as nat,
        ),
        env_number(
            env_value(vars, "NNTP_IDLE_TIMEOUT"@, 0),
            DEFAULT_IDLE_TIMEOUT_SECS as nat,
            u64::MAX as nat,
        ),
    ) {
        (Some(host), Some(user), Some(pass), Some(max), Some(idle)) => Some(
            (host, user, pass, max, idle),
        ),
        _ => None,
    }
}

fn lookup<'a>(vars: &'a [(String, String)], name: &str) -> (r: Option<&'a String>)
    ensures
        match r {
            Some(v) => env_value(vars@, name@, 0) == Some(v@),
            None => env_value(vars@, name@, 0) is None,
        },
{
    let mut i: usize = 0;
    while i < vars.len()
        invariant
            i <= vars@.len(),
            env_value(vars@, name@, 0) == env_value(vars@, name@, i as int),
        decreases vars@.len() - i,
    {
        if str_eq(vars[i].0.as_str(), name) {
            return Some(&vars[i].1);
        }
        i += 1;
    }
    None
}

fn number(value: Option<&String>, default: u64, max: u64) -> (r: Option<u64>)
    requires
        default <= max,
    ensures
        r.is_some() == env_number(
            match value {
                Some(v) => Some(v@),
                None => None,
            },
            default as nat,
            max as nat,
        ).is_some(),
        r matches Some(n) ==> env_number(
            match value {
                Some(v) => Some(v@),
                None => None,
            },
            default as nat,
            max as nat,
        ) == Some(n as nat) && n <= max,
{
    match value {
        None => Some(default),
        Some(text) => {
            let chars = chars_of(text.as_str());
            parse_decimal(chars.as_slice(), max)
        },
    }
}

impl NntpConfig {
    pub fn new(
        host: String,
        username: String,
        password: String,
        max_connections: MaxConnections,
        idle_timeout: IdleTimeout,
    ) -> (c: NntpConfig)
        ensures
            c.host == host,
            c.username == username,
            c.password == password,
            c.max_connections == max_connections,
            c.idle_timeout == idle_timeout,
    {
        NntpConfig { host, username, password, max_connections, idle_timeout }
    }

    /// Reads the settings from the variables of the environment, given as
    /// pairs of name and value.
    pub fn from_env(vars: &[(String, String)]) -> (r: Result<NntpConfig, NntpError>)
        ensures
            match settings_of(vars@) {
                Some((host, user, pass, max, idle)) => r matches Ok(c) && c.host@ == host
                    && c.username@ == user && c.password@ == pass && c.max_connections.0 == max
                    && c.idle_timeout.0 == idle,
                None => r matches Err(NntpError::Config(m)) && m@
                    == "NNTP settings are missing or malformed"@,
            },
    {
        let host = lookup(vars, "NNTP_HOST");
        let username = lookup(vars, "NNTP_USERNAME");
        let password = lookup(vars, "NNTP_PASSWORD");
        let max = number(
            lookup(vars, "NNTP_MAX_CONNECTIONS"),
            DEFAULT_MAX_CONNECTIONS as u64,
            usize::MAX as u64,
        );
        let idle = number(lookup(vars, "NNTP_IDLE_TIMEOUT"), DEFAULT_IDLE_TIMEOUT_SECS, u64::MAX);
        match (host, username, password, max, idle) {
            (Some(h), Some(u), Some(p), Some(m), Some(i)) => Ok(
                NntpConfig {
                    host: h.clone(),
                    username: u.clone(),
                    password: p.clone(),
                    max_connections: MaxConnections(m as usize),
                    idle_timeout: IdleTimeout(i),
                },
            ),
            _ => Err(NntpError::Config("NNTP settings are missing or malformed".to_owned())),
        }
    }
}

} // verus!
