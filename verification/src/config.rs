//! Configuration: the optional YAML config file merged with environment
//! variables. Environment variables always win over file values, and file
//! values over the built-in defaults.
use vstd::prelude::*;

use crate::error::Error;
use crate::paths::{join, join_path};
use crate::text::{decimal, parse_u16, push_decimal, push_str, unsigned_text};

verus! {

/// The environment variables the configuration reads.
#[derive(Clone, Copy, Debug, PartialEq, Eq, Structural)]
pub enum EnvVar {
    Home,
    XdgConfigHome,
    XdgDataHome,
    TransactionDir,
    DataDir,
    QueueFile,
    FailedLinks,
    ApiHost,
    ApiPort,
    ApiEndpoint,
    SchemaFile,
}

pub open spec fn env_var_name(k: EnvVar) -> Seq<char> {
    match k {
        EnvVar::Home => "HOME"@,
        EnvVar::XdgConfigHome => "XDG_CONFIG_HOME"@,
        EnvVar::XdgDataHome => "XDG_DATA_HOME"@,
        EnvVar::TransactionDir => "TRANSACTION_DIR"@,
        EnvVar::DataDir => "DATA_DIR"@,
        EnvVar::QueueFile => "QUEUE_FILE"@,
        EnvVar::FailedLinks => "FAILED_LINKS"@,
        EnvVar::ApiHost => "API_HOST"@,
        EnvVar::ApiPort => "API_PORT"@,
        EnvVar::ApiEndpoint => "API_ENDPOINT"@,
        EnvVar::SchemaFile => "SCHEMA_FILE"@,
    }
}

impl EnvVar {
    /// The variable's name in the process environment.
    pub fn as_str(&self) -> (s: &'static str)
        ensures
            s@ == env_var_name(*self),
    {
        match self {
            EnvVar::Home => "HOME",
            EnvVar::XdgConfigHome => "XDG_CONFIG_HOME",
            EnvVar::XdgDataHome => "XDG_DATA_HOME",
            EnvVar::TransactionDir => "TRANSACTION_DIR",
            EnvVar::DataDir => "DATA_DIR",
            EnvVar::QueueFile => "QUEUE_FILE",
            EnvVar::FailedLinks => "FAILED_LINKS",
            EnvVar::ApiHost => "API_HOST",
            EnvVar::ApiPort => "API_PORT",
            EnvVar::ApiEndpoint => "API_ENDPOINT",
            EnvVar::SchemaFile => "SCHEMA_FILE",
        }
    }
}

/// The value of `key` among `entries`: the last one set wins.
pub open spec fn lookup(entries: Seq<(EnvVar, String)>, key: EnvVar) -> Option<Seq<char>>
    decreases entries.len(),
{
    if entries.len() == 0 {
        None
    } else if entries.last().0 == key {
        Some(entries.last().1@)
    } else {
        lookup(entries.drop_last(), key)
    }
}

/// A snapshot of the environment variables the configuration reads.
#[derive(Debug)]
pub struct EnvSnapshot {
    pub entries: Vec<(EnvVar, String)>,
}

impl EnvSnapshot {
    pub open spec fn get(&self, key: EnvVar) -> Option<Seq<char>> {
        lookup(self.entries@, key)
    }

    /// No variable set.
    pub fn new() -> (e: EnvSnapshot)
        ensures
            forall|k: EnvVar| e.get(k) is None,
    {
        EnvSnapshot { entries: Vec::new() }
    }

    /// The snapshot with `key` set to `val`.
    pub fn set(self, key: EnvVar, val: &str) -> (e: EnvSnapshot)
        ensures
            e.get(key) == Some(val@),
            forall|k: EnvVar| k != key ==> e.get(k) == self.get(k),
    {
        let mut entries = self.entries;
        let ghost before = entries@;
        entries.push((key, val.to_string()));
        proof {
            assert(entries@.drop_last() == before);
        }
        EnvSnapshot { entries }
    }

    /// The value of `key`, if set.
    pub fn var(&self, key: EnvVar) -> (r: Option<String>)
        ensures
            match r {
                Some(v) => self.get(key) == Some(v@),
                None => self.get(key) is None,
            },
    {
        let mut i = self.entries.len();
        assert(self.entries@.take(i as int) == self.entries@);
        while i > 0
            invariant
                i <= self.entries@.len(),
                lookup(self.entries@, key) == lookup(self.entries@.take(i as int), key),
            decreases i,
        {
            proof {
                assert(self.entries@.take(i as int).drop_last() == self.entries@.take(i - 1));
                assert(self.entries@.take(i as int).last() == self.entries@[i - 1]);
            }
            if self.entries[i - 1].0 == key {
                return Some(self.entries[i - 1].1.clone());
            }
            i -= 1;
        }
        None
    }
}

/// The `api` section of the config file.
#[derive(Debug)]
pub struct ApiConfig {
    pub host: Option<String>,
    pub port: Option<u16>,
    pub endpoint: Option<String>,
}

/// What the config file (`~/.config/localbills/config.yaml`) holds, every key
/// optional:
///
/// ```yaml
/// transaction_dir: ~/localbills-data
/// data_dir: ~/localbills-data
/// queue_file: ~/.local/share/localbills/queue.txt
/// failed_links_file: ~/.local/share/localbills/failed.txt
/// api:
///   host: 192.168.1.2
///   port: 8087
///   endpoint: /queue
/// schema_file: /path/to/schema.yaml
/// ```
#[derive(Debug)]
pub struct ConfigFile {
    pub transaction_dir: Option<String>,
    pub data_dir: Option<String>,
    pub queue_file: Option<String>,
    pub failed_links_file: Option<String>,
    pub api: ApiConfig,
    pub schema_file: Option<String>,
}

/// A config file that sets nothing.
pub open spec fn no_file() -> ConfigFile {
    ConfigFile {
        transaction_dir: None,
        data_dir: None,
        queue_file: None,
        failed_links_file: None,
        api: ApiConfig { host: None, port: None, endpoint: None },
        schema_file: None,
    }
}

impl ConfigFile {
    /// A file that sets nothing.
    pub fn empty() -> (f: ConfigFile)
        ensures
            f == no_file(),
    {
        ConfigFile {
            transaction_dir: None,
            data_dir: None,
            queue_file: None,
            failed_links_file: None,
            api: ApiConfig { host: None, port: None, endpoint: None },
            schema_file: None,
        }
    }
}

/// The resolved configuration.
#[derive(Debug)]
pub struct Config {
    pub transaction_dir: String,
    /// Git-backed data repository (may be the same as transaction_dir).
    pub data_dir: String,
    pub queue_file: String,
    pub failed_links_file: String,
    pub api_host: String,
    pub api_port: u16,
    pub api_endpoint: String,
    /// Path to the JSON Schema file (YAML or JSON) used by `validate`.
    pub schema_file: Option<String>,
}

pub open spec fn base_url_text(host: Seq<char>, port: nat, endpoint: Seq<char>) -> Seq<char> {
    "http://"@ + host + ":"@ + decimal(port) + endpoint
}

impl Config {
    /// `http://{api_host}:{api_port}{api_endpoint}`.
    pub fn api_base_url(&self) -> (s: String)
        ensures
            s@ == base_url_text(self.api_host@, self.api_port as nat, self.api_endpoint@),
    {
        let mut s = String::new();
        push_str(&mut s, "http://");
        push_str(&mut s, self.api_host.as_str());
        push_str(&mut s, ":");
        push_decimal(&mut s, self.api_port as u64);
        push_str(&mut s, self.api_endpoint.as_str());
        s
    }
}

// ── Merging ───────────────────────────────────────────────────────────────────

/// `first`, else `second`.
pub open spec fn or_else(first: Option<Seq<char>>, second: Option<Seq<char>>) -> Option<Seq<char>> {
    match first {
        Some(v) => Some(v),
        None => second,
    }
}

/// The value of `o`, else `d`.
pub open spec fn or_default(o: Option<Seq<char>>, d: Seq<char>) -> Seq<char> {
    match o {
        Some(v) => v,
        None => d,
    }
}

pub open spec fn opt_view(o: Option<String>) -> Option<Seq<char>> {
    match o {
        Some(s) => Some(s@),
        None => None,
    }
}

/// `$HOME`, else the current directory.
pub open spec fn home_of(env: EnvSnapshot) -> Seq<char> {
    or_default(env.get(EnvVar::Home), "."@)
}

/// `$XDG_DATA_HOME`, else `~/.local/share`.
pub open spec fn xdg_data_of(env: EnvSnapshot) -> Seq<char> {
    or_default(
        env.get(EnvVar::XdgDataHome),
        join_path(join_path(home_of(env), ".local"@), "share"@),
    )
}

/// The port: `$API_PORT` when it parses as a `u16`, else the file's, else 8087.
pub open spec fn port_of(env: EnvSnapshot, file: Option<u16>) -> nat {
    let from_env = match env.get(EnvVar::ApiPort) {
        Some(t) => match unsigned_text(t) {
            Some(v) if v <= u16::MAX => Some(v),
            _ => None,
        },
        None => None,
    };
    match from_env {
        Some(v) => v,
        None => match file {
            Some(p) => p as nat,
            None => 8087,
        },
    }
}

/// The configuration that `file` and `env` give.
pub open spec fn merged(file: ConfigFile, env: EnvSnapshot, c: Config) -> bool {
    let transaction_dir = or_default(
        or_else(env.get(EnvVar::TransactionDir), opt_view(file.transaction_dir)),
        join_path(home_of(env), "localbills-data"@),
    );
    let shared = join_path(xdg_data_of(env), "localbills"@);
    &&& c.transaction_dir@ == transaction_dir
    &&& c.data_dir@ == or_default(
        or_else(env.get(EnvVar::DataDir), opt_view(file.data_dir)),
        transaction_dir,
    )
    &&& c.queue_file@ == or_default(
        or_else(env.get(EnvVar::QueueFile), opt_view(file.queue_file)),
        join_path(shared, "queue.txt"@),
    )
    &&& c.failed_links_file@ == or_default(
        or_else(env.get(EnvVar::FailedLinks), opt_view(file.failed_links_file)),
        join_path(shared, "failed.txt"@),
    )
    &&& c.api_host@ == or_default(
        or_else(env.get(EnvVar::ApiHost), opt_view(file.api.host)),
        "192.168.1.2"@,
    )
    &&& c.api_port == port_of(env, file.api.port)
    &&& c.api_endpoint@ == or_default(
        or_else(env.get(EnvVar::ApiEndpoint), opt_view(file.api.endpoint)),
        "/queue"@,
    )
    &&& opt_view(c.schema_file) == or_else(
        env.get(EnvVar::SchemaFile),
        opt_view(file.schema_file),
    )
}

/// A setting given in the environment wins over the config file and the
/// defaults.
pub proof fn lemma_env_overrides_file(file: ConfigFile, env: EnvSnapshot, c: Config)
    requires
        merged(file, env, c),
    ensures
        env.get(EnvVar::TransactionDir) matches Some(v) ==> c.transaction_dir@ == v,
        env.get(EnvVar::DataDir) matches Some(v) ==> c.data_dir@ == v,
        env.get(EnvVar::QueueFile) matches Some(v) ==> c.queue_file@ == v,
        env.get(EnvVar::FailedLinks) matches Some(v) ==> c.failed_links_file@ == v,
        env.get(EnvVar::ApiHost) matches Some(v) ==> c.api_host@ == v,
        env.get(EnvVar::ApiEndpoint) matches Some(v) ==> c.api_endpoint@ == v,
        env.get(EnvVar::SchemaFile) matches Some(v) ==> opt_view(c.schema_file) == Some(v),
{
}

/// A setting missing from the environment is taken from the config file;
/// the data directory falls back to the transaction directory.
pub proof fn lemma_file_fills_in(file: ConfigFile, env: EnvSnapshot, c: Config)
    requires
        merged(file, env, c),
    ensures
        env.get(EnvVar::TransactionDir) is None ==> (file.transaction_dir matches Some(v)
            ==> c.transaction_dir@ == v@),
        env.get(EnvVar::DataDir) is None ==> (file.data_dir matches Some(v) ==> c.data_dir@
            == v@),
        env.get(EnvVar::DataDir) is None && file.data_dir is None ==> c.data_dir@
            == c.transaction_dir@,
        env.get(EnvVar::ApiHost) is None ==> (file.api.host matches Some(v) ==> c.api_host@
            == v@),
        env.get(EnvVar::ApiPort) is None ==> (file.api.port matches Some(p) ==> c.api_port == p),
        env.get(EnvVar::SchemaFile) is None ==> opt_view(c.schema_file) == opt_view(
            file.schema_file,
        ),
{
}

/// `$HOME`, else `.`.
pub fn home_dir(env: &EnvSnapshot) -> (h: String)
    ensures
        h@ == home_of(*env),
{
    match env.var(EnvVar::Home) {
        Some(h) => h,
        None => ".".to_string(),
    }
}

/// The environment's value for `key`, else the file's.
fn env_or(env: &EnvSnapshot, key: EnvVar, file_val: Option<String>) -> (r: Option<String>)
    ensures
        opt_view(r) == or_else(env.get(key), opt_view(file_val)),
{
    match env.var(key) {
        Some(v) => Some(v),
        None => file_val,
    }
}

fn unwrap_or_string(o: Option<String>, d: String) -> (r: String)
    ensures
        r@ == or_default(opt_view(o), d@),
{
    match o {
        Some(v) => v,
        None => d,
    }
}

/// The config file at `file` (`None` when there is none; `Err` with the YAML
/// parser's message when it was not valid YAML) merged with `env`.
pub fn parse(file: Option<Result<ConfigFile, String>>, env: &EnvSnapshot) -> (r: Result<
    Config,
    Error,
>)
    ensures
        match file {
            Some(Err(detail)) => r matches Err(Error::Config(m)) && m@ == "Invalid config YAML: "@
                + detail@,
            Some(Ok(f)) => r matches Ok(c) && merged(f, *env, c),
            None => r matches Ok(c) && merged(no_file(), *env, c),
        },
{
    let file = match file {
        Some(Err(detail)) => {
            let mut m = String::new();
            push_str(&mut m, "Invalid config YAML: ");
            push_str(&mut m, detail.as_str());
            return Err(Error::Config(m));
        },
        Some(Ok(f)) => f,
        None => ConfigFile::empty(),
    };
    let home = home_dir(env);
    let xdg_data = match env.var(EnvVar::XdgDataHome) {
        Some(x) => x,
        None => {
            let l = join(home.as_str(), ".local");
            join(l.as_str(), "share")
        },
    };
    let transaction_dir = unwrap_or_string(
        env_or(env, EnvVar::TransactionDir, file.transaction_dir),
        join(home.as_str(), "localbills-data"),
    );
    let data_dir = unwrap_or_string(
        env_or(env, EnvVar::DataDir, file.data_dir),
        transaction_dir.clone(),
    );
    let shared = join(xdg_data.as_str(), "localbills");
    let queue_file = unwrap_or_string(
        env_or(env, EnvVar::QueueFile, file.queue_file),
        join(shared.as_str(), "queue.txt"),
    );
    let failed_links_file = unwrap_or_string(
        env_or(env, EnvVar::FailedLinks, file.failed_links_file),
        join(shared.as_str(), "failed.txt"),
    );
    let api_host = unwrap_or_string(
        env_or(env, EnvVar::ApiHost, file.api.host),
        "192.168.1.2".to_string(),
    );
    let from_env = match env.var(EnvVar::ApiPort) {
        Some(t) => parse_u16(t.as_str()),
        None => None,
    };
    let api_port: u16 = match from_env {
        Some(p) => p,
        None => match file.api.port {
            Some(p) => p,
            None => 8087,
        },
    };
    let api_endpoint = unwrap_or_string(
        env_or(env, EnvVar::ApiEndpoint, file.api.endpoint),
        "/queue".to_string(),
    );
    let schema_file = env_or(env, EnvVar::SchemaFile, file.schema_file);
    Ok(
        Config {
            transaction_dir,
            data_dir,
            queue_file,
            failed_links_file,
            api_host,
            api_port,
            api_endpoint,
            schema_file,
        },
    )
}

pub open spec fn config_path_of(override_path: Option<Seq<char>>, env: EnvSnapshot) -> Seq<char> {
    match override_path {
        Some(p) => p,
        None => join_path(
            join_path(
                or_default(env.get(EnvVar::XdgConfigHome), join_path(home_of(env), ".config"@)),
                "localbills"@,
            ),
            "config.yaml"@,
        ),
    }
}

/// Where the config file is read from: the path the user gave, else
/// `$XDG_CONFIG_HOME/localbills/config.yaml` (`~/.config` when unset).
pub fn config_path(override_path: Option<&str>, env: &EnvSnapshot) -> (p: String)
    ensures
        p@ == config_path_of(
            match override_path {
                Some(o) => Some(o@),
                None => None,
            },
            *env,
        ),
{
    match override_path {
        Some(p) => p.to_string(),
        None => {
            let base = match env.var(EnvVar::XdgConfigHome) {
                Some(x) => x,
                None => {
                    let h = home_dir(env);
                    join(h.as_str(), ".config")
                },
            };
            let dir = join(base.as_str(), "localbills");
            join(dir.as_str(), "config.yaml")
        },
    }
}

/// The error a config file that cannot be read ends with.
pub fn unreadable(path: &str, detail: &str) -> (e: Error)
    ensures
        e matches Error::Config(m) && m@ == "Cannot read "@ + path@ + ": "@ + detail@,
{
    let mut m = String::new();
    push_str(&mut m, "Cannot read ");
    push_str(&mut m, path);
    push_str(&mut m, ": ");
    push_str(&mut m, detail);
    Error::Config(m)
}

} // verus!
